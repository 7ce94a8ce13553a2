//! Regular expressions, matched by the `regex` crate.
//!
//! What the engine computes is not restated here: each kind of result is
//! given a name, a function of the pattern's source text and of the call's
//! other arguments, and the library's contracts speak of those names.
use vstd::prelude::*;
use regex::Regex;

verus! {

#[verifier::external_type_specification]
#[verifier::external_body]
pub struct ExRegex(regex::Regex);

#[verifier::external_type_specification]
#[verifier::external_body]
pub struct ExRegexError(regex::Error);

/// Whether `regex::Regex::new` accepts the pattern `source` (it refuses
/// invalid syntax and patterns over the default size limit).
pub uninterp spec fn regex_compiles(source: Seq<char>) -> bool;

/// What `regex::Regex::is_match` answers for the pattern `source` on
/// `haystack`: whether the pattern matches anywhere in it.
pub uninterp spec fn regex_is_match(source: Seq<char>, haystack: Seq<char>) -> bool;

/// What `regex::Regex::replace_all` returns for the pattern `source`, the
/// `haystack` and the replacement text `rep` (in which `$name` and `${name}`
/// refer to capture groups).
pub uninterp spec fn regex_replace_all(source: Seq<char>, haystack: Seq<char>, rep: Seq<char>) -> Seq<char>;

/// What `regex::Regex::captures` finds for the pattern `source` on
/// `haystack`: `None` without a match, else the text of each capture group
/// in order (group 0 being the whole match), `None` for a group that did not
/// take part in the match.
pub uninterp spec fn regex_captures(source: Seq<char>, haystack: Seq<char>) -> Option<Seq<Option<Seq<char>>>>;

/// A compiled regular expression together with the source text it was
/// compiled from.
pub struct Pattern {
    re: Regex,
    source: Ghost<Seq<char>>,
}

impl View for Pattern {
    type V = Seq<char>;

    /// The source text of the pattern.
    closed spec fn view(&self) -> Seq<char> {
        self.source@
    }
}

/// The capture groups as sequences of characters.
pub open spec fn groups_view(groups: Option<Vec<Option<String>>>) -> Option<Seq<Option<Seq<char>>>> {
    match groups {
        Some(v) => Some(v@.map_values(|g: Option<String>| match g {
            Some(s) => Some(s@),
            None => None,
        })),
        None => None,
    }
}

/// `regex::Regex::new`: succeeds exactly when the pattern compiles.
#[verifier::external_body]
fn compile(source: &str) -> (res: Result<Regex, regex::Error>)
    ensures
        res is Ok <==> regex_compiles(source@),
{
    Regex::new(source)
}

/// `regex::Regex::is_match` on the compiled pattern. The claim rests on
/// every `Pattern` holding the regex compiled from its own source, which
/// `Pattern::new` (the only constructor) keeps.
#[verifier::external_body]
fn regex_is_match_exec(p: &Pattern, haystack: &str) -> (res: bool)
    ensures
        res == regex_is_match(p@, haystack@),
{
    p.re.is_match(haystack)
}

/// `regex::Regex::replace_all` with a `&str` replacement, its result made
/// an owned `String`. As the crate documents, a haystack without a match is
/// returned unchanged. Like the other wrappers, it rests on the regex having
/// been compiled from `p@`.
#[verifier::external_body]
fn regex_replace_all_exec(p: &Pattern, haystack: &str, rep: &str) -> (res: String)
    ensures
        res@ == regex_replace_all(p@, haystack@, rep@),
        !regex_is_match(p@, haystack@) ==> res@ == haystack@,
{
    p.re.replace_all(haystack, rep).into_owned()
}

/// `regex::Regex::captures`, each group of the result turned into an owned
/// `String` (by `Captures::len`, `Captures::get` and `Match::as_str`).
#[verifier::external_body]
fn regex_captures_exec(p: &Pattern, haystack: &str) -> (res: Option<Vec<Option<String>>>)
    ensures
        groups_view(res) == regex_captures(p@, haystack@),
{
    match p.re.captures(haystack) {
        Some(caps) => {
            let mut groups = Vec::new();
            for i in 0..caps.len() {
                groups.push(match caps.get(i) {
                    Some(m) => Some(m.as_str().to_string()),
                    None => None,
                });
            }
            Some(groups)
        },
        None => None,
    }
}

impl Pattern {
    /// Compiles `source`; `None` when the regex engine refuses it.
    pub fn new(source: &str) -> (res: Option<Pattern>)
        ensures
            res is Some <==> regex_compiles(source@),
            res matches Some(p) ==> p@ == source@,
    {
        match compile(source) {
            Ok(re) => Some(Pattern { re, source: Ghost(source@) }),
            Err(_) => None,
        }
    }

    /// Whether the pattern matches anywhere in `haystack`.
    pub fn is_match(&self, haystack: &str) -> (res: bool)
        ensures
            res == regex_is_match(self@, haystack@),
    {
        regex_is_match_exec(self, haystack)
    }

    /// Every match in `haystack` replaced by `rep`.
    pub fn replace_all(&self, haystack: &str, rep: &str) -> (res: String)
        ensures
            res@ == regex_replace_all(self@, haystack@, rep@),
            !regex_is_match(self@, haystack@) ==> res@ == haystack@,
    {
        regex_replace_all_exec(self, haystack, rep)
    }

    /// The capture groups of the first match in `haystack`.
    pub fn captures(&self, haystack: &str) -> (res: Option<Vec<Option<String>>>)
        ensures
            groups_view(res) == regex_captures(self@, haystack@),
    {
        regex_captures_exec(self, haystack)
    }
}

} // verus!
