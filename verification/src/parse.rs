//! Markdown source files: the front matter, the body, and the paths that a
//! source file is published under.
use vstd::prelude::*;
use crate::pattern::{Pattern, regex_compiles, regex_captures, regex_replace_all, groups_view};
use crate::text::{
    after_first, before_last, chars_of, first_index, first_index_of, last_index, last_index_of,
    lemma_first_index, lemma_first_index_after_free, lemma_last_index, lemma_last_index_concat,
    lemma_last_index_free_tail, replace_char, replace_char_spec, string_of_range,
};

verus! {

/// The front matter: three dashes, the YAML text up to the next three
/// dashes, then the markdown body.
pub const FRONT_MATTER_PATTERN: &'static str = r"^---([\s\S]*?)---([\s\S]*)";

/// A parenthesised link target that names a markdown file, with what follows
/// the `.md` up to the closing parenthesis.
pub const MD_LINK_PATTERN: &'static str = r"(\((?P<url_str>\S+)\.md(?P<query_str>[\S]*)\))";

/// The same link target pointing at the HTML page.
pub const MD_LINK_REPLACEMENT: &'static str = "($url_str.html$query_str)";

/// A markdown source file and where its page goes.
#[derive(Debug, Clone)]
pub struct MdFile {
    /// The source path, with `/` separators.
    pub file_name: String,
    /// The path of the HTML file to write.
    pub target_file_name: String,
    /// The page's URL, relative to the site root.
    pub url: String,
    /// An identifier of the page: its URL without extension, `/` made `_`.
    pub page_id: String,
    /// The YAML front matter.
    pub yaml_str: String,
    /// The markdown body, links to `.md` files turned into links to `.html`.
    pub md_str: String,
}

impl MdFile {
    /// A file description from its six parts.
    pub fn new(
        file_name: String,
        target_file_name: String,
        url: String,
        page_id: String,
        yaml_str: String,
        md_str: String,
    ) -> (res: Self)
        ensures
            res.file_name == file_name,
            res.target_file_name == target_file_name,
            res.url == url,
            res.page_id == page_id,
            res.yaml_str == yaml_str,
            res.md_str == md_str,
    {
        MdFile { file_name, target_file_name, url, page_id, yaml_str, md_str }
    }
}

/// The page header written as YAML front matter.
#[derive(Debug, Clone)]
pub struct MdHead {
    /// The template to render the page with: a name under the public
    /// directory, without the `__` prefix and the `.html` extension.
    pub template: String,
    pub title: Option<String>,
    pub author: Option<String>,
    pub keywords: Option<String>,
    pub description: Option<String>,
    pub ctime: Option<String>,
    pub mtime: Option<String>,
    /// Lines of markdown per page; absent or 0 for a single page.
    pub page_size: Option<usize>,
    pub prev: Option<Page>,
    pub next: Option<Page>,
}

/// A link to another page.
#[derive(Debug, Clone)]
pub struct Page {
    pub title: String,
    pub url: String,
}

// ----------------------------------------------------------------------
// Model
// ----------------------------------------------------------------------

/// A source path that `parse_md_file` accepts: it has a first directory
/// (a `/`), and what follows that directory has an extension (a `.`).
pub open spec fn is_source_path(file_name: Seq<char>) -> bool {
    &&& first_index(file_name, '/') >= 0
    &&& last_index(after_first(file_name, '/'), '.') >= 0
}

/// The source path below its first directory.
pub open spec fn path_in_source(file_name: Seq<char>) -> Seq<char> {
    after_first(file_name, '/')
}

/// The source path below its first directory, without extension.
pub open spec fn page_stem(file_name: Seq<char>) -> Seq<char> {
    before_last(path_in_source(file_name), '.')
}

/// The HTML file for a source file: the source path moved from its first
/// directory into `build`, with its extension replaced by `.html`.
pub open spec fn target_file_name_of(build: Seq<char>, file_name: Seq<char>) -> Seq<char> {
    before_last(build + seq!['/'] + path_in_source(file_name), '.') + ".html"@
}

/// The URL of a source file's page.
pub open spec fn url_of(file_name: Seq<char>) -> Seq<char> {
    page_stem(file_name) + ".html"@
}

/// The page identifier of a source file.
pub open spec fn page_id_of(file_name: Seq<char>) -> Seq<char> {
    replace_char_spec(page_stem(file_name), '/', '_')
}

/// The YAML text and the body of a file, if the front-matter pattern
/// compiles and matches it with both groups.
pub open spec fn front_matter(content: Seq<char>) -> Option<(Seq<char>, Seq<char>)> {
    if !regex_compiles(FRONT_MATTER_PATTERN@) {
        None
    } else {
        match regex_captures(FRONT_MATTER_PATTERN@, content) {
            Some(groups) => if groups.len() > 2 && groups[1] is Some && groups[2] is Some {
                Some((groups[1]->0, groups[2]->0))
            } else {
                None
            },
            None => None,
        }
    }
}

/// The body with its markdown links rewritten.
pub open spec fn rewrite_links(body: Seq<char>) -> Seq<char> {
    regex_replace_all(MD_LINK_PATTERN@, body, MD_LINK_REPLACEMENT@)
}

/// `parse_md_file` returns a file exactly when the front matter is found and
/// the link pattern compiles.
pub open spec fn parses(content: Seq<char>) -> bool {
    front_matter(content) is Some && regex_compiles(MD_LINK_PATTERN@)
}

// ----------------------------------------------------------------------
// Laws
// ----------------------------------------------------------------------

/// A page's HTML file lies in the build directory at the page's URL.
pub proof fn lemma_target_is_build_url(build: Seq<char>, file_name: Seq<char>)
    requires
        is_source_path(file_name),
    ensures
        target_file_name_of(build, file_name) == build + seq!['/'] + url_of(file_name),
{
    let rest = path_in_source(file_name);
    let prefix = build + seq!['/'];
    lemma_last_index_concat(prefix, rest, '.');
    lemma_last_index(rest, '.');
    assert(prefix + rest == build + seq!['/'] + rest);
    assert((prefix + rest).take(prefix.len() + last_index(rest, '.'))
        =~= prefix + rest.take(last_index(rest, '.')));
}

/// Law: for a source path made of a first directory `dir`, a path `p` and an
/// extension `ext` (`dir` holding no `/`, `ext` no `.`), only the first
/// directory and the last extension are dropped: the URL is `p.html`, the
/// target is `build/p.html`, and the page identifier is `p` with each `/`
/// made `_`.
pub proof fn lemma_source_paths(build: Seq<char>, dir: Seq<char>, p: Seq<char>, ext: Seq<char>)
    requires
        forall|i: int| 0 <= i < dir.len() ==> dir[i] != '/',
        forall|i: int| 0 <= i < ext.len() ==> ext[i] != '.',
    ensures
        is_source_path(dir + seq!['/'] + p + seq!['.'] + ext),
        path_in_source(dir + seq!['/'] + p + seq!['.'] + ext) == p + seq!['.'] + ext,
        url_of(dir + seq!['/'] + p + seq!['.'] + ext) == p + ".html"@,
        target_file_name_of(build, dir + seq!['/'] + p + seq!['.'] + ext) == build + seq!['/'] + p + ".html"@,
        page_id_of(dir + seq!['/'] + p + seq!['.'] + ext).len() == p.len(),
        forall|i: int| 0 <= i < p.len() ==>
            #[trigger] page_id_of(dir + seq!['/'] + p + seq!['.'] + ext)[i] == if p[i] == '/' { '_' } else { p[i] },
{
    let f = dir + seq!['/'] + p + seq!['.'] + ext;
    let rest = p + seq!['.'] + ext;
    assert(f =~= dir + seq!['/'] + rest);
    lemma_first_index_after_free(dir, '/', rest);
    assert(path_in_source(f) =~= rest);
    lemma_last_index_free_tail(p + seq!['.'], ext, '.');
    assert(rest =~= (p + seq!['.']) + ext);
    assert(last_index(p + seq!['.'], '.') == p.len());
    assert(last_index(rest, '.') == p.len());
    assert(page_stem(f) =~= p);
    lemma_target_is_build_url(build, f);
}

/// Law: the front matter is the first capture group of the front-matter
/// pattern `^---([\s\S]*?)---([\s\S]*)` and the body the second, and the
/// body's links are rewritten with the `.md` link pattern and the
/// replacement `($url_str.html$query_str)`.
pub proof fn lemma_front_matter_groups(
    content: Seq<char>,
    groups: Seq<Option<Seq<char>>>,
    body: Seq<char>,
)
    ensures
        regex_compiles(r"^---([\s\S]*?)---([\s\S]*)"@)
            && regex_captures(r"^---([\s\S]*?)---([\s\S]*)"@, content) == Some(groups)
            && groups.len() > 2 && groups[1] is Some && groups[2] is Some
            ==> front_matter(content) == Some((groups[1]->0, groups[2]->0)),
        !regex_compiles(r"^---([\s\S]*?)---([\s\S]*)"@) ==> front_matter(content) is None,
        regex_captures(r"^---([\s\S]*?)---([\s\S]*)"@, content) is None ==> front_matter(content) is None,
        rewrite_links(body) == regex_replace_all(
            r"(\((?P<url_str>\S+)\.md(?P<query_str>[\S]*)\))"@,
            body,
            "($url_str.html$query_str)"@,
        ),
{
}

/// A page identifier holds no `/`.
pub proof fn lemma_page_id_flat(file_name: Seq<char>)
    ensures
        forall|i: int| 0 <= i < page_id_of(file_name).len() ==> page_id_of(file_name)[i] != '/',
{
}

// ----------------------------------------------------------------------
// Parsing
// ----------------------------------------------------------------------

/// Splits `content` into front matter and body, and describes where the page
/// of the source file `file_name` goes under `build`. `None` when the file
/// has no front matter (or a pattern does not compile).
pub fn parse_md_file(build: &str, file_name: &str, content: &str) -> (res: Option<MdFile>)
    requires
        is_source_path(file_name@),
    ensures
        res is Some <==> parses(content@),
        res matches Some(f) ==> {
            &&& f.file_name@ == file_name@
            &&& f.target_file_name@ == target_file_name_of(build@, file_name@)
            &&& f.url@ == url_of(file_name@)
            &&& f.page_id@ == page_id_of(file_name@)
            &&& f.yaml_str@ == (front_matter(content@)->0).0
            &&& f.md_str@ == rewrite_links((front_matter(content@)->0).1)
        },
{
    let front = match Pattern::new(FRONT_MATTER_PATTERN) {
        Some(p) => p,
        None => return None,
    };
    let groups = match front.captures(content) {
        Some(g) => g,
        None => return None,
    };
    proof {
        assert(groups_view(Some(groups)) == regex_captures(FRONT_MATTER_PATTERN@, content@));
    }
    if groups.len() <= 2 {
        return None;
    }
    let yaml_str = match &groups[1] {
        Some(s) => s.clone(),
        None => return None,
    };
    let body = match &groups[2] {
        Some(s) => s.clone(),
        None => return None,
    };
    let links = match Pattern::new(MD_LINK_PATTERN) {
        Some(p) => p,
        None => return None,
    };
    let md_str = links.replace_all(body.as_str(), MD_LINK_REPLACEMENT);

    // The source path below its first directory.
    let path = chars_of(file_name);
    let slash = match first_index_of(&path, '/') {
        Some(k) => k,
        None => return None,
    };
    proof {
        lemma_first_index(path@, '/');
    }
    assert(slash < path.len());
    let rest = string_of_range(&path, slash + 1, path.len());
    assert(rest@ == path_in_source(file_name@));

    // The target: the same path under `build`, extension made `.html`.
    let mut target = String::from_str(build);
    target.append("/");
    target.append(rest.as_str());
    let target_chars = chars_of(target.as_str());
    proof {
        reveal_strlit("/");
        assert(target_chars@ == build@ + seq!['/'] + rest@);
        lemma_last_index_concat(build@ + seq!['/'], rest@, '.');
        lemma_last_index(target_chars@, '.');
        lemma_last_index(rest@, '.');
    }
    let target_dot = match last_index_of(&target_chars, '.') {
        Some(k) => k,
        None => return None,
    };
    let mut target_file_name = string_of_range(&target_chars, 0, target_dot);
    target_file_name.append(".html");

    // The URL and the page identifier, from the path without extension.
    let rest_chars = chars_of(rest.as_str());
    let rest_dot = match last_index_of(&rest_chars, '.') {
        Some(k) => k,
        None => return None,
    };
    let stem = string_of_range(&rest_chars, 0, rest_dot);
    let page_id = replace_char(stem.as_str(), '/', '_');
    let mut url = stem.clone();
    url.append(".html");
    Some(MdFile::new(String::from_str(file_name), target_file_name, url, page_id, yaml_str, md_str))
}

} // verus!
