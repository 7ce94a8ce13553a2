//! Decisions of a site build: where files are copied, and the patterns of
//! the files that are not copied.
use vstd::prelude::*;
use crate::parse::path_in_source;
use crate::text::{
    before_last, chars_of, first_index, first_index_of, last_index, last_index_of,
    lemma_first_index, lemma_first_index_after_free, lemma_last_index, lemma_last_index_free_tail,
    string_of_range,
};

verus! {

/// Template files of the public directory, which are not copied.
pub const TEMPLATE_FILE_PATTERN: &'static str = r".*__.*\.html$";

/// Markdown sources, which are rendered rather than copied.
pub const MARKDOWN_FILE_PATTERN: &'static str = r".*\.md$";

/// The copy of `file_name` in the directory `target`: the path below the
/// file's first directory, moved into `target`.
pub open spec fn copy_destination_spec(target: Seq<char>, file_name: Seq<char>) -> Seq<char> {
    target + seq!['/'] + path_in_source(file_name)
}

/// Law: a file below the first directory `dir` (which holds no `/`) is
/// copied to the same path `rest` below `target`, subdirectories and all.
pub proof fn lemma_copy_keeps_path(target: Seq<char>, dir: Seq<char>, rest: Seq<char>)
    requires
        forall|i: int| 0 <= i < dir.len() ==> dir[i] != '/',
    ensures
        first_index(dir + seq!['/'] + rest, '/') >= 0,
        copy_destination_spec(target, dir + seq!['/'] + rest) == target + seq!['/'] + rest,
{
    lemma_first_index_after_free(dir, '/', rest);
    assert((dir + seq!['/'] + rest).skip(dir.len() as int + 1) =~= rest);
}

/// Where the file `file_name` is copied to under `target` (a file that an
/// ignore pattern matches is left out before this is asked).
pub fn copy_destination(target: &str, file_name: &str) -> (res: String)
    requires
        first_index(file_name@, '/') >= 0,
    ensures
        res@ == copy_destination_spec(target@, file_name@),
{
    let chars = chars_of(file_name);
    proof {
        lemma_first_index(chars@, '/');
        reveal_strlit("/");
    }
    let slash = match first_index_of(&chars, '/') {
        Some(k) => k,
        None => chars.len(),
    };
    assert(slash < chars.len());
    let rest = string_of_range(&chars, slash + 1, chars.len());
    let mut dest = String::from_str(target);
    dest.append("/");
    dest.append(rest.as_str());
    assert(rest@ == path_in_source(file_name@));
    dest
}

/// Law: the directory of `dir/name`, when `name` holds no `/`, is `dir`.
pub proof fn lemma_parent_dir(dir: Seq<char>, name: Seq<char>)
    requires
        forall|i: int| 0 <= i < name.len() ==> name[i] != '/',
    ensures
        last_index(dir + seq!['/'] + name, '/') >= 0,
        before_last(dir + seq!['/'] + name, '/') == dir,
{
    let t = dir + seq!['/'] + name;
    lemma_last_index_free_tail(dir + seq!['/'], name, '/');
    assert(t =~= (dir + seq!['/']) + name);
    assert(last_index(dir + seq!['/'], '/') == dir.len());
    assert(t.take(dir.len() as int) =~= dir);
}

/// The directory part of a path: everything before its last `/`.
pub fn parent_dir(path: &str) -> (res: String)
    requires
        last_index(path@, '/') >= 0,
    ensures
        res@ == before_last(path@, '/'),
{
    let chars = chars_of(path);
    match last_index_of(&chars, '/') {
        Some(k) => {
            proof {
                lemma_last_index(chars@, '/');
            }
            string_of_range(&chars, 0, k)
        },
        None => String::new(),
    }
}

} // verus!
