//! Splitting a long markdown page into numbered pages: which lines each
//! page holds, which file each page is written to, and the navigation
//! between them.
use vstd::prelude::*;
use crate::parse::{MdFile, MdHead};
use crate::template::{
    AFTER_NEXT_LINK, AFTER_PREV_LINK, BEFORE_NEXT_LINK, FIRST_PAGE_OPEN, LAST_PAGE_CLOSE,
    LATER_PAGE_OPEN,
};
use crate::text::{
    after_last, before_last, chars_of, decimal, decimal_string, join_spec, last_index,
    last_index_of, lemma_decimal_shape, lemma_decimal_injective, lemma_join_split, lemma_last_index,
    lemma_last_index_free_tail, lemma_split_nonempty, split_on, split_spec, string_of_range,
};

verus! {

// ----------------------------------------------------------------------
// Model
// ----------------------------------------------------------------------

/// The header asks for pages of a positive number of lines.
pub open spec fn is_paged(head: MdHead) -> bool {
    head.page_size matches Some(size) && size > 0
}

/// `n / d` rounded up.
pub open spec fn ceil_div(n: nat, d: nat) -> nat {
    n / d + if n % d != 0 { 1nat } else { 0nat }
}

/// The lines, each followed by a line break.
pub open spec fn lines_text(lines: Seq<Seq<char>>) -> Seq<char>
    decreases lines.len(),
{
    if lines.len() == 0 {
        Seq::<char>::empty()
    } else {
        lines_text(lines.drop_last()) + lines.last().push('\n')
    }
}

/// The index just after the last line of page `k`.
pub open spec fn page_end(n: nat, size: nat, k: nat) -> nat {
    if k * size + size <= n {
        k * size + size
    } else {
        n
    }
}

/// The markdown of page `k`: its lines, each followed by a line break.
pub open spec fn page_markdown(lines: Seq<Seq<char>>, size: nat, k: nat) -> Seq<char> {
    lines_text(lines.subrange((k * size) as int, page_end(lines.len(), size, k) as int))
}

/// The file of page `k`: the first page keeps the target; a later page
/// gets `-k` before the extension.
pub open spec fn page_target(target: Seq<char>, k: nat) -> Seq<char> {
    if k == 0 {
        target
    } else {
        before_last(target, '.') + seq!['-'] + decimal(k) + seq!['.'] + after_last(target, '.')
    }
}

/// The relative link to page `k` of the page called `name`.
pub open spec fn page_link(name: Seq<char>, k: nat, ext: Seq<char>) -> Seq<char> {
    name + seq!['-'] + decimal(k) + seq!['.'] + ext
}

/// The relative link to the first page of the page called `name`.
pub open spec fn first_page_link(name: Seq<char>, ext: Seq<char>) -> Seq<char> {
    name + seq!['.'] + ext
}

/// The navigation of page `k` out of `count`: the first page shows its
/// number and a link to the next; a middle page links to the previous and
/// the next; the last page links to the previous.
pub open spec fn pagination_spec(k: nat, count: nat, name: Seq<char>, ext: Seq<char>) -> Seq<char> {
    if k == 0 && count > 0 {
        FIRST_PAGE_OPEN@ + decimal(1) + BEFORE_NEXT_LINK@ + page_link(name, 1, ext) + AFTER_NEXT_LINK@
    } else if k > 0 && k + 1 < count {
        let prev = if k == 1 {
            first_page_link(name, ext)
        } else {
            page_link(name, (k - 1) as nat, ext)
        };
        LATER_PAGE_OPEN@ + prev + AFTER_PREV_LINK@ + decimal(k + 1) + BEFORE_NEXT_LINK@
            + page_link(name, k + 1, ext) + AFTER_NEXT_LINK@
    } else if k > 0 && k + 1 == count {
        LATER_PAGE_OPEN@ + page_link(name, (k - 1) as nat, ext) + AFTER_PREV_LINK@ + decimal(k + 1)
            + LAST_PAGE_CLOSE@
    } else {
        Seq::<char>::empty()
    }
}

/// The lines of the markdown body.
pub open spec fn body_lines(md_file: MdFile) -> Seq<Seq<char>> {
    split_spec(md_file.md_str@, '\n')
}

/// How many pages the file is rendered into.
pub open spec fn page_count(md_file: MdFile, head: MdHead) -> nat {
    if is_paged(head) {
        ceil_div(body_lines(md_file).len(), head.page_size->0 as nat)
    } else {
        1
    }
}

/// Page `k`: its file, its markdown and its navigation.
pub open spec fn page_plan(md_file: MdFile, head: MdHead, k: nat) -> (Seq<char>, Seq<char>, Seq<char>) {
    if is_paged(head) {
        let target = md_file.target_file_name@;
        let name = after_last(before_last(target, '.'), '/');
        let ext = after_last(target, '.');
        (
            page_target(target, k),
            page_markdown(body_lines(md_file), head.page_size->0 as nat, k),
            pagination_spec(k, page_count(md_file, head), name, ext),
        )
    } else {
        (md_file.target_file_name@, md_file.md_str@, Seq::<char>::empty())
    }
}

/// A page to render: where it goes, its markdown, and its navigation.
pub struct PagePlan {
    pub target_file: String,
    pub markdown: String,
    pub pagination: String,
}

impl View for PagePlan {
    type V = (Seq<char>, Seq<char>, Seq<char>);

    open spec fn view(&self) -> (Seq<char>, Seq<char>, Seq<char>) {
        (self.target_file@, self.markdown@, self.pagination@)
    }
}

// ----------------------------------------------------------------------
// Lemmas and laws
// ----------------------------------------------------------------------

/// Every page starts inside the body, and the pages together reach its end.
pub proof fn lemma_page_bounds(n: nat, size: nat, k: nat)
    requires
        size > 0,
    ensures
        k < ceil_div(n, size) ==> k * size < n,
        ceil_div(n, size) * size >= n,
        ceil_div(n, size) > 0 ==> (ceil_div(n, size) - 1) * size < n,
{
    let q = n / size;
    let r = n % size;
    assert(n == q * size + r && 0 <= r < size) by (nonlinear_arith)
        requires
            size > 0,
            q == n / size,
            r == n % size,
    ;
    if k < ceil_div(n, size) {
        if k < q {
            assert(k * size <= (q - 1) * size) by (nonlinear_arith)
                requires
                    k <= q - 1,
                    size > 0,
            ;
            assert((q - 1) * size == q * size - size) by (nonlinear_arith);
        } else {
            assert(k == q && r != 0);
        }
    }
    if r != 0 {
        assert((q + 1) * size == q * size + size) by (nonlinear_arith);
    }
    if ceil_div(n, size) > 0 {
        if r == 0 {
            assert((q - 1) * size == q * size - size) by (nonlinear_arith);
        }
    }
}

/// The text of consecutive lines is the text of the first lines followed by
/// the text of the others.
pub proof fn lemma_lines_text_concat(a: Seq<Seq<char>>, b: Seq<Seq<char>>)
    ensures
        lines_text(a + b) == lines_text(a) + lines_text(b),
    decreases b.len(),
{
    if b.len() == 0 {
        assert(a + b == a);
    } else {
        lemma_lines_text_concat(a, b.drop_last());
        assert((a + b).drop_last() == a + b.drop_last());
    }
}

/// The lines of a text, each followed by a line break, are the text with a
/// line break at the end.
pub proof fn lemma_lines_text_split(s: Seq<char>)
    ensures
        lines_text(split_spec(s, '\n')) == s.push('\n'),
{
    lemma_split_nonempty(s, '\n');
    lemma_lines_text_join(split_spec(s, '\n'));
    lemma_join_split(s, '\n');
}

/// Lines followed by line breaks are the lines joined by line breaks, with
/// one more at the end.
proof fn lemma_lines_text_join(lines: Seq<Seq<char>>)
    requires
        lines.len() >= 1,
    ensures
        lines_text(lines) == join_spec(lines, '\n').push('\n'),
    decreases lines.len(),
{
    if lines.len() == 1 {
        assert(lines.drop_last() == Seq::<Seq<char>>::empty());
        assert(lines_text(lines.drop_last()) == Seq::<char>::empty());
        assert(lines_text(lines) == Seq::<char>::empty() + lines[0].push('\n'));
    } else {
        lemma_lines_text_join(lines.drop_last());
        assert(lines_text(lines) =~= join_spec(lines.drop_last(), '\n').push('\n') + lines.last().push('\n'));
    }
}

/// The markdown of the pages before page `j`, in order.
pub open spec fn pages_markdown(lines: Seq<Seq<char>>, size: nat, j: nat) -> Seq<char>
    decreases j,
{
    if j == 0 {
        Seq::<char>::empty()
    } else {
        pages_markdown(lines, size, (j - 1) as nat) + page_markdown(lines, size, (j - 1) as nat)
    }
}

/// The first `j` pages hold the first lines of the body, up to the end of
/// page `j - 1`.
proof fn lemma_pages_prefix(lines: Seq<Seq<char>>, size: nat, j: nat)
    requires
        size > 0,
        j <= ceil_div(lines.len(), size),
    ensures
        pages_markdown(lines, size, j) == lines_text(
            lines.subrange(0, if j == 0 { 0 } else { page_end(lines.len(), size, (j - 1) as nat) as int }),
        ),
    decreases j,
{
    let n = lines.len();
    if j == 0 {
        assert(lines.subrange(0, 0) == Seq::<Seq<char>>::empty());
    } else {
        let k = (j - 1) as nat;
        lemma_pages_prefix(lines, size, k);
        lemma_page_bounds(n, size, k);
        let start = k * size;
        let prev_end: int = if k == 0 { 0 } else { page_end(n, size, (k - 1) as nat) as int };
        if k > 0 {
            assert((k - 1) * size + size == k * size) by (nonlinear_arith)
                requires
                    k > 0,
            ;
            lemma_page_bounds(n, size, (k - 1) as nat);
        } else {
            assert(k * size == 0) by (nonlinear_arith)
                requires
                    k == 0,
            ;
        }
        assert(prev_end == start);
        let end = page_end(n, size, k);
        assert(start <= end <= n);
        assert(lines.subrange(0, end as int) == lines.subrange(0, start as int) + lines.subrange(start as int, end as int));
        lemma_lines_text_concat(lines.subrange(0, start as int), lines.subrange(start as int, end as int));
    }
}

/// Law: the pages of a paged file hold, in order, every line of its body and
/// nothing else; together they are the body with a line break at the end.
pub proof fn lemma_pages_cover_body(md_file: MdFile, head: MdHead)
    requires
        is_paged(head),
    ensures
        pages_markdown(body_lines(md_file), head.page_size->0 as nat, page_count(md_file, head))
            == md_file.md_str@.push('\n'),
{
    let lines = body_lines(md_file);
    let size = head.page_size->0 as nat;
    let count = page_count(md_file, head);
    let n = lines.len();
    lemma_split_nonempty(md_file.md_str@, '\n');
    lemma_page_bounds(n, size, 0);
    lemma_pages_prefix(lines, size, count);
    assert(count > 0);
    let last = (count - 1) as nat;
    lemma_page_bounds(n, size, last);
    assert(count * size >= n);
    assert(last * size + size == count * size) by (nonlinear_arith)
        requires
            last + 1 == count,
    ;
    assert(page_end(n, size, last) == n);
    assert(lines.subrange(0, n as int) == lines);
    lemma_lines_text_split(md_file.md_str@);
}

/// Law: for a target `stem.ext` (`ext` holding no `.`), the first page is
/// written to the target itself and page `k > 0` to `stem-k.ext`, `k` in
/// decimal.
pub proof fn lemma_page_target_shape(stem: Seq<char>, ext: Seq<char>, k: nat)
    requires
        forall|i: int| 0 <= i < ext.len() ==> ext[i] != '.',
    ensures
        last_index(stem + seq!['.'] + ext, '.') >= 0,
        page_target(stem + seq!['.'] + ext, 0) == stem + seq!['.'] + ext,
        k > 0 ==> page_target(stem + seq!['.'] + ext, k) == stem + seq!['-'] + decimal(k) + seq!['.'] + ext,
{
    let t = stem + seq!['.'] + ext;
    lemma_last_index_free_tail(stem + seq!['.'], ext, '.');
    assert(t =~= (stem + seq!['.']) + ext);
    assert(last_index(stem + seq!['.'], '.') == stem.len());
    assert(before_last(t, '.') =~= stem);
    assert(after_last(t, '.') =~= ext);
}

/// Law: without a positive page size the file is one page, written to its
/// target, holding the whole body, without navigation.
pub proof fn lemma_single_page(md_file: MdFile, head: MdHead)
    requires
        head.page_size is None || head.page_size == Some(0usize),
    ensures
        page_count(md_file, head) == 1,
        page_plan(md_file, head, 0) == (md_file.target_file_name@, md_file.md_str@, Seq::<char>::empty()),
{
}

/// Law: with a positive page size `size`, the number of pages is the least
/// number of pages of `size` lines that hold every line of the body.
pub proof fn lemma_page_count(md_file: MdFile, head: MdHead, size: usize)
    requires
        head.page_size == Some(size),
        size > 0,
    ensures
        page_count(md_file, head) >= 1,
        page_count(md_file, head) * size >= body_lines(md_file).len(),
        (page_count(md_file, head) - 1) * size < body_lines(md_file).len(),
{
    let n = body_lines(md_file).len();
    lemma_split_nonempty(md_file.md_str@, '\n');
    lemma_page_bounds(n, size as nat, 0);
    assert(0 * size == 0) by (nonlinear_arith);
}

/// Law: the pages of a paged file are written to pairwise distinct files.
pub proof fn lemma_page_targets_distinct(target: Seq<char>, j: nat, k: nat)
    requires
        last_index(target, '.') >= 0,
        j != k,
    ensures
        page_target(target, j) != page_target(target, k),
{
    lemma_last_index(target, '.');
    let stem = before_last(target, '.');
    let ext = after_last(target, '.');
    assert(target =~= stem + seq!['.'] + ext);
    lemma_decimal_shape(j);
    lemma_decimal_shape(k);
    if j != 0 && k != 0 {
        let a = page_target(target, j);
        let b = page_target(target, k);
        if a == b {
            let dj = decimal(j);
            let dk = decimal(k);
            assert(dj.len() == dk.len());
            let lo: int = stem.len() as int + 1;
            assert(a.subrange(lo, lo + dj.len()) =~= dj);
            assert(b.subrange(lo, lo + dk.len()) =~= dk);
            lemma_decimal_injective(j, k);
        }
    } else if j == 0 {
        assert(page_target(target, k).len() > target.len());
    } else {
        assert(page_target(target, j).len() > target.len());
    }
}

/// The file name of a path: what follows its last `/`.
pub open spec fn file_name_of(path: Seq<char>) -> Seq<char> {
    after_last(path, '/')
}

/// A sequence in which `c` never occurs has no last `c`.
proof fn lemma_absent(s: Seq<char>, c: char)
    requires
        forall|i: int| 0 <= i < s.len() ==> s[i] != c,
    ensures
        last_index(s, c) == -1,
{
    lemma_last_index(s, c);
}

/// Appending text without `c` keeps what follows the last `c`, extended by
/// that text.
proof fn lemma_after_last_concat(a: Seq<char>, b: Seq<char>, c: char)
    requires
        last_index(b, c) == -1,
    ensures
        last_index(a + b, c) == last_index(a, c),
        after_last(a + b, c) == after_last(a, c) + b,
    decreases b.len(),
{
    if b.len() > 0 {
        assert(b.last() != c);
        assert(b.drop_last().len() < b.len());
        lemma_after_last_concat(a, b.drop_last(), c);
        assert((a + b).drop_last() == a + b.drop_last());
        assert((a + b).last() == b.last());
    } else {
        assert(a + b == a);
    }
    lemma_last_index(a, c);
    assert((a + b).skip(last_index(a, c) + 1) =~= a.skip(last_index(a, c) + 1) + b);
}

/// Decimal digits are never `/`.
proof fn lemma_decimal_no_slash(n: nat)
    ensures
        forall|i: int| 0 <= i < decimal(n).len() ==> decimal(n)[i] != '/',
    decreases n,
{
    if n >= 10 {
        lemma_decimal_no_slash(n / 10);
        assert forall|i: int| 0 <= i < decimal(n).len() implies decimal(n)[i] != '/' by {
            if i < decimal(n / 10).len() {
                assert(decimal(n)[i] == decimal(n / 10)[i]);
            }
        }
    }
}

/// The file name of page `k`'s file is the link that the navigation uses
/// for page `k`, when the extension holds no `/`.
pub proof fn lemma_page_file_name(target: Seq<char>, k: nat)
    requires
        last_index(target, '.') >= 0,
        last_index(after_last(target, '.'), '/') == -1,
    ensures
        file_name_of(page_target(target, k)) == if k == 0 {
            first_page_link(after_last(before_last(target, '.'), '/'), after_last(target, '.'))
        } else {
            page_link(after_last(before_last(target, '.'), '/'), k, after_last(target, '.'))
        },
{
    lemma_last_index(target, '.');
    let stem = before_last(target, '.');
    let ext = after_last(target, '.');
    let name = after_last(stem, '/');
    assert(target =~= stem + (seq!['.'] + ext));
    lemma_last_index(ext, '/');
    if k == 0 {
        let tail = seq!['.'] + ext;
        assert forall|i: int| 0 <= i < tail.len() implies tail[i] != '/' by {
            if i > 0 {
                assert(tail[i] == ext[i - 1]);
            }
        }
        lemma_absent(tail, '/');
        lemma_after_last_concat(stem, tail, '/');
        assert(name + tail =~= first_page_link(name, ext));
    } else {
        let tail = seq!['-'] + decimal(k) + seq!['.'] + ext;
        lemma_decimal_no_slash(k);
        let d = decimal(k);
        assert forall|i: int| 0 <= i < tail.len() implies tail[i] != '/' by {
            if 1 <= i < 1 + d.len() {
                assert(tail[i] == d[i - 1]);
            } else if i > 1 + d.len() {
                assert(tail[i] == ext[i - 2 - d.len()]);
            }
        }
        lemma_absent(tail, '/');
        assert(page_target(target, k) =~= stem + tail);
        lemma_after_last_concat(stem, tail, '/');
        assert(name + tail =~= page_link(name, k, ext));
    }
}

/// Law: when a file is cut into three pages or more and its target's
/// extension holds no `/`, the navigation of every page links to the files
/// of its neighbours: page 0 only to page 1, the last page only to the one
/// before it, any other page to the one before and the one after.
pub proof fn lemma_navigation_links_neighbours(md_file: MdFile, head: MdHead, k: nat)
    requires
        is_paged(head),
        last_index(md_file.target_file_name@, '.') >= 0,
        last_index(after_last(md_file.target_file_name@, '.'), '/') == -1,
        page_count(md_file, head) >= 3,
        k < page_count(md_file, head),
    ensures
        page_plan(md_file, head, k).2 == if k == 0 {
            FIRST_PAGE_OPEN@ + decimal(1) + BEFORE_NEXT_LINK@
                + file_name_of(page_plan(md_file, head, 1).0) + AFTER_NEXT_LINK@
        } else if k + 1 < page_count(md_file, head) {
            LATER_PAGE_OPEN@ + file_name_of(page_plan(md_file, head, (k - 1) as nat).0)
                + AFTER_PREV_LINK@ + decimal(k + 1) + BEFORE_NEXT_LINK@
                + file_name_of(page_plan(md_file, head, k + 1).0) + AFTER_NEXT_LINK@
        } else {
            LATER_PAGE_OPEN@ + file_name_of(page_plan(md_file, head, (k - 1) as nat).0)
                + AFTER_PREV_LINK@ + decimal(k + 1) + LAST_PAGE_CLOSE@
        },
{
    let target = md_file.target_file_name@;
    if k == 0 {
        lemma_page_file_name(target, 1);
    } else {
        lemma_page_file_name(target, (k - 1) as nat);
        lemma_page_file_name(target, k + 1);
    }
}

// ----------------------------------------------------------------------
// Execution
// ----------------------------------------------------------------------

/// The text of `lines[lo..hi]`, each line followed by a line break.
fn join_lines(lines: &Vec<String>, lo: usize, hi: usize) -> (res: String)
    requires
        lo <= hi <= lines@.len(),
    ensures
        res@ == lines_text(lines.deep_view().subrange(lo as int, hi as int)),
{
    let mut res = String::new();
    let mut i: usize = lo;
    while i < hi
        invariant
            lo <= i <= hi <= lines@.len(),
            res@ == lines_text(lines.deep_view().subrange(lo as int, i as int)),
        decreases hi - i,
    {
        res.append(lines[i].as_str());
        res.append("\n");
        proof {
            reveal_strlit("\n");
            let next = lines.deep_view().subrange(lo as int, i + 1);
            assert(next.drop_last() == lines.deep_view().subrange(lo as int, i as int));
            assert(next.last() == lines[i as int]@);
        }
        i = i + 1;
    }
    res
}

/// `name-k.ext`.
fn link_to_page(name: &str, k: usize, ext: &str) -> (res: String)
    ensures
        res@ == page_link(name@, k as nat, ext@),
{
    let mut res = String::from_str(name);
    res.append("-");
    res.append(decimal_string(k).as_str());
    res.append(".");
    res.append(ext);
    proof {
        reveal_strlit("-");
        reveal_strlit(".");
    }
    res
}

/// The navigation of page `k` out of `count` of the page `name`.
pub fn pagination(k: usize, count: usize, name: &str, ext: &str) -> (res: String)
    ensures
        res@ == pagination_spec(k as nat, count as nat, name@, ext@),
{
    let mut res = String::new();
    if k == 0 && count > 0 {
        res.append(FIRST_PAGE_OPEN);
        res.append(decimal_string(1).as_str());
        res.append(BEFORE_NEXT_LINK);
        res.append(link_to_page(name, 1, ext).as_str());
        res.append(AFTER_NEXT_LINK);
    } else if k > 0 && count > 0 && k < count - 1 {
        let prev = if k == 1 {
            let mut first = String::from_str(name);
            first.append(".");
            first.append(ext);
            proof {
                reveal_strlit(".");
            }
            first
        } else {
            link_to_page(name, k - 1, ext)
        };
        res.append(LATER_PAGE_OPEN);
        res.append(prev.as_str());
        res.append(AFTER_PREV_LINK);
        res.append(decimal_string(k + 1).as_str());
        res.append(BEFORE_NEXT_LINK);
        res.append(link_to_page(name, k + 1, ext).as_str());
        res.append(AFTER_NEXT_LINK);
    } else if k > 0 && count > 0 && k == count - 1 {
        res.append(LATER_PAGE_OPEN);
        res.append(link_to_page(name, k - 1, ext).as_str());
        res.append(AFTER_PREV_LINK);
        res.append(decimal_string(k + 1).as_str());
        res.append(LAST_PAGE_CLOSE);
    }
    res
}

/// The pages that a markdown file is rendered into. With a positive
/// `page_size` in the header, the body is cut into pages of that many lines
/// (the last page may be shorter), page `k > 0` going to the target with
/// `-k` before its extension; otherwise the whole body is one page at the
/// target, without navigation.
pub fn plan_pages(md_file: &MdFile, md_head: &MdHead) -> (res: Vec<PagePlan>)
    requires
        is_paged(*md_head) ==> last_index(md_file.target_file_name@, '.') >= 0,
    ensures
        res@.len() == page_count(*md_file, *md_head),
        forall|k: int| 0 <= k < res@.len() ==> #[trigger] res@[k]@ == page_plan(*md_file, *md_head, k as nat),
{
    let mut pages: Vec<PagePlan> = Vec::new();
    let size = match md_head.page_size {
        Some(size) if size > 0 => size,
        _ => {
            pages.push(PagePlan {
                target_file: md_file.target_file_name.clone(),
                markdown: md_file.md_str.clone(),
                pagination: String::new(),
            });
            return pages;
        },
    };
    let lines = split_on(md_file.md_str.as_str(), '\n');
    let n = lines.len();
    proof {
        lemma_split_nonempty(md_file.md_str@, '\n');
        assert(lines.deep_view().len() == lines@.len());
    }
    let count: usize = if n % size != 0 {
        assert(n / size < n) by (nonlinear_arith)
            requires
                size > 1,
                n > 0,
        ;
        n / size + 1
    } else {
        n / size
    };
    assert(count == ceil_div(n as nat, size as nat));

    let target = &md_file.target_file_name;
    let target_chars = chars_of(target.as_str());
    let dot = match last_index_of(&target_chars, '.') {
        Some(k) => k,
        None => return pages,
    };
    proof {
        lemma_last_index(target_chars@, '.');
    }
    assert(dot < target_chars.len());
    let stem_chars = chars_of(string_of_range(&target_chars, 0, dot).as_str());
    let ext = string_of_range(&target_chars, dot + 1, target_chars.len());
    let stem = string_of_range(&stem_chars, 0, stem_chars.len());
    assert(stem_chars@.subrange(0, stem_chars@.len() as int) == stem_chars@);
    let name = match last_index_of(&stem_chars, '/') {
        Some(k) => {
            proof {
                lemma_last_index(stem_chars@, '/');
            }
            assert(k < stem_chars.len());
            string_of_range(&stem_chars, k + 1, stem_chars.len())
        },
        None => string_of_range(&stem_chars, 0, stem_chars.len()),
    };
    let mut k: usize = 0;
    while k < count
        invariant
            count == page_count(*md_file, *md_head),
            is_paged(*md_head),
            size == md_head.page_size->0,
            n == lines@.len(),
            lines.deep_view() == body_lines(*md_file),
            k <= count,
            stem@ == before_last(md_file.target_file_name@, '.'),
            ext@ == after_last(md_file.target_file_name@, '.'),
            name@ == after_last(before_last(md_file.target_file_name@, '.'), '/'),
            pages@.len() == k,
            forall|j: int| 0 <= j < k ==> #[trigger] pages@[j]@ == page_plan(*md_file, *md_head, j as nat),
        decreases count - k,
    {
        proof {
            lemma_page_bounds(n as nat, size as nat, k as nat);
        }
        let start = k * size;
        let end = if n - start >= size { start + size } else { n };
        let markdown = join_lines(&lines, start, end);
        let target_file = if k == 0 {
            md_file.target_file_name.clone()
        } else {
            let mut t = stem.clone();
            t.append("-");
            t.append(decimal_string(k).as_str());
            t.append(".");
            t.append(ext.as_str());
            proof {
                reveal_strlit("-");
                reveal_strlit(".");
            }
            t
        };
        let nav = pagination(k, count, name.as_str(), ext.as_str());
        pages.push(PagePlan { target_file, markdown, pagination: nav });
        k = k + 1;
    }
    pages
}

} // verus!
