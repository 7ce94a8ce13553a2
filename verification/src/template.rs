//! Rendering pages: which template a page uses, how a long page is split
//! into numbered pages with their navigation, and how the placeholders of a
//! template are filled.
use vstd::prelude::*;
use crate::parse::{MdHead, Page};
use crate::pattern::{Pattern, regex_compiles, regex_is_match, regex_replace_all};
use crate::site::Site;
use crate::text::{
    after_last, before_last, chars_of, ends_with, ends_with_spec, last_index, last_index_of,
    lemma_last_index, lemma_last_index_free_tail, lemma_replace_absent, lemma_replace_split, no_match_before,
    replace_spec, replace_str, string_of_range,
};

verus! {

// ----------------------------------------------------------------------
// Constants
// ----------------------------------------------------------------------

/// What a placeholder's pattern holds before the name: `{{` and blanks.
pub const PLACEHOLDER_OPEN: &'static str = r"\{\{\s*";

/// What a placeholder's pattern holds after the name: blanks and `}}`.
pub const PLACEHOLDER_CLOSE: &'static str = r"\s*\}\}";

/// The title shown when there is no previous page.
pub const NO_PREV_TITLE: &'static str = "暂无上一页";

/// The title shown when there is no next page.
pub const NO_NEXT_TITLE: &'static str = "暂无下一页";

/// The link of a missing previous or next page.
pub const NO_PAGE_URL: &'static str = "javascript:void(0)";

/// The class of a navigation link that leads somewhere.
pub const SHOW_CLASS: &'static str = "show";

/// The class of a navigation link that leads nowhere.
pub const HIDE_CLASS: &'static str = "hide";

/// Navigation of the first page, up to its page number.
pub const FIRST_PAGE_OPEN: &'static str = "<ul><li>&nbsp;</li><li>第 ";

/// Navigation of a later page, up to the link to the previous page.
pub const LATER_PAGE_OPEN: &'static str = "<ul><li><a href=\"";

/// Between the link to the previous page and the page number.
pub const AFTER_PREV_LINK: &'static str = "\">上一页</a></li><li>第 ";

/// Between the page number and the link to the next page.
pub const BEFORE_NEXT_LINK: &'static str = " 页</li><li><a href=\"";

/// After the link to the next page.
pub const AFTER_NEXT_LINK: &'static str = "\">下一页</a></li></ul>";

/// After the page number of the last page.
pub const LAST_PAGE_CLOSE: &'static str = " 页</li><li>&nbsp;</li></ul>";

/// Opens the menu list.
pub const MENU_OPEN: &'static str = "<ul>";

/// Closes the menu list.
pub const MENU_CLOSE: &'static str = "</ul>";

/// Opens a menu entry, up to its link.
pub const MENU_ITEM_OPEN: &'static str = "<li><a href=\"";

/// Between a menu entry's link and its title.
pub const MENU_ITEM_MIDDLE: &'static str = "\">";

/// Closes a menu entry.
pub const MENU_ITEM_CLOSE: &'static str = "</a></li>";

/// A table as the markdown renderer writes it.
pub const TABLE_OPEN: &'static str = "<table>";

/// The end of a table.
pub const TABLE_CLOSE: &'static str = "</table>";

/// A table inside its scrolling wrapper.
pub const WRAPPED_TABLE_OPEN: &'static str = "<div class=\"table-wrap\"><table>";

/// The end of a table and of its wrapper.
pub const WRAPPED_TABLE_CLOSE: &'static str = "</table></div>";

// ----------------------------------------------------------------------
// Template files
// ----------------------------------------------------------------------

/// The file name of a template under the public directory: the last part of
/// its name gets the prefix `__`.
pub open spec fn template_file_name(template: Seq<char>) -> Seq<char> {
    if last_index(template, '/') < 0 {
        "__"@ + template
    } else {
        before_last(template, '/') + "/__"@ + after_last(template, '/')
    }
}

/// The path of a template file.
pub open spec fn template_path_spec(public: Seq<char>, template: Seq<char>) -> Seq<char> {
    public + seq!['/'] + template_file_name(template) + ".html"@
}

/// Where the template named `template` lies under the directory `public`.
pub fn template_path(public: &str, template: &str) -> (res: String)
    ensures
        res@ == template_path_spec(public@, template@),
{
    let chars = chars_of(template);
    let mut file_name = String::new();
    match last_index_of(&chars, '/') {
        None => {
            file_name.append("__");
            file_name.append(template);
        },
        Some(k) => {
            proof {
                lemma_last_index(chars@, '/');
            }
            assert(k < chars.len());
            let dir = string_of_range(&chars, 0, k);
            let name = string_of_range(&chars, k + 1, chars.len());
            file_name.append(dir.as_str());
            file_name.append("/__");
            file_name.append(name.as_str());
        },
    }
    let mut res = String::from_str(public);
    res.append("/");
    res.append(file_name.as_str());
    res.append(".html");
    proof {
        reveal_strlit("/");
    }
    res
}

// ----------------------------------------------------------------------
// Placeholders
// ----------------------------------------------------------------------

/// The pattern of the placeholder `{{ name }}`.
pub open spec fn placeholder_source(name: Seq<char>) -> Seq<char> {
    PLACEHOLDER_OPEN@ + name + PLACEHOLDER_CLOSE@
}

/// The text with the placeholder `name` filled with `value`; `None` when the
/// text is already `None` or the placeholder's pattern does not compile.
pub open spec fn fill_spec(text: Option<Seq<char>>, name: Seq<char>, value: Seq<char>) -> Option<Seq<char>> {
    match text {
        Some(t) => if regex_compiles(placeholder_source(name)) {
            Some(regex_replace_all(placeholder_source(name), t, value))
        } else {
            None
        },
        None => None,
    }
}

/// An optional string as a sequence of characters.
pub open spec fn opt_view(s: Option<String>) -> Option<Seq<char>> {
    match s {
        Some(s) => Some(s@),
        None => None,
    }
}

/// An optional header value, empty when absent.
pub open spec fn text_or_empty(value: Option<String>) -> Seq<char> {
    match value {
        Some(s) => s@,
        None => ""@,
    }
}

/// The URL of a page whose URL names a markdown file: `.md` becomes `.html`.
pub open spec fn md_to_html_ext_spec(url: Seq<char>) -> Seq<char> {
    url.take(url.len() - 3) + ".html"@
}

/// The link to another page: a link to a markdown file leads to its page.
pub open spec fn link_url(url: Seq<char>) -> Seq<char> {
    if ends_with_spec(url, ".md"@) {
        md_to_html_ext_spec(url)
    } else {
        url
    }
}

/// The title of a neighbouring page, or `missing` when there is none.
pub open spec fn page_title(page: Option<Page>, missing: Seq<char>) -> Seq<char> {
    match page {
        Some(p) => p.title@,
        None => missing,
    }
}

/// The link to a neighbouring page.
pub open spec fn page_url(page: Option<Page>) -> Seq<char> {
    match page {
        Some(p) => link_url(p.url@),
        None => NO_PAGE_URL@,
    }
}

/// The class of the link to a neighbouring page.
pub open spec fn page_class(page: Option<Page>) -> Seq<char> {
    match page {
        Some(_) => SHOW_CLASS@,
        None => HIDE_CLASS@,
    }
}

/// The `i`-th field of a menu entry, empty when missing.
pub open spec fn menu_field(item: Seq<Seq<char>>, i: int) -> Seq<char> {
    if 0 <= i < item.len() {
        item[i]
    } else {
        Seq::<char>::empty()
    }
}

/// A menu entry as a list item: the link is the entry's second field and
/// the text its first.
pub open spec fn menu_item_html(item: Seq<Seq<char>>) -> Seq<char> {
    MENU_ITEM_OPEN@ + menu_field(item, 1) + MENU_ITEM_MIDDLE@ + menu_field(item, 0) + MENU_ITEM_CLOSE@
}

/// The list items of the menu entries, in order.
pub open spec fn menu_items_html(items: Seq<Seq<Seq<char>>>) -> Seq<char>
    decreases items.len(),
{
    if items.len() == 0 {
        Seq::<char>::empty()
    } else {
        menu_items_html(items.drop_last()) + menu_item_html(items.last())
    }
}

/// The menu as an HTML list.
pub open spec fn menu_html_spec(items: Seq<Seq<Seq<char>>>) -> Seq<char> {
    MENU_OPEN@ + menu_items_html(items) + MENU_CLOSE@
}

/// The placeholders that `render_template` fills, in order (`menu` only
/// when the site has a menu).
pub open spec fn placeholder_names() -> Seq<Seq<char>> {
    seq![
        "site_name"@, "site_url"@, "url"@, "author"@, "title"@, "keywords"@, "description"@,
        "ctime"@, "mtime"@, "page_id"@, "content"@, "prev_title"@, "prev_url"@,
        "prev_class_name"@, "next_title"@, "next_url"@, "next_class_name"@, "menu"@,
        "pagination"@,
    ]
}

/// No placeholder pattern matches the template, and each compiles.
pub open spec fn free_of_placeholders(template: Seq<char>) -> bool {
    forall|i: int|
        0 <= i < placeholder_names().len() ==> {
            &&& regex_compiles(placeholder_source(#[trigger] placeholder_names()[i]))
            &&& !regex_is_match(placeholder_source(placeholder_names()[i]), template)
        }
}

/// The template with every placeholder filled.
pub open spec fn render_template_spec(
    site: Site,
    menu: Option<Seq<Seq<Seq<char>>>>,
    template: Seq<char>,
    head: MdHead,
    html: Seq<char>,
    page_id: Seq<char>,
    pagination: Seq<char>,
    url: Seq<char>,
) -> Option<Seq<char>> {
    let t = fill_spec(Some(template), "site_name"@, site.site_name@);
    let t = fill_spec(t, "site_url"@, site.site_url@);
    let t = fill_spec(t, "url"@, url);
    let t = fill_spec(t, "author"@, text_or_empty(head.author));
    let t = fill_spec(t, "title"@, text_or_empty(head.title));
    let t = fill_spec(t, "keywords"@, text_or_empty(head.keywords));
    let t = fill_spec(t, "description"@, text_or_empty(head.description));
    let t = fill_spec(t, "ctime"@, text_or_empty(head.ctime));
    let t = fill_spec(t, "mtime"@, text_or_empty(head.mtime));
    let t = fill_spec(t, "page_id"@, page_id);
    let t = fill_spec(t, "content"@, html);
    let t = fill_spec(t, "prev_title"@, page_title(head.prev, NO_PREV_TITLE@));
    let t = fill_spec(t, "prev_url"@, page_url(head.prev));
    let t = fill_spec(t, "prev_class_name"@, page_class(head.prev));
    let t = fill_spec(t, "next_title"@, page_title(head.next, NO_NEXT_TITLE@));
    let t = fill_spec(t, "next_url"@, page_url(head.next));
    let t = fill_spec(t, "next_class_name"@, page_class(head.next));
    let t = match menu {
        Some(items) => fill_spec(t, "menu"@, menu_html_spec(items)),
        None => t,
    };
    fill_spec(t, "pagination"@, pagination)
}

// ----------------------------------------------------------------------
// Laws of rendering
// ----------------------------------------------------------------------

/// One fill of the regex engine: the placeholder `{{ name }}` of `text`
/// replaced by `value` (`None` when the pattern does not compile or an
/// earlier fill failed).
pub open spec fn replace_placeholder(text: Option<Seq<char>>, name: Seq<char>, value: Seq<char>) -> Option<Seq<char>> {
    let source = PLACEHOLDER_OPEN@ + name + PLACEHOLDER_CLOSE@;
    match text {
        Some(t) => if regex_compiles(source) {
            Some(regex_replace_all(source, t, value))
        } else {
            None
        },
        None => None,
    }
}

/// An optional header value, empty when absent.
pub open spec fn header_value(value: Option<String>) -> Seq<char> {
    match value {
        Some(s) => s@,
        None => ""@,
    }
}

/// The link to a neighbouring page with URL `url`: a trailing `.md`
/// becomes `.html`.
pub open spec fn neighbour_link(url: Seq<char>) -> Seq<char> {
    if url.len() >= 3 && url.skip(url.len() - 3) == ".md"@ {
        url.take(url.len() - 3) + ".html"@
    } else {
        url
    }
}

/// Law: `render_template` fills each placeholder with its own value, in
/// this order: `site_name` with the site's name, `site_url` with its URL,
/// `url` with the page's URL, each header placeholder (`author`, `title`,
/// `keywords`, `description`, `ctime`, `mtime`) with the header field of the
/// same name (empty when absent), `page_id`, `content` with the HTML,
/// `prev_*` and `next_*` from the neighbouring pages (title, link with
/// `.md` made `.html`, class `show`; or the placeholder title, a void link
/// and class `hide`), `menu` with the menu list when the site has a menu,
/// and `pagination` with the navigation.
pub proof fn lemma_render_template_fills(
    site: Site,
    menu: Option<Seq<Seq<Seq<char>>>>,
    template: Seq<char>,
    head: MdHead,
    html: Seq<char>,
    page_id: Seq<char>,
    pagination: Seq<char>,
    url: Seq<char>,
)
    ensures
        render_template_spec(site, menu, template, head, html, page_id, pagination, url) == ({
            let t = replace_placeholder(Some(template), "site_name"@, site.site_name@);
            let t = replace_placeholder(t, "site_url"@, site.site_url@);
            let t = replace_placeholder(t, "url"@, url);
            let t = replace_placeholder(t, "author"@, header_value(head.author));
            let t = replace_placeholder(t, "title"@, header_value(head.title));
            let t = replace_placeholder(t, "keywords"@, header_value(head.keywords));
            let t = replace_placeholder(t, "description"@, header_value(head.description));
            let t = replace_placeholder(t, "ctime"@, header_value(head.ctime));
            let t = replace_placeholder(t, "mtime"@, header_value(head.mtime));
            let t = replace_placeholder(t, "page_id"@, page_id);
            let t = replace_placeholder(t, "content"@, html);
            let t = match head.prev {
                Some(p) => {
                    let t = replace_placeholder(t, "prev_title"@, p.title@);
                    let t = replace_placeholder(t, "prev_url"@, neighbour_link(p.url@));
                    replace_placeholder(t, "prev_class_name"@, "show"@)
                },
                None => {
                    let t = replace_placeholder(t, "prev_title"@, "暂无上一页"@);
                    let t = replace_placeholder(t, "prev_url"@, "javascript:void(0)"@);
                    replace_placeholder(t, "prev_class_name"@, "hide"@)
                },
            };
            let t = match head.next {
                Some(p) => {
                    let t = replace_placeholder(t, "next_title"@, p.title@);
                    let t = replace_placeholder(t, "next_url"@, neighbour_link(p.url@));
                    replace_placeholder(t, "next_class_name"@, "show"@)
                },
                None => {
                    let t = replace_placeholder(t, "next_title"@, "暂无下一页"@);
                    let t = replace_placeholder(t, "next_url"@, "javascript:void(0)"@);
                    replace_placeholder(t, "next_class_name"@, "hide"@)
                },
            };
            let t = match menu {
                Some(items) => replace_placeholder(t, "menu"@, menu_html_spec(items)),
                None => t,
            };
            replace_placeholder(t, "pagination"@, pagination)
        }),
{
    reveal_strlit(".md");
    reveal_strlit(".html");
}

/// Law: the menu without entries is an empty list, and adding an entry
/// adds its list item (linking the entry's second field, with its first
/// field as text, each empty when missing) just before the closing tag.
pub proof fn lemma_menu_entries(items: Seq<Seq<Seq<char>>>, e: Seq<Seq<char>>)
    ensures
        menu_html_spec(Seq::<Seq<Seq<char>>>::empty()) == MENU_OPEN@ + MENU_CLOSE@,
        menu_html_spec(items.push(e)) == menu_html_spec(items).take(
            menu_html_spec(items).len() - MENU_CLOSE@.len(),
        ) + MENU_ITEM_OPEN@ + (if e.len() > 1 { e[1] } else { Seq::<char>::empty() })
            + MENU_ITEM_MIDDLE@ + (if e.len() > 0 { e[0] } else { Seq::<char>::empty() })
            + MENU_ITEM_CLOSE@ + MENU_CLOSE@,
{
    assert(MENU_OPEN@ + Seq::<char>::empty() + MENU_CLOSE@ =~= MENU_OPEN@ + MENU_CLOSE@);
    assert(items.push(e).drop_last() == items);
    let m = menu_html_spec(items);
    let x = menu_items_html(items);
    assert(m.take(m.len() - MENU_CLOSE@.len()) =~= MENU_OPEN@ + x);
    assert(menu_html_spec(items.push(e)) =~= MENU_OPEN@ + x + (MENU_ITEM_OPEN@ + menu_field(e, 1)
        + MENU_ITEM_MIDDLE@ + menu_field(e, 0) + MENU_ITEM_CLOSE@) + MENU_CLOSE@);
}

/// Law: a template name without `/` is looked up as `public/__name.html`;
/// one with directories `dir/name` (`name` holding no `/`) as
/// `public/dir/__name.html`.
pub proof fn lemma_template_path(public: Seq<char>, dir: Seq<char>, name: Seq<char>)
    requires
        forall|i: int| 0 <= i < name.len() ==> name[i] != '/',
    ensures
        template_path_spec(public, name) == public + seq!['/'] + "__"@ + name + ".html"@,
        template_path_spec(public, dir + seq!['/'] + name)
            == public + seq!['/'] + dir + "/__"@ + name + ".html"@,
{
    lemma_last_index(name, '/');
    let t = dir + seq!['/'] + name;
    lemma_last_index_free_tail(dir + seq!['/'], name, '/');
    assert(t =~= (dir + seq!['/']) + name);
    assert(last_index(dir + seq!['/'], '/') == dir.len());
    assert(before_last(t, '/') =~= dir);
    assert(after_last(t, '/') =~= name);
}

/// Law: a link to a markdown file `p.md` leads to `p.html`.
pub proof fn lemma_md_to_html_ext(p: Seq<char>)
    ensures
        ends_with_spec(p + ".md"@, ".md"@),
        md_to_html_ext_spec(p + ".md"@) == p + ".html"@,
        link_url(p + ".md"@) == p + ".html"@,
{
    reveal_strlit(".md");
    assert((p + ".md"@).skip(p.len() as int) =~= ".md"@);
    assert((p + ".md"@).take(p.len() as int) =~= p);
}

/// Law: wrapping the tables of `a`, a table opening, then `b` wraps each
/// part, when no table opening starts inside `a`: every table of the page
/// gets its wrapper, one after the other.
pub proof fn lemma_wrap_every_table(a: Seq<char>, b: Seq<char>)
    requires
        no_match_before(a + TABLE_OPEN@ + b, a.len() as int, TABLE_OPEN@),
    ensures
        replace_spec(a + TABLE_OPEN@ + b, TABLE_OPEN@, WRAPPED_TABLE_OPEN@)
            == replace_spec(a, TABLE_OPEN@, WRAPPED_TABLE_OPEN@) + WRAPPED_TABLE_OPEN@
                + replace_spec(b, TABLE_OPEN@, WRAPPED_TABLE_OPEN@),
{
    reveal_strlit("<table>");
    lemma_replace_split(a, b, TABLE_OPEN@, WRAPPED_TABLE_OPEN@);
}

/// Law: a page without tables is written unchanged, and a page without a
/// table opening only gets its table closings wrapped.
pub proof fn lemma_wrap_tables_plain(content: Seq<char>)
    ensures
        no_match_before(content, content.len() as int, TABLE_OPEN@)
            ==> wrap_tables_spec(content) == replace_spec(content, TABLE_CLOSE@, WRAPPED_TABLE_CLOSE@),
        no_match_before(content, content.len() as int, TABLE_OPEN@)
            && no_match_before(content, content.len() as int, TABLE_CLOSE@)
            ==> wrap_tables_spec(content) == content,
{
    reveal_strlit("<table>");
    reveal_strlit("</table>");
    if no_match_before(content, content.len() as int, TABLE_OPEN@) {
        lemma_replace_absent(content, TABLE_OPEN@, WRAPPED_TABLE_OPEN@);
        if no_match_before(content, content.len() as int, TABLE_CLOSE@) {
            lemma_replace_absent(content, TABLE_CLOSE@, WRAPPED_TABLE_CLOSE@);
        }
    }
}

/// `text` with the placeholder `{{ name }}` filled with `value`.
fn fill(text: String, name: &str, value: &str) -> (res: Option<String>)
    ensures
        opt_view(res) == fill_spec(Some(text@), name@, value@),
        !regex_is_match(placeholder_source(name@), text@) ==> (res matches Some(r) ==> r@ == text@),
{
    let mut source = String::from_str(PLACEHOLDER_OPEN);
    source.append(name);
    source.append(PLACEHOLDER_CLOSE);
    match Pattern::new(source.as_str()) {
        Some(p) => Some(p.replace_all(text.as_str(), value)),
        None => None,
    }
}

/// A header value, or the empty string when it is absent.
fn value_or_empty(value: &Option<String>) -> (res: &str)
    ensures
        res@ == text_or_empty(*value),
{
    match value {
        Some(s) => s.as_str(),
        None => "",
    }
}

/// The URL of a markdown file's page: the `.md` suffix made `.html`.
pub fn md_to_html_ext(url: &str) -> (res: String)
    requires
        ends_with_spec(url@, ".md"@),
    ensures
        res@ == md_to_html_ext_spec(url@),
{
    proof {
        reveal_strlit(".md");
    }
    let chars = chars_of(url);
    let mut res = string_of_range(&chars, 0, chars.len() - 3);
    res.append(".html");
    res
}

/// The link to another page (`.md` links made `.html`).
fn link_to(url: &String) -> (res: String)
    ensures
        res@ == link_url(url@),
{
    if ends_with(url.as_str(), ".md") {
        md_to_html_ext(url.as_str())
    } else {
        url.clone()
    }
}

/// The menu as an HTML list: one item per entry, linking the entry's second
/// field with the entry's first field as text.
pub fn menu_html(items: &Vec<Vec<String>>) -> (res: String)
    ensures
        res@ == menu_html_spec(items.deep_view()),
{
    let mut res = String::from_str(MENU_OPEN);
    let mut i: usize = 0;
    while i < items.len()
        invariant
            i <= items@.len(),
            res@ == MENU_OPEN@ + menu_items_html(items.deep_view().take(i as int)),
        decreases items@.len() - i,
    {
        let item = &items[i];
        let ghost item_view = items.deep_view()[i as int];
        assert(item_view == item.deep_view());
        res.append(MENU_ITEM_OPEN);
        if item.len() > 1 {
            res.append(item[1].as_str());
        }
        res.append(MENU_ITEM_MIDDLE);
        if item.len() > 0 {
            res.append(item[0].as_str());
        }
        res.append(MENU_ITEM_CLOSE);
        assert(items.deep_view().take(i + 1).drop_last() == items.deep_view().take(i as int));
        assert(res@ == MENU_OPEN@ + menu_items_html(items.deep_view().take(i as int)) + menu_item_html(item_view));
        i = i + 1;
    }
    assert(items.deep_view().take(items@.len() as int) == items.deep_view());
    res.append(MENU_CLOSE);
    res
}

/// Fills the placeholders of a template for one page: the site's name and
/// URL, the page's URL, header fields (empty when absent), page identifier,
/// HTML content, the links to the previous and next pages, the menu (when
/// the site has one) and the page navigation. `None` when a placeholder's
/// pattern does not compile.
pub fn render_template(
    site: &Site,
    menu: &Option<Vec<Vec<String>>>,
    template: &str,
    md_head: &MdHead,
    html_str: &str,
    page_id: &str,
    pagination: &str,
    url: &str,
) -> (res: Option<String>)
    ensures
        opt_view(res) == render_template_spec(
            *site,
            menu.deep_view(),
            template@,
            *md_head,
            html_str@,
            page_id@,
            pagination@,
            url@,
        ),
        free_of_placeholders(template@) ==> opt_view(res) == Some(template@),
{
    proof {
        if free_of_placeholders(template@) {
            let names = placeholder_names();
            assert(names[0] == "site_name"@);
            assert(names[1] == "site_url"@);
            assert(names[2] == "url"@);
            assert(names[3] == "author"@);
            assert(names[4] == "title"@);
            assert(names[5] == "keywords"@);
            assert(names[6] == "description"@);
            assert(names[7] == "ctime"@);
            assert(names[8] == "mtime"@);
            assert(names[9] == "page_id"@);
            assert(names[10] == "content"@);
            assert(names[11] == "prev_title"@);
            assert(names[12] == "prev_url"@);
            assert(names[13] == "prev_class_name"@);
            assert(names[14] == "next_title"@);
            assert(names[15] == "next_url"@);
            assert(names[16] == "next_class_name"@);
            assert(names[17] == "menu"@);
            assert(names[18] == "pagination"@);
        }
    }
    let t = fill(String::from_str(template), "site_name", site.site_name.as_str());
    let t = match t { Some(t) => fill(t, "site_url", site.site_url.as_str()), None => None };
    let t = match t { Some(t) => fill(t, "url", url), None => None };
    let t = match t { Some(t) => fill(t, "author", value_or_empty(&md_head.author)), None => None };
    let t = match t { Some(t) => fill(t, "title", value_or_empty(&md_head.title)), None => None };
    let t = match t { Some(t) => fill(t, "keywords", value_or_empty(&md_head.keywords)), None => None };
    let t = match t {
        Some(t) => fill(t, "description", value_or_empty(&md_head.description)),
        None => None,
    };
    let t = match t { Some(t) => fill(t, "ctime", value_or_empty(&md_head.ctime)), None => None };
    let t = match t { Some(t) => fill(t, "mtime", value_or_empty(&md_head.mtime)), None => None };
    let t = match t { Some(t) => fill(t, "page_id", page_id), None => None };
    let t = match t { Some(t) => fill(t, "content", html_str), None => None };
    let t = match &md_head.prev {
        Some(prev) => {
            let t = match t { Some(t) => fill(t, "prev_title", prev.title.as_str()), None => None };
            let link = link_to(&prev.url);
            let t = match t { Some(t) => fill(t, "prev_url", link.as_str()), None => None };
            match t { Some(t) => fill(t, "prev_class_name", SHOW_CLASS), None => None }
        },
        None => {
            let t = match t { Some(t) => fill(t, "prev_title", NO_PREV_TITLE), None => None };
            let t = match t { Some(t) => fill(t, "prev_url", NO_PAGE_URL), None => None };
            match t { Some(t) => fill(t, "prev_class_name", HIDE_CLASS), None => None }
        },
    };
    let t = match &md_head.next {
        Some(next) => {
            let t = match t { Some(t) => fill(t, "next_title", next.title.as_str()), None => None };
            let link = link_to(&next.url);
            let t = match t { Some(t) => fill(t, "next_url", link.as_str()), None => None };
            match t { Some(t) => fill(t, "next_class_name", SHOW_CLASS), None => None }
        },
        None => {
            let t = match t { Some(t) => fill(t, "next_title", NO_NEXT_TITLE), None => None };
            let t = match t { Some(t) => fill(t, "next_url", NO_PAGE_URL), None => None };
            match t { Some(t) => fill(t, "next_class_name", HIDE_CLASS), None => None }
        },
    };
    let t = match menu {
        Some(items) => {
            let list = menu_html(items);
            match t { Some(t) => fill(t, "menu", list.as_str()), None => None }
        },
        None => t,
    };
    match t { Some(t) => fill(t, "pagination", pagination), None => None }
}

// ----------------------------------------------------------------------
// Output files
// ----------------------------------------------------------------------

/// The page content with each table inside a scrolling wrapper.
pub open spec fn wrap_tables_spec(content: Seq<char>) -> Seq<char> {
    replace_spec(
        replace_spec(content, TABLE_OPEN@, WRAPPED_TABLE_OPEN@),
        TABLE_CLOSE@,
        WRAPPED_TABLE_CLOSE@,
    )
}

/// Puts each `<table>` of the rendered page inside
/// `<div class="table-wrap">`.
pub fn wrap_tables(content: &str) -> (res: String)
    ensures
        res@ == wrap_tables_spec(content@),
{
    proof {
        reveal_strlit("<table>");
        reveal_strlit("</table>");
    }
    let opened = replace_str(content, TABLE_OPEN, WRAPPED_TABLE_OPEN);
    replace_str(opened.as_str(), TABLE_CLOSE, WRAPPED_TABLE_CLOSE)
}

} // verus!
