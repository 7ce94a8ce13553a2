use rsw::parse::{MdHead, Page};
use rsw::site::Site;
use rsw::template::{md_to_html_ext, menu_html, render_template, template_path, wrap_tables};

fn head() -> MdHead {
    MdHead {
        template: "post".to_string(),
        title: Some("Hello".to_string()),
        author: None,
        keywords: Some("k1,k2".to_string()),
        description: None,
        ctime: Some("2017-01-01".to_string()),
        mtime: None,
        page_size: None,
        prev: Some(Page { title: "Before".to_string(), url: "2016/before.md".to_string() }),
        next: None,
    }
}

#[test]
fn site_new_keeps_fields() {
    let s = Site::new("Blog".to_string(), "http://b".to_string(), None);
    assert_eq!(s.site_name, "Blog");
    assert_eq!(s.site_url, "http://b");
    assert!(s.menu.is_none());
}

#[test]
fn template_paths() {
    assert_eq!(template_path("public", "post"), "public/__post.html");
    assert_eq!(template_path("public", "blog/post"), "public/blog/__post.html");
    assert_eq!(template_path("public", "a/b/c"), "public/a/b/__c.html");
}

#[test]
fn markdown_links_become_html() {
    assert_eq!(md_to_html_ext("2016/before.md"), "2016/before.html");
    assert_eq!(md_to_html_ext(".md"), ".html");
}

#[test]
fn menu_as_list() {
    let items = vec![
        vec!["Home".to_string(), "/".to_string()],
        vec!["About".to_string()],
        vec![],
    ];
    assert_eq!(
        menu_html(&items),
        "<ul><li><a href=\"/\">Home</a></li><li><a href=\"\">About</a></li><li><a href=\"\"></a></li></ul>"
    );
    assert_eq!(menu_html(&vec![]), "<ul></ul>");
}

#[test]
fn fill_every_placeholder() {
    let menu = Some(vec![vec!["Home".to_string(), "/".to_string()]]);
    let site = Site::new("Blog".to_string(), "http://b".to_string(), menu.clone());
    let template = "{{site_name}}|{{ site_url }}|{{url}}|{{author}}|{{title}}|{{keywords}}|{{description}}|{{ctime}}|{{mtime}}|{{page_id}}|{{content}}|{{prev_title}}|{{prev_url}}|{{prev_class_name}}|{{next_title}}|{{next_url}}|{{next_class_name}}|{{menu}}|{{pagination}}";
    let out = render_template(&site, &menu, template, &head(), "<p>x</p>", "2017_hello", "NAV", "2017/hello.html").unwrap();
    assert_eq!(
        out,
        "Blog|http://b|2017/hello.html||Hello|k1,k2||2017-01-01||2017_hello|<p>x</p>|Before|2016/before.html|show|暂无下一页|javascript:void(0)|hide|<ul><li><a href=\"/\">Home</a></li></ul>|NAV"
    );
}

#[test]
fn menu_placeholder_stays_without_menu() {
    let site = Site::new("Blog".to_string(), "u".to_string(), None);
    let out = render_template(&site, &None, "{{ menu }}{{title}}", &head(), "", "", "", "").unwrap();
    assert_eq!(out, "{{ menu }}Hello");
}

#[test]
fn prev_link_kept_when_not_markdown() {
    let mut h = head();
    h.prev = None;
    h.next = Some(Page { title: "After".to_string(), url: "http://x/after".to_string() });
    let site = Site::new("S".to_string(), "u".to_string(), None);
    let out = render_template(&site, &None, "{{prev_title}} {{prev_url}} {{prev_class_name}} {{next_title}} {{next_url}} {{next_class_name}}", &h, "", "", "", "").unwrap();
    assert_eq!(out, "暂无上一页 javascript:void(0) hide After http://x/after show");
}

#[test]
fn template_without_placeholders_is_unchanged() {
    let site = Site::new("S".to_string(), "u".to_string(), None);
    let t = "<html><body>{ title } {{ unknown }}</body></html>";
    assert_eq!(render_template(&site, &None, t, &head(), "c", "p", "n", "u").unwrap(), t);
}

#[test]
fn values_with_dollar_are_expanded_by_the_regex_engine() {
    let site = Site::new("a${0}b".to_string(), "u".to_string(), None);
    let out = render_template(&site, &None, "[{{site_name}}]", &head(), "", "", "", "").unwrap();
    assert_eq!(out, "[a{{site_name}}b]");
}

#[test]
fn tables_are_wrapped() {
    assert_eq!(
        wrap_tables("<p>x</p><table><tr></tr></table>"),
        "<p>x</p><div class=\"table-wrap\"><table><tr></tr></table></div>"
    );
    assert_eq!(wrap_tables("no tables"), "no tables");
}
