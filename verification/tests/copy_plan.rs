use rsw::builder::{copy_destination, parent_dir, MARKDOWN_FILE_PATTERN, TEMPLATE_FILE_PATTERN};
use rsw::pattern::Pattern;

#[test]
fn markdown_sources_are_ignored() {
    let md = Pattern::new(MARKDOWN_FILE_PATTERN).unwrap();
    assert!(md.is_match("src/2017/a.md"));
    assert!(!md.is_match("src/img/a.png"));
    assert!(!md.is_match("src/a.md.bak"));
    assert!(md.is_match("noslash.md"));
}

#[test]
fn templates_are_ignored() {
    let tpl = Pattern::new(TEMPLATE_FILE_PATTERN).unwrap();
    assert!(tpl.is_match("public/__post.html"));
    assert!(tpl.is_match("public/blog/__list.html"));
    assert!(!tpl.is_match("public/css/site.css"));
    assert!(!tpl.is_match("public/index.html"));
}

#[test]
fn destinations() {
    assert_eq!(copy_destination("build", "src/img/a.png"), "build/img/a.png");
    assert_eq!(copy_destination("build", "public/css/site.css"), "build/css/site.css");
    assert_eq!(copy_destination("out", "src/a.md.bak"), "out/a.md.bak");
}

#[test]
fn parent_directory() {
    assert_eq!(parent_dir("build/2017/01/01/happy.html"), "build/2017/01/01");
    assert_eq!(parent_dir("/x"), "");
}
