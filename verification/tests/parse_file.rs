use rsw::parse::{parse_md_file, MdFile};

const POST: &str = "---\ntemplate: post\ntitle: Hello\n---\n# Hi\nSee [next](2017/next.md?x=1) and [img](a.png).\n";

#[test]
fn parse_post() {
    let f = parse_md_file("build", "src/2017/01/hello.md", POST).unwrap();
    assert_eq!(f.file_name, "src/2017/01/hello.md");
    assert_eq!(f.target_file_name, "build/2017/01/hello.html");
    assert_eq!(f.url, "2017/01/hello.html");
    assert_eq!(f.page_id, "2017_01_hello");
    assert_eq!(f.yaml_str, "\ntemplate: post\ntitle: Hello\n");
    assert_eq!(f.md_str, "\n# Hi\nSee [next](2017/next.html?x=1) and [img](a.png).\n");
}

#[test]
fn parse_top_level_file() {
    let f = parse_md_file("build", "src/index.md", "---\ntemplate: index\n---\nbody").unwrap();
    assert_eq!(f.target_file_name, "build/index.html");
    assert_eq!(f.url, "index.html");
    assert_eq!(f.page_id, "index");
    assert_eq!(f.md_str, "\nbody");
}

#[test]
fn front_matter_ends_at_the_first_closing_dashes() {
    let f = parse_md_file("out", "src/a.md", "---a: 1---b---c").unwrap();
    assert_eq!(f.yaml_str, "a: 1");
    assert_eq!(f.md_str, "b---c");
    assert_eq!(f.target_file_name, "out/a.html");
}

#[test]
fn no_front_matter_gives_none() {
    assert!(parse_md_file("build", "src/a.md", "# no header\n").is_none());
    assert!(parse_md_file("build", "src/a.md", "x---\n---\n").is_none());
}

#[test]
fn target_is_build_dir_joined_with_url() {
    for name in ["src/a.md", "src/x/y/z.md", "src/v1.2/page.md", "docs/a.b.md"] {
        let f = parse_md_file("public_html", name, "------").unwrap();
        assert_eq!(f.target_file_name, format!("public_html/{}", f.url));
        assert!(!f.page_id.contains('/'));
    }
}

#[test]
fn new_keeps_its_parts() {
    let f = MdFile::new(
        "a".to_string(),
        "b".to_string(),
        "c".to_string(),
        "d".to_string(),
        "e".to_string(),
        "f".to_string(),
    );
    assert_eq!(f.file_name, "a");
    assert_eq!(f.target_file_name, "b");
    assert_eq!(f.url, "c");
    assert_eq!(f.page_id, "d");
    assert_eq!(f.yaml_str, "e");
    assert_eq!(f.md_str, "f");
}
