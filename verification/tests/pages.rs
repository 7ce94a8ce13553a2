use rsw::paginate::{pagination, plan_pages, PagePlan};
use rsw::parse::{MdFile, MdHead};

fn file(md: &str) -> MdFile {
    MdFile::new(
        "src/2017/p.md".to_string(),
        "build/2017/p.html".to_string(),
        "2017/p.html".to_string(),
        "2017_p".to_string(),
        "".to_string(),
        md.to_string(),
    )
}

fn head(page_size: Option<usize>) -> MdHead {
    MdHead {
        template: "post".to_string(),
        title: None,
        author: None,
        keywords: None,
        description: None,
        ctime: None,
        mtime: None,
        page_size,
        prev: None,
        next: None,
    }
}

fn targets(pages: &[PagePlan]) -> Vec<String> {
    pages.iter().map(|p| p.target_file.clone()).collect()
}

#[test]
fn three_pages_of_two_lines() {
    let pages = plan_pages(&file("1\n2\n3\n4\n5"), &head(Some(2)));
    assert_eq!(targets(&pages), vec!["build/2017/p.html", "build/2017/p-1.html", "build/2017/p-2.html"]);
    assert_eq!(pages[0].markdown, "1\n2\n");
    assert_eq!(pages[1].markdown, "3\n4\n");
    assert_eq!(pages[2].markdown, "5\n");
    assert_eq!(
        pages[0].pagination,
        "<ul><li>&nbsp;</li><li>第 1 页</li><li><a href=\"p-1.html\">下一页</a></li></ul>"
    );
    assert_eq!(
        pages[1].pagination,
        "<ul><li><a href=\"p.html\">上一页</a></li><li>第 2 页</li><li><a href=\"p-2.html\">下一页</a></li></ul>"
    );
    assert_eq!(
        pages[2].pagination,
        "<ul><li><a href=\"p-1.html\">上一页</a></li><li>第 3 页</li><li>&nbsp;</li></ul>"
    );
}

#[test]
fn pages_cover_the_body() {
    for (md, size) in [("a\nb\nc\nd", 2), ("a\nb\nc", 2), ("", 3), ("x\n", 1), ("1\n2\n3\n4\n5\n6\n7", 3)] {
        let pages = plan_pages(&file(md), &head(Some(size)));
        let joined: String = pages.iter().map(|p| p.markdown.as_str()).collect();
        assert_eq!(joined, format!("{}\n", md));
        let lines = md.split('\n').count();
        assert_eq!(pages.len(), (lines + size - 1) / size);
    }
}

#[test]
fn page_files_are_distinct() {
    let pages = plan_pages(&file(&"line\n".repeat(30)), &head(Some(1)));
    assert_eq!(pages.len(), 31);
    let mut names = targets(&pages);
    names.sort();
    names.dedup();
    assert_eq!(names.len(), 31);
    assert_eq!(pages[12].target_file, "build/2017/p-12.html");
}

#[test]
fn single_page_without_page_size() {
    for size in [None, Some(0)] {
        let pages = plan_pages(&file("a\nb"), &head(size));
        assert_eq!(pages.len(), 1);
        assert_eq!(pages[0].target_file, "build/2017/p.html");
        assert_eq!(pages[0].markdown, "a\nb");
        assert_eq!(pages[0].pagination, "");
    }
}

#[test]
fn one_paged_page_still_links_to_a_second() {
    let pages = plan_pages(&file("only"), &head(Some(10)));
    assert_eq!(pages.len(), 1);
    assert_eq!(pages[0].markdown, "only\n");
    assert_eq!(
        pages[0].pagination,
        "<ul><li>&nbsp;</li><li>第 1 页</li><li><a href=\"p-1.html\">下一页</a></li></ul>"
    );
}

#[test]
fn last_of_two_pages_links_back_to_page_zero_name() {
    assert_eq!(
        pagination(1, 2, "p", "html"),
        "<ul><li><a href=\"p-0.html\">上一页</a></li><li>第 2 页</li><li>&nbsp;</li></ul>"
    );
    assert_eq!(pagination(3, 2, "p", "html"), "");
}

fn hrefs(nav: &str) -> Vec<String> {
    nav.split("href=\"").skip(1).map(|s| s.split('"').next().unwrap().to_string()).collect()
}

fn file_name(path: &str) -> String {
    path.rsplit('/').next().unwrap().to_string()
}

#[test]
fn navigation_links_name_the_neighbouring_files() {
    let pages = plan_pages(&file("1\n2\n3\n4\n5\n6\n7"), &head(Some(2)));
    let count = pages.len();
    assert_eq!(count, 4);
    for k in 0..count {
        let links = hrefs(&pages[k].pagination);
        let mut expected = Vec::new();
        if k > 0 {
            expected.push(file_name(&pages[k - 1].target_file));
        }
        if k + 1 < count {
            expected.push(file_name(&pages[k + 1].target_file));
        }
        assert_eq!(links, expected);
    }
}
