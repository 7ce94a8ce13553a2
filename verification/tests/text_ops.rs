use rsw::text::{
    chars_of, decimal_string, ends_with, first_index_of, last_index_of, replace_char, replace_str,
    split_on, string_of_range,
};

#[test]
fn decimal_of_small_and_large_numbers() {
    assert_eq!(decimal_string(0), "0");
    assert_eq!(decimal_string(7), "7");
    assert_eq!(decimal_string(10), "10");
    assert_eq!(decimal_string(1234), "1234");
    assert_eq!(decimal_string(usize::MAX), usize::MAX.to_string());
}

#[test]
fn chars_and_ranges() {
    let v = chars_of("héllo");
    assert_eq!(v, vec!['h', 'é', 'l', 'l', 'o']);
    assert_eq!(string_of_range(&v, 1, 4), "éll");
    assert_eq!(string_of_range(&v, 2, 2), "");
}

#[test]
fn first_and_last_index() {
    let v = chars_of("src/a/b.c.md");
    assert_eq!(first_index_of(&v, '/'), Some(3));
    assert_eq!(last_index_of(&v, '/'), Some(5));
    assert_eq!(last_index_of(&v, '.'), Some(9));
    assert_eq!(first_index_of(&v, '#'), None);
    assert_eq!(last_index_of(&v, '#'), None);
}

#[test]
fn split_keeps_empty_pieces() {
    assert_eq!(split_on("a\nb\n", '\n'), vec!["a", "b", ""]);
    assert_eq!(split_on("", '\n'), vec![""]);
    assert_eq!(split_on("\n\n", '\n'), vec!["", "", ""]);
    assert_eq!(split_on("one line", '\n'), vec!["one line"]);
}

#[test]
fn split_then_join_gives_back_the_text() {
    for s in ["", "x", "a\nb", "\n", "a\n\nb\n"] {
        assert_eq!(split_on(s, '\n').join("\n"), s);
    }
}

#[test]
fn replace_matches_std() {
    for (s, from, to) in [
        ("<table><table>", "<table>", "<div><table>"),
        ("aaa", "aa", "b"),
        ("no match", "xyz", "q"),
        ("", "a", "b"),
        ("ab", "abc", "z"),
    ] {
        assert_eq!(replace_str(s, from, to), s.replace(from, to));
    }
}

#[test]
fn replace_single_char() {
    assert_eq!(replace_char("2017/01/post", '/', '_'), "2017_01_post");
    assert_eq!(replace_char("flat", '/', '_'), "flat");
}

#[test]
fn suffix_test() {
    assert!(ends_with("a/b.md", ".md"));
    assert!(!ends_with("a/b.mdx", ".md"));
    assert!(!ends_with("md", ".md"));
    assert!(ends_with("x", ""));
}
