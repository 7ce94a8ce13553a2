use rsw::pattern::Pattern;

#[test]
fn invalid_pattern_is_refused() {
    assert!(Pattern::new("foo(bar").is_none());
    assert!(Pattern::new(r"\d+").is_some());
}

#[test]
fn match_and_replace() {
    let p = Pattern::new(r"\{\{\s*title\s*\}\}").unwrap();
    assert!(p.is_match("<h1>{{ title }}</h1>"));
    assert!(!p.is_match("<h1>{{ name }}</h1>"));
    assert_eq!(p.replace_all("{{title}} and {{  title }}", "T"), "T and T");
    assert_eq!(p.replace_all("untouched", "T"), "untouched");
}

#[test]
fn replacement_expands_groups() {
    let p = Pattern::new(r"(?P<a>\w+)-(?P<b>\w+)").unwrap();
    assert_eq!(p.replace_all("x-y", "$b-$a"), "y-x");
}

#[test]
fn capture_groups() {
    let p = Pattern::new(r"^(\w+)(-(\d+))?").unwrap();
    assert_eq!(
        p.captures("page rest"),
        Some(vec![Some("page".to_string()), Some("page".to_string()), None, None])
    );
    assert_eq!(
        p.captures("page-12"),
        Some(vec![
            Some("page-12".to_string()),
            Some("page".to_string()),
            Some("-12".to_string()),
            Some("12".to_string()),
        ])
    );
    assert_eq!(p.captures("!!"), None);
}
