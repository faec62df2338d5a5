use tit::tools::regex_tester::test_regex;

#[test]
fn finds_ranges() {
    let o = test_regex(r"\d+", "a12 b3").unwrap();
    assert!(o.contains("2 match(es)"));
}

#[test]
fn bad_pattern() {
    assert!(test_regex("(", "x").is_err());
}

#[test]
fn full_listing() {
    assert_eq!(test_regex(r"\d+", "a12 b3").unwrap(), "2 match(es)\n1: [1..3] 12\n2: [5..6] 3");
    assert_eq!(test_regex("z", "abc").unwrap(), "No matches");
    assert_eq!(test_regex("", "abc").unwrap(), "");
    assert!(test_regex("(", "x").unwrap_err().starts_with("Invalid regex: "));
}
