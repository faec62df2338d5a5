use tit::cli::{jwt_report, number_base_of_name, stats_report};

#[test]
fn base_names() {
    assert_eq!(number_base_of_name("BIN"), Some(2));
    assert_eq!(number_base_of_name("oct"), Some(8));
    assert_eq!(number_base_of_name("10"), Some(10));
    assert_eq!(number_base_of_name("Hexadecimal"), Some(16));
    assert_eq!(number_base_of_name("3"), None);
}

#[test]
fn stats_lines() {
    assert_eq!(
        stats_report("A short sentence."),
        "Characters (total): 17\nCharacters (no spaces): 15\nWords: 3\nLines: 1\nBytes: 17"
    );
}

#[test]
fn jwt_lines() {
    assert_eq!(jwt_report("", None), "");
    assert_eq!(jwt_report("aGk.aGk", None), "Header:\nhi\nPayload:\nhi");
    assert_eq!(
        jwt_report("aGk.aGk.sig", Some("k")),
        "Header:\nhi\nPayload:\nhi\nSignature:\nsig\nSignature: invalid"
    );
}
