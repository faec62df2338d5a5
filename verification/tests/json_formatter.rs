use tit::tools::json_formatter::{format_json, formatter_output};
use tit::tools::json_yaml_converter::{conversion_output, json_to_yaml, yaml_to_json};

#[test]
fn minifies() {
    assert_eq!(format_json("{ \"a\": 1 }", false).unwrap(), "{\"a\":1}");
}

#[test]
fn rejects() {
    assert!(format_json("{", true).is_err());
}

#[test]
fn pretty_prints() {
    assert_eq!(format_json("{\"a\":[1,2]}", true).unwrap(), "{\n  \"a\": [\n    1,\n    2\n  ]\n}");
}

#[test]
fn invalid_json_message() {
    assert!(format_json("[1,", false).unwrap_err().starts_with("Invalid JSON: "));
}

#[test]
fn json_and_yaml() {
    assert_eq!(json_to_yaml("{\"a\": 1}").unwrap(), "a: 1\n");
    assert_eq!(yaml_to_json("a: 1").unwrap(), "{\n  \"a\": 1\n}");
    assert!(json_to_yaml("{").unwrap_err().starts_with("Invalid JSON: "));
    assert!(yaml_to_json("a: [").unwrap_err().starts_with("Invalid YAML: "));
    assert_eq!(conversion_output("  \n", true), "");
    assert_eq!(conversion_output("[1]", true), "- 1\n");
}

#[test]
fn formatter_shows_output_or_message() {
    assert_eq!(formatter_output(" \n ", true), "");
    assert_eq!(formatter_output("[1, 2]", false), "[1,2]");
    assert!(formatter_output("{", true).starts_with("Invalid JSON: "));
}
