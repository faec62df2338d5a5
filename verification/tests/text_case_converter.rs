use tit::tools::text_case_converter::convert_case;

#[test]
fn lowercase_and_uppercase() {
    assert_eq!(convert_case("Hello World", "lowercase").unwrap(), "hello world");
    assert_eq!(convert_case("Hello World", "UPPERCASE").unwrap(), "HELLO WORLD");
}

#[test]
fn title_case_collapses_spaces() {
    assert_eq!(convert_case("  hello   wORLD  ", "Title Case").unwrap(), "Hello WORLD");
}

#[test]
fn camel_case() {
    assert_eq!(convert_case("Hello big WORLD", "camel").unwrap(), "helloBigWorld");
}

#[test]
fn snake_and_kebab() {
    assert_eq!(convert_case("Hello big World", "snake case").unwrap(), "hello_big_world");
    assert_eq!(convert_case("Hello big World", "kebab").unwrap(), "hello-big-world");
}

#[test]
fn unknown_mode() {
    assert_eq!(convert_case("x", "pascal").unwrap_err(), "Unknown case mode: pascal");
}

#[test]
fn unicode_title() {
    assert_eq!(convert_case("éclair ßtraße", "title").unwrap(), "Éclair SStraße");
}
