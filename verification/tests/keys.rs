use tit::tools::keys::{mac_key, next_base, route_key, select_entry, KeyPress, KeyRoute, MacKey};
use tit::tools::number_base::{convert_in_mode, mode_fields, next_mode, NumberMode};
use tit::tools::text_case_converter::case_output;

#[test]
fn routes() {
    assert_eq!(route_key(KeyPress::Esc, true), KeyRoute::Back);
    assert_eq!(route_key(KeyPress::Tab, true), KeyRoute::Switch);
    assert_eq!(route_key(KeyPress::Tab, false), KeyRoute::Edit);
    assert_eq!(route_key(KeyPress::Copy, false), KeyRoute::Copy);
    assert_eq!(route_key(KeyPress::Char('x'), true), KeyRoute::Edit);
}

#[test]
fn base_cycle() {
    assert_eq!(next_base(2), 8);
    assert_eq!(next_base(8), 10);
    assert_eq!(next_base(10), 16);
    assert_eq!(next_base(16), 2);
    assert_eq!(next_base(7), 2);
}

#[test]
fn list_selection() {
    assert_eq!(select_entry(0, KeyPress::Up, 6), 0);
    assert_eq!(select_entry(3, KeyPress::Char('k'), 6), 2);
    assert_eq!(select_entry(5, KeyPress::Down, 6), 5);
    assert_eq!(select_entry(2, KeyPress::Char('j'), 6), 3);
}

#[test]
fn mac_keys() {
    assert_eq!(mac_key(KeyPress::Enter), MacKey::Regenerate);
    assert_eq!(mac_key(KeyPress::Char('+')), MacKey::More);
    assert_eq!(mac_key(KeyPress::Char('-')), MacKey::Fewer);
    assert_eq!(mac_key(KeyPress::Copy), MacKey::CopyAll);
    assert_eq!(mac_key(KeyPress::Esc), MacKey::Back);
    assert_eq!(mac_key(KeyPress::Tab), MacKey::Ignore);
}

#[test]
fn modes_of_the_number_base_tool() {
    assert_eq!(next_mode(NumberMode::Octal), NumberMode::Decimal);
    assert_eq!(
        convert_in_mode(" 0xff ", NumberMode::Hexadecimal),
        Some(("255".to_string(), "FF".to_string(), "11111111".to_string(), "377".to_string()))
    );
    let (d, h, _, _) = convert_in_mode("-1", NumberMode::Decimal).unwrap();
    assert_eq!((d.as_str(), h.as_str()), ("-1", "FFFFFFFFFFFFFFFF"));
    assert_eq!(
        convert_in_mode("-9223372036854775808", NumberMode::Decimal).unwrap().0,
        "-9223372036854775808"
    );
    assert_eq!(convert_in_mode("9223372036854775808", NumberMode::Decimal), None);
    assert_eq!(convert_in_mode("-+5", NumberMode::Decimal), None);
    assert_eq!(convert_in_mode("+5", NumberMode::Octal).unwrap().0, "5");
    assert_eq!(convert_in_mode("12", NumberMode::Binary), None);
}

#[test]
fn case_modes_in_order() {
    assert_eq!(case_output("Hello World", 0), "hello world");
    assert_eq!(case_output("Hello World", 3), "helloWorld");
    assert_eq!(case_output("Hello World", 5), "hello-world");
}

#[test]
fn number_fields_shown() {
    let e = String::new;
    assert_eq!(mode_fields("  ", NumberMode::Hexadecimal), (e(), e(), e(), e(), e()));
    assert_eq!(
        mode_fields("0b101", NumberMode::Binary),
        ("5".to_string(), "5".to_string(), "101".to_string(), "5".to_string(), e())
    );
    assert_eq!(
        mode_fields("9", NumberMode::Octal),
        (e(), e(), e(), e(), "Invalid number for selected base.".to_string())
    );
}
