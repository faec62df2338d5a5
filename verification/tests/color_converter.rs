use tit::tools::color_converter::{color_input_cuts_char, color_source, color_text_of, ColorSource};

fn rgb(r: u8, g: u8, b: u8) -> Result<ColorSource, String> {
    Ok(ColorSource::Rgb(r, g, b))
}

#[test]
fn orange_hex() {
    assert_eq!(color_source("#E6A014"), rgb(230, 160, 20));
    assert!(color_text_of(230, 160, 20, 40, 84, 49).contains("rgb(230, 160, 20)"));
}

#[test]
fn short_hex() {
    assert_eq!(color_source("#FA0"), rgb(255, 170, 0));
    assert!(color_text_of(255, 170, 0, 40, 100, 50).contains("rgb(255, 170, 0)"));
}

#[test]
fn rgb_input() {
    assert_eq!(color_source("rgb(255, 0, 128)"), rgb(255, 0, 128));
    assert!(color_text_of(255, 0, 128, 330, 100, 50).contains("HEX: #FF0080"));
}

#[test]
fn hsl_input() {
    assert_eq!(color_source("hsl(120, 100%, 50%)"), Ok(ColorSource::Hsl(120, 100, 50)));
    assert!(color_text_of(0, 255, 0, 120, 100, 50).contains("HEX: #00FF00"));
}

#[test]
fn invalid() {
    assert!(color_source("red").is_err());
}

#[test]
fn empty() {
    assert_eq!(color_source(""), Ok(ColorSource::Blank));
    assert_eq!(color_source(" \t\n"), Ok(ColorSource::Blank));
}

#[test]
fn full_output_of_orange() {
    assert_eq!(color_source("  #e6a014 "), rgb(230, 160, 20));
    assert_eq!(
        color_text_of(230, 160, 20, 40, 84, 49),
        "HEX: #E6A014\nRGB: rgb(230, 160, 20)\nHSL: hsl(40, 84%, 49%)"
    );
}

#[test]
fn gray_text() {
    assert_eq!(color_source("rgb(128, 128, 128)"), rgb(128, 128, 128));
    assert_eq!(
        color_text_of(128, 128, 128, 0, 0, 50),
        "HEX: #808080\nRGB: rgb(128, 128, 128)\nHSL: hsl(0, 0%, 50%)"
    );
}

#[test]
fn rgba_alpha_is_ignored() {
    assert_eq!(color_source("rgba(1, 2, 3, 0.5)"), rgb(1, 2, 3));
}

#[test]
fn hex_without_hash() {
    assert_eq!(color_source("00ff7f"), rgb(0, 255, 127));
}

#[test]
fn hsl_out_of_range_is_rejected() {
    assert_eq!(
        color_source("hsl(361, 50%, 50%)").unwrap_err(),
        "Invalid HSL color. Use hsl(h, s%, l%)."
    );
    assert_eq!(color_source("hsl(360, 100%, 50%)"), Ok(ColorSource::Hsl(360, 100, 50)));
}

#[test]
fn bad_hex_length_is_rejected() {
    assert_eq!(
        color_source("#12345").unwrap_err(),
        "Invalid HEX color. Use #RGB or #RRGGBB."
    );
}

#[test]
fn bad_rgb_is_rejected() {
    assert_eq!(
        color_source("rgb(256, 0, 0)").unwrap_err(),
        "Invalid RGB color. Use rgb(r, g, b)."
    );
}

#[test]
fn unsupported_is_rejected() {
    assert_eq!(
        color_source("red").unwrap_err(),
        "Unsupported input. Use HEX, RGB, or HSL."
    );
}

#[test]
fn hex_text_is_upper_case_and_padded() {
    assert_eq!(
        color_text_of(1, 171, 12, 7, 99, 34),
        "HEX: #01AB0C\nRGB: rgb(1, 171, 12)\nHSL: hsl(7, 99%, 34%)"
    );
}

#[test]
fn multibyte_hex_input_is_flagged() {
    assert!(color_input_cuts_char("#aé123"));
    assert!(!color_input_cuts_char("#é1234"));
    assert!(!color_input_cuts_char("#abcdef"));
    assert!(!color_input_cuts_char("rgb(1, 2, 3)"));
}

#[test]
fn notations_of_one_color_agree() {
    assert_eq!(color_source("#abc"), color_source("#aabbcc"));
    assert_eq!(color_source("#abc"), rgb(0xaa, 0xbb, 0xcc));
    assert_eq!(color_source("00ff7f"), color_source("#00ff7f"));
    assert_eq!(color_source("rgb(18, 52, 86)"), color_source("#123456"));
}
