use tit::tools::html_entities::{decode_html_text, encode_html_text};
use tit::tools::url_encoder::percent_decode_text;

#[test]
fn escapes_markup() {
    assert_eq!(encode_html_text("<main class=\"app\">&"), "&lt;main class=\"app\"&gt;&amp;");
}

#[test]
fn decodes_references() {
    assert_eq!(decode_html_text("&lt;b&gt; &amp; &#65;"), "<b> & A");
}

#[test]
fn lenient_percent_decoding() {
    assert_eq!(percent_decode_text("hello%20world%zz").unwrap(), "hello world%zz");
    assert!(percent_decode_text("%ff").is_err());
}
