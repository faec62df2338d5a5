use tit::tools::base64_encoder::{decode_base64, encode_base64};

#[test]
fn round_trip_unicode() {
    let s = "שלום 🌍";
    assert_eq!(decode_base64(&encode_base64(s)).unwrap(), s);
}

#[test]
fn base64_encoder_rejects_invalid() {
    assert!(decode_base64("@@@").is_err());
}

#[test]
fn encodes_with_padding() {
    assert_eq!(encode_base64("hello"), "aGVsbG8=");
    assert_eq!(encode_base64("hell"), "aGVsbA==");
    assert_eq!(encode_base64("hel"), "aGVs");
    assert_eq!(encode_base64(""), "");
}

#[test]
fn decoding_ignores_line_breaks_and_spaces() {
    assert_eq!(decode_base64("aGVs\r\nbG8 =").unwrap(), "hello");
}

#[test]
fn decoding_errors() {
    assert_eq!(decode_base64("aGVsbG8").unwrap_err(), "Invalid Base64 sequence");
    assert_eq!(decode_base64("aGVsbB==").unwrap_err(), "Invalid Base64 sequence");
    assert_eq!(decode_base64("/w==").unwrap_err(), "Invalid UTF-8 sequence");
}
