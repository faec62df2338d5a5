use tit::tools::url_encoder::{decode_url, encode_url};

#[test]
fn round_trip() {
    let s = "a b/שלום";
    assert_eq!(decode_url(&encode_url(s)).unwrap(), s);
}

#[test]
fn rejects_bad_percent() {
    assert!(decode_url("%GG").is_err());
}

#[test]
fn encoding_details() {
    assert_eq!(encode_url("a b&c=d~e"), "a%20b%26c%3Dd~e");
    assert_eq!(encode_url("é"), "%C3%A9");
}

#[test]
fn decoding_details() {
    assert_eq!(decode_url("a%20b+c").unwrap(), "a b+c");
    assert_eq!(decode_url("%4").unwrap_err(), "Invalid URL encoded string");
    assert_eq!(decode_url("%FF").unwrap_err(), "Invalid URL encoded string");
}
