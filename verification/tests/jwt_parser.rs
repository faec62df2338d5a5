use base64::engine::general_purpose::URL_SAFE_NO_PAD;
use base64::Engine as _;
use hmac::{Hmac, Mac};
use sha2::Sha256;
use tit::tools::jwt_parser::{decode_jwt, decode_part, signature_status, verify_signature};

fn make_hs256_token(secret: &str) -> String {
    let header = URL_SAFE_NO_PAD.encode(r#"{"alg":"HS256","typ":"JWT"}"#);
    let payload = URL_SAFE_NO_PAD.encode(r#"{"sub":"123"}"#);
    let mut mac = Hmac::<Sha256>::new_from_slice(secret.as_bytes()).unwrap();
    mac.update(format!("{header}.{payload}").as_bytes());
    let sig = URL_SAFE_NO_PAD.encode(mac.finalize().into_bytes());
    format!("{header}.{payload}.{sig}")
}

#[test]
fn decodes_json_payload() {
    assert!(decode_part("eyJzdWIiOiIxMjMifQ").contains("\"sub\": \"123\""));
}

#[test]
fn rejects_invalid_base64url() {
    assert_eq!(decode_part("!!!"), "Invalid Base64Url sequence");
}

#[test]
fn verifies_valid_hs256_signature() {
    let token = make_hs256_token("secret");
    assert!(verify_signature(&token, "secret").unwrap());
}

#[test]
fn rejects_wrong_secret() {
    let token = make_hs256_token("secret");
    assert!(!verify_signature(&token, "wrong").unwrap());
}

#[test]
fn decodes_padded_segment_and_plain_text() {
    assert_eq!(decode_part("aGk="), "hi");
    assert_eq!(decode_part("aGk"), "hi");
    assert_eq!(decode_part("_w"), "Invalid UTF-8");
}

#[test]
fn decodes_whole_token() {
    let token = make_hs256_token("secret");
    let (h, p, s) = decode_jwt(&format!(" {}\n", token));
    assert_eq!(h, "{\n  \"alg\": \"HS256\",\n  \"typ\": \"JWT\"\n}");
    assert_eq!(p, "{\n  \"sub\": \"123\"\n}");
    assert_eq!(s, token.rsplit('.').next().unwrap());
    assert_eq!(decode_jwt(""), (String::new(), String::new(), String::new()));
}

#[test]
fn verification_errors() {
    assert_eq!(verify_signature("a.b", "k").unwrap_err(), "JWT must have three parts");
    let none_header = URL_SAFE_NO_PAD.encode(r#"{"alg":"none"}"#);
    assert!(verify_signature(&format!("{none_header}.e30."), "k").unwrap());
    let rs = URL_SAFE_NO_PAD.encode(r#"{"alg":"RS256"}"#);
    assert_eq!(
        verify_signature(&format!("{rs}.e30.x"), "k").unwrap_err(),
        "Unsupported algorithm: RS256"
    );
}

#[test]
fn signature_status_lines() {
    let token = make_hs256_token("secret");
    assert_eq!(signature_status(&token, ""), "");
    assert_eq!(signature_status(&token, "secret"), "Signature valid");
    assert_eq!(signature_status(&token, "other"), "Signature invalid");
    assert_eq!(signature_status("a.b", "k"), "Verify error: JWT must have three parts");
}
