use tit::cli::hash_report;
use tit::tools::hash_generator::hash_text;

#[test]
fn digests_of_abc() {
    let (m, a, b) = hash_text("abc");
    assert_eq!(m, "900150983cd24fb0d6963f7d28e17f72");
    assert_eq!(a, "ba7816bf8f01cfea414140de5dae2223b00361a396177a9cb410ff61f20015ad");
    assert_eq!(b.len(), 128);
    assert!(b.starts_with("ddaf35a193617aba"));
}

#[test]
fn empty_text_has_empty_digests() {
    assert_eq!(hash_text(""), (String::new(), String::new(), String::new()));
    assert_eq!(hash_report(""), "MD5: \nSHA256: \nSHA512: ");
}
