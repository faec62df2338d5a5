use tit::tools::mac_generator::{format_mac, generate_mac, MacGenerator};

fn is_local_unicast(mac: &str) -> bool {
    let parts: Vec<&str> = mac.split(':').collect();
    parts.len() == 6
        && parts.iter().all(|p| p.len() == 2 && p.chars().all(|c| c.is_ascii_hexdigit() && !c.is_ascii_lowercase()))
        && {
            let first = u8::from_str_radix(parts[0], 16).unwrap();
            first & 2 == 2 && first & 1 == 0
        }
}

#[test]
fn formats_and_fixes_first_octet() {
    assert_eq!(format_mac([0xff, 0, 0x1a, 0xb2, 0xc3, 0x04]), "FE:00:1A:B2:C3:04");
    assert_eq!(format_mac([0x00, 1, 2, 3, 4, 5]), "02:01:02:03:04:05");
}

#[test]
fn generated_addresses_are_local_unicast() {
    for _ in 0..50 {
        assert!(is_local_unicast(&generate_mac().unwrap()));
    }
}

#[test]
fn count_stays_between_one_and_fifty() {
    let mut g = MacGenerator::new().unwrap();
    assert_eq!(g.count(), 5);
    assert_eq!(g.macs().len(), 5);
    for _ in 0..60 {
        assert!(g.increase());
    }
    assert_eq!(g.count(), 50);
    assert_eq!(g.macs().len(), 50);
    for _ in 0..60 {
        assert!(g.decrease());
    }
    assert_eq!(g.count(), 1);
    assert!(g.generate());
    assert_eq!(g.macs().len(), 1);
    assert!(g.macs().iter().all(|m| is_local_unicast(m)));
    assert_eq!(g.all_text().lines().count(), 1);
}
