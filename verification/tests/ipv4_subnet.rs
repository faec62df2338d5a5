use tit::tools::ipv4_subnet::{calculate_subnet, details_lines, subnet_output};

#[test]
fn calculates_24() {
    let d = calculate_subnet("192.168.1.10/24").unwrap();
    assert_eq!(d.network, [192, 168, 1, 0]);
    assert_eq!(d.usable_hosts, 254);
    assert_eq!(d.host_range, "192.168.1.1 - 192.168.1.254");
}

#[test]
fn handles_31() {
    assert_eq!(calculate_subnet("10.0.0.0/31").unwrap().usable_hosts, 2);
}

#[test]
fn ipv4_subnet_rejects_invalid() {
    assert!(calculate_subnet("bad").is_err());
}

#[test]
fn details_of_a_slash_20() {
    let d = calculate_subnet(" 172.16.37.200/20 ").unwrap();
    assert_eq!(d.network, [172, 16, 32, 0]);
    assert_eq!(d.broadcast, [172, 16, 47, 255]);
    assert_eq!(d.netmask, [255, 255, 240, 0]);
    assert_eq!(d.usable_hosts, 4094);
    assert_eq!(
        details_lines(&d),
        "Network: 172.16.32.0\nBroadcast: 172.16.47.255\nNetmask: 255.255.240.0\nUsable hosts: 4094\nHost range: 172.16.32.1 - 172.16.47.254"
    );
}

#[test]
fn single_host_and_whole_space() {
    let d = calculate_subnet("8.8.8.8/32").unwrap();
    assert_eq!(d.usable_hosts, 1);
    assert_eq!(d.host_range, "8.8.8.8");
    let all = calculate_subnet("1.2.3.4/0").unwrap();
    assert_eq!(all.netmask, [0, 0, 0, 0]);
    assert_eq!(all.usable_hosts, 4294967294);
}

#[test]
fn error_message_and_blank_output() {
    assert!(calculate_subnet("1.2.3.4/33").unwrap_err().starts_with("Invalid IPv4 CIDR: "));
    assert_eq!(subnet_output("   "), "");
    assert!(subnet_output("10.0.0.1/8").starts_with("Network: 10.0.0.0\n"));
}
