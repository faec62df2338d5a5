//! IPv4 subnet details from CIDR notation.
use crate::radix::{digits_of, format_radix};
use crate::text::{append_chars, chars_of, push_str, string_of, trim, trim_chars};
use std::str::FromStr;
use vstd::prelude::*;

verus! {

/// Network, broadcast address, netmask, number of usable hosts and the range
/// of host addresses of a subnet. Addresses are given by their four octets.
#[derive(Debug, PartialEq, Eq)]
pub struct SubnetDetails {
    pub network: [u8; 4],
    pub broadcast: [u8; 4],
    pub netmask: [u8; 4],
    pub usable_hosts: u64,
    pub host_range: String,
}

/// What `ipnet` reads from a CIDR text: the address and the prefix length,
/// or the message of its parse error.
pub uninterp spec fn ipv4_net_of(text: Seq<char>) -> Result<(u32, u8), Seq<char>>;

/// Calls `ipnet::Ipv4Net::from_str` and returns the address (as a `u32`) and
/// the prefix length, or the error's message. The result is named; `ipnet`
/// only accepts prefix lengths up to 32.
#[verifier::external_body]
fn parse_ipv4_net(text: &str) -> (res: Result<(u32, u8), String>)
    ensures
        match res {
            Ok((a, p)) => ipv4_net_of(text@) == Ok::<(u32, u8), Seq<char>>((a, p)) && p <= 32,
            Err(e) => ipv4_net_of(text@) == Err::<(u32, u8), Seq<char>>(e@),
        },
{
    match ipnet::Ipv4Net::from_str(text) {
        Ok(n) => Ok((u32::from(n.addr()), n.prefix_len())),
        Err(e) => Err(e.to_string()),
    }
}

/// The netmask of a prefix length (`ipnet`: `u32::MAX` shifted left by
/// `32 - prefix`, zero for a zero prefix).
pub open spec fn netmask_of(p: u8) -> u32 {
    if p == 0 {
        0
    } else {
        u32::MAX << ((32 - p) as u32)
    }
}

/// The host mask of a prefix length (`u32::MAX` shifted right by `prefix`,
/// zero for a 32-bit prefix).
pub open spec fn hostmask_of(p: u8) -> u32 {
    if p == 32 {
        0
    } else {
        u32::MAX >> (p as u32)
    }
}

/// The four octets of an address, most significant first.
pub open spec fn octets(a: u32) -> [u8; 4] {
    [(a / 0x100_0000) as u8, ((a / 0x1_0000) % 256) as u8, ((a / 256) % 256) as u8, (a % 256) as u8]
}

/// Dotted-decimal notation of an address.
pub open spec fn dotted(a: u32) -> Seq<char> {
    let o = octets(a);
    digits_of(o[0] as nat, 10) + "."@ + digits_of(o[1] as nat, 10) + "."@ + digits_of(o[2] as nat, 10)
        + "."@ + digits_of(o[3] as nat, 10)
}

/// Usable hosts of a prefix length: one for /32, two for /31, otherwise all
/// addresses but the network and broadcast addresses.
pub open spec fn usable_hosts_of(p: u8) -> u64 {
    if p == 32 {
        1
    } else if p == 31 {
        2
    } else {
        ((1u64 << ((32 - p) as u64)) - 2) as u64
    }
}

/// The range of host addresses of a subnet.
pub open spec fn host_range_of(network: u32, broadcast: u32, p: u8) -> Seq<char> {
    if p == 32 {
        dotted(network)
    } else if p == 31 {
        dotted(network) + " - "@ + dotted(broadcast)
    } else {
        dotted((network + 1) as u32) + " - "@ + dotted((broadcast - 1) as u32)
    }
}

/// What `calculate_subnet` returns for a text.
pub open spec fn subnet_spec(value: Seq<char>, res: Result<SubnetDetails, Seq<char>>) -> bool {
    match ipv4_net_of(trim(value)) {
        Err(e) => res == Err::<SubnetDetails, Seq<char>>("Invalid IPv4 CIDR: "@ + e),
        Ok((a, p)) => {
            let network = a & netmask_of(p);
            let broadcast = a | hostmask_of(p);
            match res {
                Ok(d) => d.network == octets(network) && d.broadcast == octets(broadcast)
                    && d.netmask == octets(netmask_of(p)) && d.usable_hosts == usable_hosts_of(p)
                    && d.host_range@ == host_range_of(network, broadcast, p),
                Err(_) => false,
            }
        },
    }
}

fn octets_of(a: u32) -> (res: [u8; 4])
    ensures
        res == octets(a),
{
    [(a / 0x100_0000) as u8, ((a / 0x1_0000) % 256) as u8, ((a / 256) % 256) as u8, (a % 256) as u8]
}

fn dotted_text(a: u32) -> (res: Vec<char>)
    ensures
        res@ == dotted(a),
{
    let o = octets_of(a);
    let mut out = format_radix(o[0] as u128, 10);
    push_str(&mut out, ".");
    append_chars(&mut out, format_radix(o[1] as u128, 10).as_slice());
    push_str(&mut out, ".");
    append_chars(&mut out, format_radix(o[2] as u128, 10).as_slice());
    push_str(&mut out, ".");
    append_chars(&mut out, format_radix(o[3] as u128, 10).as_slice());
    assert(out@ =~= dotted(a));
    out
}

/// Network, broadcast, netmask, usable hosts and host range of an IPv4
/// address with a prefix length (`a.b.c.d/p`, surrounding whitespace ignored).
pub fn calculate_subnet(value: &str) -> (res: Result<SubnetDetails, String>)
    ensures
        subnet_spec(
            value@,
            match res {
                Ok(d) => Ok(d),
                Err(e) => Err(e@),
            },
        ),
{
    let cs = chars_of(value);
    let t = string_of(trim_chars(cs.as_slice()).as_slice());
    let (a, p) = match parse_ipv4_net(t.as_str()) {
        Ok(v) => v,
        Err(e) => {
            let mut msg = chars_of("Invalid IPv4 CIDR: ");
            push_str(&mut msg, e.as_str());
            return Err(string_of(msg.as_slice()));
        },
    };
    let netmask: u32 = if p == 0 { 0 } else { u32::MAX << ((32 - p) as u32) };
    let hostmask: u32 = if p == 32 { 0 } else { u32::MAX >> (p as u32) };
    let network = a & netmask;
    let broadcast = a | hostmask;
    let usable_hosts: u64 = if p == 32 {
        1
    } else if p == 31 {
        2
    } else {
        assert((1u64 << ((32 - p) as u64)) >= 4) by (bit_vector)
            requires
                p <= 30,
        ;
        (1u64 << ((32 - p) as u64)) - 2
    };
    let host_range: Vec<char> = if p == 32 {
        dotted_text(network)
    } else if p == 31 {
        let mut r = dotted_text(network);
        push_str(&mut r, " - ");
        append_chars(&mut r, dotted_text(broadcast).as_slice());
        r
    } else {
        assert(network < u32::MAX && broadcast > 0) by (bit_vector)
            requires
                p <= 30,
                network == a & (if p == 0 { 0u32 } else { u32::MAX << ((32 - p) as u32) }),
                broadcast == a | (u32::MAX >> (p as u32)),
        ;
        let mut r = dotted_text(network + 1);
        push_str(&mut r, " - ");
        append_chars(&mut r, dotted_text(broadcast - 1).as_slice());
        r
    };
    Ok(SubnetDetails {
        network: octets_of(network),
        broadcast: octets_of(broadcast),
        netmask: octets_of(netmask),
        usable_hosts,
        host_range: string_of(host_range.as_slice()),
    })
}


/// Dotted-decimal notation of four octets.
pub open spec fn dotted_octets(o: [u8; 4]) -> Seq<char> {
    digits_of(o[0] as nat, 10) + "."@ + digits_of(o[1] as nat, 10) + "."@ + digits_of(o[2] as nat, 10)
        + "."@ + digits_of(o[3] as nat, 10)
}

fn dotted_octets_text(o: [u8; 4]) -> (res: Vec<char>)
    ensures
        res@ == dotted_octets(o),
{
    let mut out = format_radix(o[0] as u128, 10);
    push_str(&mut out, ".");
    append_chars(&mut out, format_radix(o[1] as u128, 10).as_slice());
    push_str(&mut out, ".");
    append_chars(&mut out, format_radix(o[2] as u128, 10).as_slice());
    push_str(&mut out, ".");
    append_chars(&mut out, format_radix(o[3] as u128, 10).as_slice());
    assert(out@ =~= dotted_octets(o));
    out
}

/// The five lines that show subnet details.
pub open spec fn details_text(d: SubnetDetails) -> Seq<char> {
    "Network: "@ + dotted_octets(d.network) + "\nBroadcast: "@ + dotted_octets(d.broadcast)
        + "\nNetmask: "@ + dotted_octets(d.netmask) + "\nUsable hosts: "@ + digits_of(d.usable_hosts as nat, 10)
        + "\nHost range: "@ + d.host_range@
}

/// The subnet details as five lines of text.
pub fn details_lines(d: &SubnetDetails) -> (res: String)
    ensures
        res@ == details_text(*d),
{
    let mut out = chars_of("Network: ");
    append_chars(&mut out, dotted_octets_text(d.network).as_slice());
    push_str(&mut out, "\nBroadcast: ");
    append_chars(&mut out, dotted_octets_text(d.broadcast).as_slice());
    push_str(&mut out, "\nNetmask: ");
    append_chars(&mut out, dotted_octets_text(d.netmask).as_slice());
    push_str(&mut out, "\nUsable hosts: ");
    append_chars(&mut out, format_radix(d.usable_hosts as u128, 10).as_slice());
    push_str(&mut out, "\nHost range: ");
    push_str(&mut out, d.host_range.as_str());
    assert(out@ =~= details_text(*d));
    string_of(out.as_slice())
}

/// What the subnet calculator shows for an input: nothing for blank input,
/// otherwise the details or the message.
pub fn subnet_output(text: &str) -> (res: String)
    ensures
        trim(text@).len() == 0 ==> res@.len() == 0,
        trim(text@).len() > 0 ==> exists|r: Result<SubnetDetails, Seq<char>>| #[trigger] subnet_spec(text@, r) && res@ == match r {
            Ok(d) => details_text(d),
            Err(e) => e,
        },
{
    let cs = chars_of(text);
    if trim_chars(cs.as_slice()).len() == 0 {
        let e: Vec<char> = Vec::new();
        return string_of(e.as_slice());
    }
    let r = calculate_subnet(text);
    match r {
        Ok(d) => {
            let out = details_lines(&d);
            assert(subnet_spec(text@, Ok(d)));
            out
        },
        Err(e) => {
            assert(subnet_spec(text@, Err(e@)));
            e
        },
    }
}


/// The subnet's addresses run from the network to the broadcast address,
/// and the usable hosts are all of them but those two (both for /31 and the
/// one address for /32).
pub proof fn subnet_counts(a: u32, p: u8)
    requires
        p <= 32,
    ensures
        (a & netmask_of(p)) <= (a | hostmask_of(p)),
        p <= 30 ==> usable_hosts_of(p) == (a | hostmask_of(p)) - (a & netmask_of(p)) - 1,
        p == 31 ==> usable_hosts_of(p) == (a | hostmask_of(p)) - (a & netmask_of(p)) + 1,
        p == 32 ==> (a & netmask_of(p)) == (a | hostmask_of(p)) && usable_hosts_of(p) == 1,
{
    let s: u32 = (32 - p) as u32;
    if p == 0 {
        assert(netmask_of(p) == 0u32 && hostmask_of(p) == u32::MAX >> 0u32);
        assert(usable_hosts_of(p) == ((1u64 << 32u64) - 2) as u64);
        assert((a & 0u32) <= (a | (u32::MAX >> 0u32))) by (bit_vector);
        assert((a | (u32::MAX >> 0u32)) - (a & 0u32) - 1 == (1u64 << 32u64) - 2 && (1u64 << 32u64) >= 4) by (bit_vector);
    } else if p <= 30 {
        let q = p as u32;
        assert(netmask_of(p) == u32::MAX << s && hostmask_of(p) == u32::MAX >> q);
        assert(usable_hosts_of(p) == ((1u64 << (s as u64)) - 2) as u64);
        assert((a & (u32::MAX << s)) <= (a | (u32::MAX >> q))
            && (a | (u32::MAX >> q)) - (a & (u32::MAX << s)) - 1 == (1u64 << (s as u64)) - 2
            && (1u64 << (s as u64)) >= 4) by (bit_vector)
            requires
                1 <= q <= 30,
                s == 32 - q,
        ;
    } else if p == 31 {
        assert(netmask_of(p) == u32::MAX << 1u32 && hostmask_of(p) == u32::MAX >> 31u32);
        assert((a & (u32::MAX << 1u32)) <= (a | (u32::MAX >> 31u32))
            && (a | (u32::MAX >> 31u32)) - (a & (u32::MAX << 1u32)) + 1 == 2) by (bit_vector);
    } else {
        assert(netmask_of(p) == u32::MAX << 0u32 && hostmask_of(p) == 0u32);
        assert((a & (u32::MAX << 0u32)) == a && (a | 0u32) == a) by (bit_vector);
    }
}

} // verus!
