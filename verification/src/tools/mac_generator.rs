//! Random MAC addresses that are locally administered and unicast.
use crate::text::{append_chars, chars_of, join, join_chars, string_of};
use rand::RngCore;
use vstd::prelude::*;

verus! {

/// Two upper-case hex digits of a byte (`{:02X}`).
pub open spec fn hex_pair(b: u8) -> Seq<char> {
    seq![crate::radix::digit_char((b / 16) as nat), crate::radix::digit_char((b % 16) as nat)]
}

/// The colon-separated notation of six bytes.
pub open spec fn mac_text(b: Seq<u8>) -> Seq<char> {
    hex_pair(b[0]) + seq![':'] + hex_pair(b[1]) + seq![':'] + hex_pair(b[2]) + seq![':'] + hex_pair(b[3])
        + seq![':'] + hex_pair(b[4]) + seq![':'] + hex_pair(b[5])
}

/// A first octet with the locally-administered bit set and the multicast bit
/// clear.
pub open spec fn local_unicast(b: u8) -> bool {
    b & 2 == 2 && b & 1 == 0
}

/// The text of a locally administered unicast MAC address.
pub open spec fn is_local_mac(s: Seq<char>) -> bool {
    exists|b: Seq<u8>| b.len() == 6 && local_unicast(b[0]) && #[trigger] mac_text(b) == s
}

/// Six random bytes from the operating system's source, through
/// `rand::rngs::OsRng` (`RngCore::try_fill_bytes`); `None` when that source
/// fails. Nothing is promised of the bytes' values.
#[verifier::external_body]
fn random_six_bytes() -> (res: Option<[u8; 6]>) {
    let mut bytes = [0u8; 6];
    match rand::rngs::OsRng.try_fill_bytes(&mut bytes) {
        Ok(()) => Some(bytes),
        Err(_) => None,
    }
}

fn hex_pair_chars(b: u8) -> (res: Vec<char>)
    ensures
        res@ == hex_pair(b),
{
    let mut v: Vec<char> = Vec::new();
    v.push(crate::radix::digit_to_char((b / 16) as u32));
    v.push(crate::radix::digit_to_char((b % 16) as u32));
    v
}

/// The MAC address of six bytes after setting the locally-administered bit
/// and clearing the multicast bit of the first one.
pub fn format_mac(bytes: [u8; 6]) -> (res: String)
    ensures
        res@ == mac_text(bytes@.update(0, ((bytes@[0] | 2) & 0xfe) as u8)),
        is_local_mac(res@),
{
    let b0 = bytes[0];
    let first: u8 = (b0 | 0b0000_0010) & 0b1111_1110;
    assert(first & 2 == 2 && first & 1 == 0) by (bit_vector)
        requires
            first == (b0 | 2u8) & 0xfeu8,
    ;
    let ghost b = bytes@.update(0, first);
    let mut out = hex_pair_chars(first);
    let mut i: usize = 1;
    while i < 6
        invariant
            1 <= i <= 6,
            b == bytes@.update(0, first),
            b.len() == 6,
            out@ == hex_pair(b[0]) + Seq::new((3 * (i - 1)) as nat, |k: int| (seq![':'] + hex_pair(b[1 + k / 3]))[k % 3]),
        decreases 6 - i,
    {
        let ghost before = out@;
        out.push(':');
        append_chars(&mut out, hex_pair_chars(bytes[i]).as_slice());
        assert(bytes[i as int] == b[i as int]);
        i = i + 1;
        assert(out@ =~= hex_pair(b[0]) + Seq::new((3 * (i - 1)) as nat, |k: int| (seq![':'] + hex_pair(b[1 + k / 3]))[k % 3]));
    }
    assert(out@ =~= mac_text(b));
    assert(b[0] == first);
    string_of(out.as_slice())
}

/// A random locally administered unicast MAC address; `None` when the
/// operating system's random source fails.
pub fn generate_mac() -> (res: Option<String>)
    ensures
        res matches Some(s) ==> is_local_mac(s@),
{
    match random_six_bytes() {
        Some(bytes) => Some(format_mac(bytes)),
        None => None,
    }
}

/// A list of random MAC addresses whose length can be changed between 1 and 50.
pub struct MacGenerator {
    macs: Vec<String>,
    count: usize,
}

impl MacGenerator {
    /// The generator's addresses, each a locally administered unicast MAC.
    pub closed spec fn addresses(self) -> Seq<Seq<char>> {
        self.macs@.map_values(|s: String| s@)
    }

    /// How many addresses the generator makes.
    pub closed spec fn size(self) -> nat {
        self.count as nat
    }

    #[verifier::type_invariant]
    closed spec fn inv(self) -> bool {
        &&& 1 <= self.count <= 50
        &&& self.macs@.len() == self.count
        &&& forall|i: int| 0 <= i < self.macs@.len() ==> #[trigger] is_local_mac(self.macs@[i]@)
    }

    /// A generator of five addresses; `None` when the operating system's
    /// random source fails.
    pub fn new() -> (res: Option<Self>)
        ensures
            res matches Some(g) ==> g.size() == 5 && g.addresses().len() == 5
                && forall|i: int| 0 <= i < 5 ==> #[trigger] is_local_mac(g.addresses()[i]),
    {
        match Self::fresh(5) {
            Some(macs) => {
                let res = MacGenerator { macs, count: 5 };
                proof {
                    use_type_invariant(&res);
                }
                Some(res)
            },
            None => None,
        }
    }

    /// `n` new addresses, or `None` when a draw fails.
    fn fresh(n: usize) -> (res: Option<Vec<String>>)
        ensures
            res matches Some(v) ==> v@.len() == n && forall|i: int| 0 <= i < v@.len() ==> #[trigger] is_local_mac(v@[i]@),
    {
        let mut macs: Vec<String> = Vec::new();
        let mut k: usize = 0;
        while k < n
            invariant
                k <= n,
                macs@.len() == k,
                forall|i: int| 0 <= i < macs@.len() ==> #[trigger] is_local_mac(macs@[i]@),
            decreases n - k,
        {
            match generate_mac() {
                Some(m) => macs.push(m),
                None => return None,
            }
            k = k + 1;
        }
        Some(macs)
    }

    /// Replaces the addresses with new random ones and returns `true`; when
    /// the operating system's random source fails, leaves the generator as
    /// it was and returns `false`.
    pub fn generate(&mut self) -> (res: bool)
        ensures
            final(self).size() == old(self).size(),
            final(self).addresses().len() == old(self).size(),
            forall|i: int| 0 <= i < final(self).addresses().len() ==> #[trigger] is_local_mac(final(self).addresses()[i]),
            !res ==> *final(self) == *old(self),
    {
        proof {
            use_type_invariant(&*self);
        }
        match Self::fresh(self.count) {
            Some(macs) => {
                self.macs = macs;
                proof {
                    use_type_invariant(&*self);
                }
                true
            },
            None => false,
        }
    }

    /// One more address (at most 50), all regenerated, and `true`; when the
    /// operating system's random source fails, the generator stays as it was
    /// and the result is `false`.
    pub fn increase(&mut self) -> (res: bool)
        ensures
            res ==> final(self).size() == if old(self).size() < 50 { old(self).size() + 1 } else { 50 },
            !res ==> *final(self) == *old(self),
            final(self).addresses().len() == final(self).size(),
            forall|i: int| 0 <= i < final(self).addresses().len() ==> #[trigger] is_local_mac(final(self).addresses()[i]),
    {
        proof {
            use_type_invariant(&*self);
        }
        let c = if self.count < 50 { self.count + 1 } else { 50 };
        match Self::fresh(c) {
            Some(macs) => {
                *self = MacGenerator { macs, count: c };
                proof {
                    use_type_invariant(&*self);
                }
                true
            },
            None => false,
        }
    }

    /// One address fewer (at least 1), all regenerated, and `true`; when the
    /// operating system's random source fails, the generator stays as it was
    /// and the result is `false`.
    pub fn decrease(&mut self) -> (res: bool)
        ensures
            res ==> final(self).size() == if old(self).size() > 1 { old(self).size() - 1 } else { 1 },
            !res ==> *final(self) == *old(self),
            final(self).addresses().len() == final(self).size(),
            forall|i: int| 0 <= i < final(self).addresses().len() ==> #[trigger] is_local_mac(final(self).addresses()[i]),
    {
        proof {
            use_type_invariant(&*self);
        }
        let c = if self.count > 1 { self.count - 1 } else { 1 };
        match Self::fresh(c) {
            Some(macs) => {
                *self = MacGenerator { macs, count: c };
                proof {
                    use_type_invariant(&*self);
                }
                true
            },
            None => false,
        }
    }

    /// How many addresses the generator makes.
    pub fn count(&self) -> (res: usize)
        ensures
            res == self.size(),
            1 <= res <= 50,
    {
        proof {
            use_type_invariant(self);
        }
        self.count
    }

    /// The addresses, one per line.
    pub fn all_text(&self) -> (res: String)
        ensures
            res@ == join(self.addresses(), seq!['\n']),
    {
        let mut lines: Vec<Vec<char>> = Vec::new();
        let mut i: usize = 0;
        while i < self.macs.len()
            invariant
                i <= self.macs@.len(),
                lines.deep_view() == self.addresses().take(i as int),
            decreases self.macs@.len() - i,
        {
            let line = chars_of(self.macs[i].as_str());
            let ghost before = lines.deep_view();
            let ghost lv = line@;
            assert(line.deep_view() =~= line@);
            lines.push(line);
            assert(lines.deep_view() =~= before.push(lv));
            i = i + 1;
            assert(lines.deep_view() =~= self.addresses().take(i as int));
        }
        assert(self.addresses().take(self.macs@.len() as int) =~= self.addresses());
        let nl = ['\n'];
        assert(nl@ == seq!['\n']);
        string_of(join_chars(&lines, &nl).as_slice())
    }

    /// The addresses.
    pub fn macs(&self) -> (res: &Vec<String>)
        ensures
            res@.map_values(|s: String| s@) == self.addresses(),
    {
        &self.macs
    }
}

} // verus!
