//! Network addresses as plain values.

use vstd::prelude::*;

verus! {

/// An IPv4 address, held as the number its four octets spell in network order.
#[derive(Clone, Copy, Debug, PartialEq, Eq, Structural)]
pub struct Ipv4Addr {
    pub bits: u32,
}

/// The number spelled by four octets, most significant first.
pub open spec fn be32(a: u8, b: u8, c: u8, d: u8) -> int {
    a * 0x100_0000 + b * 0x1_0000 + c * 0x100 + d
}

/// The four octets of a 32-bit number, most significant first.
pub open spec fn octets32(n: u32) -> Seq<u8> {
    seq![
        (n / 0x100_0000) as u8,
        (n / 0x1_0000 % 0x100) as u8,
        (n / 0x100 % 0x100) as u8,
        (n % 0x100) as u8,
    ]
}

/// The two octets of a 16-bit number, most significant first.
pub open spec fn octets16(n: u16) -> Seq<u8> {
    seq![(n / 0x100) as u8, (n % 0x100) as u8]
}

/// The number that `s` holds in the four octets from `at` on.
pub open spec fn read32(s: Seq<u8>, at: int) -> int {
    be32(s[at], s[at + 1], s[at + 2], s[at + 3])
}

/// The number that `s` holds in the two octets from `at` on.
pub open spec fn read16(s: Seq<u8>, at: int) -> int {
    s[at] * 0x100 + s[at + 1]
}

impl Ipv4Addr {
    /// The address `a.b.c.d`.
    pub fn new(a: u8, b: u8, c: u8, d: u8) -> (r: Ipv4Addr)
        ensures
            r.bits == be32(a, b, c, d),
    {
        Ipv4Addr {
            bits: a as u32 * 0x100_0000 + b as u32 * 0x1_0000 + c as u32 * 0x100 + d as u32,
        }
    }

    /// The four octets, as they go over the wire.
    pub fn octets(&self) -> (r: [u8; 4])
        ensures
            r@ == octets32(self.bits),
    {
        let n: u32 = self.bits;
        [
            (n / 0x100_0000) as u8,
            (n / 0x1_0000 % 0x100) as u8,
            (n / 0x100 % 0x100) as u8,
            (n % 0x100) as u8,
        ]
    }

    /// The limited broadcast address, 255.255.255.255.
    pub fn broadcast() -> (r: Ipv4Addr)
        ensures
            r == broadcast_ip(),
    {
        Ipv4Addr { bits: 0xffff_ffff }
    }

    /// The unspecified address, 0.0.0.0.
    pub fn unspecified() -> (r: Ipv4Addr)
        ensures
            r == unspecified_ip(),
    {
        Ipv4Addr { bits: 0 }
    }
}

/// 255.255.255.255
pub open spec fn broadcast_ip() -> Ipv4Addr {
    Ipv4Addr { bits: 0xffff_ffff }
}

/// 0.0.0.0
pub open spec fn unspecified_ip() -> Ipv4Addr {
    Ipv4Addr { bits: 0 }
}

/// Reading the octets of an address back gives the address, and every address
/// is spelled by its octets.
pub proof fn law_octets_spell_address(n: u32)
    ensures
        octets32(n).len() == 4,
        read32(octets32(n), 0) == n,
{
}

/// Reading the octets of a 16-bit number back gives the number.
pub proof fn law_octets_spell_half(n: u16)
    ensures
        octets16(n).len() == 2,
        read16(octets16(n), 0) == n,
{
}

/// A link-layer address of six octets.
#[derive(Clone, Copy, Debug, PartialEq, Eq, Structural)]
pub struct MacAddr(pub u8, pub u8, pub u8, pub u8, pub u8, pub u8);

impl MacAddr {
    /// The address `a:b:c:d:e:f`.
    pub fn new(a: u8, b: u8, c: u8, d: u8, e: u8, f: u8) -> (r: MacAddr)
        ensures
            r == MacAddr(a, b, c, d, e, f),
    {
        MacAddr(a, b, c, d, e, f)
    }

    /// The link-layer broadcast address, all ones.
    pub fn broadcast() -> (r: MacAddr)
        ensures
            r == broadcast_mac(),
    {
        MacAddr(0xff, 0xff, 0xff, 0xff, 0xff, 0xff)
    }

    /// The six octets, as they go over the wire.
    pub open spec fn spec_octets(self) -> Seq<u8> {
        seq![self.0, self.1, self.2, self.3, self.4, self.5]
    }

    /// The six octets, as they go over the wire.
    pub fn octets(&self) -> (r: [u8; 6])
        ensures
            r@ == self.spec_octets(),
    {
        [self.0, self.1, self.2, self.3, self.4, self.5]
    }

    /// The number that the octets spell; tables are keyed by it.
    pub open spec fn spec_key(self) -> u64 {
        (be32(self.0, self.1, self.2, self.3) * 0x1_0000 + self.4 * 0x100 + self.5) as u64
    }

    /// The number that the octets spell; tables are keyed by it.
    pub fn key(&self) -> (r: u64)
        ensures
            r == self.spec_key(),
    {
        self.0 as u64 * 0x100_0000_0000 + self.1 as u64 * 0x1_0000_0000 + self.2 as u64
            * 0x100_0000 + self.3 as u64 * 0x1_0000 + self.4 as u64 * 0x100 + self.5 as u64
    }
}

/// ff:ff:ff:ff:ff:ff
pub open spec fn broadcast_mac() -> MacAddr {
    MacAddr(0xff, 0xff, 0xff, 0xff, 0xff, 0xff)
}

proof fn lemma_last_digit(x: int, d: u8, y: int, e: u8)
    requires
        x * 0x100 + d == y * 0x100 + e,
    ensures
        x == y,
        d == e,
{
}

/// Two link-layer addresses with the same key are the same address.
pub proof fn law_mac_key_identifies(a: MacAddr, b: MacAddr)
    ensures
        a.spec_key() == b.spec_key() ==> a == b,
{
    if a.spec_key() == b.spec_key() {
        let (a1, b1) = (a.0 * 0x100 + a.1, b.0 * 0x100 + b.1);
        let (a2, b2) = (a1 * 0x100 + a.2, b1 * 0x100 + b.2);
        let (a3, b3) = (a2 * 0x100 + a.3, b2 * 0x100 + b.3);
        let (a4, b4) = (a3 * 0x100 + a.4, b3 * 0x100 + b.4);
        lemma_last_digit(a4, a.5, b4, b.5);
        lemma_last_digit(a3, a.4, b3, b.4);
        lemma_last_digit(a2, a.3, b2, b.3);
        lemma_last_digit(a1, a.2, b1, b.2);
        lemma_last_digit(a.0 as int, a.1, b.0 as int, b.1);
    }
}

/// The octets of an address and of a 16-bit number stand in network order: the
/// first counts for most.
pub proof fn law_first_octet_counts_most(a: u8, b: u8, c: u8, d: u8)
    ensures
        be32(a, b, c, d) == ((a * 256 + b) * 256 + c) * 256 + d,
        octets32(be32(a, b, c, d) as u32) == seq![a, b, c, d],
        octets16((a * 256 + b) as u16) == seq![a, b],
        read32(seq![a, b, c, d], 0) == ((a * 256 + b) * 256 + c) * 256 + d,
        read16(seq![a, b], 0) == a * 256 + b,
{
    let n = be32(a, b, c, d) as u32;
    law_octets_spell_address(n);
    let s = octets32(n);
    let (x1, y1) = (s[0] * 256 + s[1], a * 256 + b);
    let (x2, y2) = (x1 * 256 + s[2], y1 * 256 + c);
    lemma_last_digit(x2, s[3], y2, d);
    lemma_last_digit(x1, s[2], y1, c);
    lemma_last_digit(s[0] as int, s[1], a as int, b);
    assert(s =~= seq![a, b, c, d]);
    assert(octets16((a * 256 + b) as u16) =~= seq![a, b]);
}

/// Where a number is read is where its octets stand, whatever stands around them.
pub proof fn law_number_is_read_in_its_place(before: Seq<u8>, n: u32, m: u16, after: Seq<u8>)
    ensures
        read32(before + octets32(n) + after, before.len() as int) == n,
        read16(before + octets16(m) + after, before.len() as int) == m,
{
    let k = before.len() as int;
    let s = before + octets32(n) + after;
    let t = before + octets16(m) + after;
    assert(s[k] == octets32(n)[0] && s[k + 1] == octets32(n)[1] && s[k + 2] == octets32(n)[2] && s[k
        + 3] == octets32(n)[3]);
    assert(t[k] == octets16(m)[0] && t[k + 1] == octets16(m)[1]);
    law_octets_spell_address(n);
    law_octets_spell_half(m);
}

} // verus!
