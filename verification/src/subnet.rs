//! An address together with the network it lies in.

use crate::addr;
use crate::addr::Ipv4Addr;
use crate::network;
use crate::text;
use vstd::arithmetic::power2::pow2;
use vstd::prelude::*;

verus! {

/// An address and the number of leading bits that it shares with all of its
/// network.
#[derive(Clone, Copy, Debug, PartialEq, Eq, Structural)]
pub struct Subnet {
    pub addr: Ipv4Addr,
    pub prefix_len: u8,
}

impl Subnet {
    /// An address has no more than thirty-two leading bits.
    pub open spec fn wf(self) -> bool {
        self.prefix_len <= 32
    }

    /// How many addresses the network has.
    pub open spec fn size(self) -> int {
        pow2((32 - self.prefix_len) as nat) as int
    }

    /// The lowest address of the network.
    pub open spec fn first(self) -> int {
        self.addr.bits - self.addr.bits as int % self.size()
    }

    /// The highest address of the network.
    pub open spec fn last(self) -> int {
        self.first() + self.size() - 1
    }

    /// The number that the network mask spells: ones in front, as many zeros
    /// behind as the network has bits left.
    pub open spec fn mask(self) -> int {
        0x1_0000_0000 - self.size()
    }

    /// The lowest address that a host may have: the network's own address is
    /// left out where there is room.
    pub open spec fn first_host(self) -> int {
        if self.prefix_len < 31 {
            self.first() + 1
        } else {
            self.first()
        }
    }

    /// The highest address that a host may have: the broadcast address is left
    /// out where there is room.
    pub open spec fn last_host(self) -> int {
        if self.prefix_len < 31 {
            self.last() - 1
        } else {
            self.last()
        }
    }

    /// Whether the address lies in the network.
    pub open spec fn holds(self, ip: Ipv4Addr) -> bool {
        self.first() <= ip.bits <= self.last()
    }

    /// Whether the address is one that a host of the network may have.
    pub open spec fn is_host(self, ip: Ipv4Addr) -> bool {
        self.first_host() <= ip.bits <= self.last_host()
    }
}

impl Subnet {
    /// The network that a text such as `192.168.1.1/24` gives, if it gives one.
    pub fn parse(text: &str) -> (r: Option<Subnet>)
        ensures
            r == written_net(text@),
            r matches Some(net) ==> net.wf(),
    {
        parse_net(text)
    }

    /// The network mask.
    pub fn netmask(&self) -> (r: Ipv4Addr)
        requires
            self.wf(),
        ensures
            r.bits == self.mask(),
    {
        netmask(*self)
    }
}

/// Whether a text is a number below `upto`, written in up to `most` decimal
/// digits.
pub open spec fn is_number(s: Seq<char>, most: int, upto: int) -> bool {
    &&& 1 <= s.len() <= most
    &&& forall|i: int| 0 <= i < s.len() ==> network::is_digit(#[trigger] s[i])
    &&& network::decimal(s) < upto
}

/// The network that a text gives: four numbers below 256 with dots between them,
/// each of up to three digits, then a slash and a prefix length up to thirty-two,
/// of up to two digits.
pub open spec fn written_net(s: Seq<char>) -> Option<Subnet> {
    let halves = text::pieces(s, '/');
    let octets = text::pieces(halves[0], '.');
    if halves.len() == 2 && octets.len() == 4 && is_number(octets[0], 3, 256) && is_number(
        octets[1],
        3,
        256,
    ) && is_number(octets[2], 3, 256) && is_number(octets[3], 3, 256) && is_number(
        halves[1],
        2,
        33,
    ) {
        Some(
            Subnet {
                addr: Ipv4Addr {
                    bits: addr::be32(
                        network::decimal(octets[0]) as u8,
                        network::decimal(octets[1]) as u8,
                        network::decimal(octets[2]) as u8,
                        network::decimal(octets[3]) as u8,
                    ) as u32,
                },
                prefix_len: network::decimal(halves[1]) as u8,
            },
        )
    } else {
        None
    }
}

/// `<ipnet::Ipv4Net as FromStr>::from_str`. It reads an address of four decimal
/// numbers, a slash and a decimal prefix length, and nothing else; leading zeros
/// count as digits.
#[verifier::external_body]
fn parse_net(text: &str) -> (r: Option<Subnet>)
    ensures
        r == written_net(text@),
{
    let net: ipnet::Ipv4Net = text.parse().ok()?;
    Some(Subnet { addr: Ipv4Addr { bits: net.addr().into() }, prefix_len: net.prefix_len() })
}

/// `ipnet::Ipv4Net::netmask`: as many ones as the prefix is long, then zeros.
#[verifier::external_body]
fn netmask(net: Subnet) -> (r: Ipv4Addr)
    requires
        net.wf(),
    ensures
        r.bits == net.mask(),
{
    let net = ipnet::Ipv4Net::new(net.addr.bits.into(), net.prefix_len).unwrap();
    Ipv4Addr { bits: net.netmask().into() }
}

/// `ipnet::Ipv4Net::network`: the address with its host bits cleared.
#[verifier::external_body]
pub(crate) fn network(net: Subnet) -> (r: Ipv4Addr)
    requires
        net.wf(),
    ensures
        r.bits == net.first(),
{
    let net = ipnet::Ipv4Net::new(net.addr.bits.into(), net.prefix_len).unwrap();
    Ipv4Addr { bits: net.network().into() }
}

/// `ipnet::Ipv4Net::broadcast`: the address with its host bits set.
#[verifier::external_body]
pub(crate) fn broadcast(net: Subnet) -> (r: Ipv4Addr)
    requires
        net.wf(),
    ensures
        r.bits == net.last(),
{
    let net = ipnet::Ipv4Net::new(net.addr.bits.into(), net.prefix_len).unwrap();
    Ipv4Addr { bits: net.broadcast().into() }
}

/// `ipnet::Ipv4Net::contains` for an address: whether it lies between the
/// network address and the broadcast address.
#[verifier::external_body]
pub(crate) fn contains(net: Subnet, ip: Ipv4Addr) -> (r: bool)
    requires
        net.wf(),
    ensures
        r == net.holds(ip),
{
    let net = ipnet::Ipv4Net::new(net.addr.bits.into(), net.prefix_len).unwrap();
    let host = ipnet::Ipv4Net::new(ip.bits.into(), 32).unwrap();
    net.contains(&host.addr())
}

/// The `n`th of `ipnet::Ipv4Net::hosts`, counted from zero: the hosts come in
/// rising order without a gap.
#[verifier::external_body]
pub(crate) fn host_at(net: Subnet, n: usize) -> (r: Option<Ipv4Addr>)
    requires
        net.wf(),
    ensures
        r is Some <==> net.first_host() + n <= net.last_host(),
        r matches Some(ip) ==> ip.bits == net.first_host() + n,
{
    let net = ipnet::Ipv4Net::new(net.addr.bits.into(), net.prefix_len).unwrap();
    let ip = net.hosts().nth(n)?;
    Some(Ipv4Addr { bits: ip.into() })
}

/// A network is not empty, lies within the 32-bit addresses and holds the
/// address that it was made from.
pub proof fn law_subnet_bounds(net: Subnet)
    requires
        net.wf(),
    ensures
        1 <= net.size() <= 0x1_0000_0000,
        0 <= net.first() <= net.addr.bits <= net.last() <= 0xffff_ffff,
        net.holds(net.addr),
        net.prefix_len < 31 ==> net.size() >= 4,
        net.prefix_len >= 31 ==> net.size() <= 2,
{
    use_pow2(net.prefix_len);
    let size = net.size();
    let a = net.addr.bits as int;
    vstd::arithmetic::div_mod::lemma_fundamental_div_mod(a, size);
    vstd::arithmetic::div_mod::lemma_mod_bound(a, size);
    let q = a / size;
    let rest = pow2(net.prefix_len as nat) as int;
    assert(net.first() == size * q);
    assert(size * rest == 0x1_0000_0000);
    assert(q < rest) by (nonlinear_arith)
        requires
            size * q <= a,
            a < 0x1_0000_0000,
            size * rest == 0x1_0000_0000,
            size > 0,
    ;
    assert(size * q + size <= size * rest) by (nonlinear_arith)
        requires
            q < rest,
            size > 0,
    ;
}

proof fn use_pow2(prefix_len: u8)
    requires
        prefix_len <= 32,
    ensures
        pow2((32 - prefix_len) as nat) * pow2(prefix_len as nat) == 0x1_0000_0000,
        1 <= pow2((32 - prefix_len) as nat) <= 0x1_0000_0000,
        prefix_len < 31 ==> pow2((32 - prefix_len) as nat) >= 4,
        prefix_len >= 31 ==> pow2((32 - prefix_len) as nat) <= 2,
{
    vstd::arithmetic::power2::lemma2_to64();
    vstd::arithmetic::power2::lemma_pow2_adds((32 - prefix_len) as nat, prefix_len as nat);
    vstd::arithmetic::power2::lemma_pow2_pos((32 - prefix_len) as nat);
    vstd::arithmetic::power2::lemma_pow2_pos(prefix_len as nat);
    if prefix_len > 0 {
        vstd::arithmetic::power2::lemma_pow2_strictly_increases((32 - prefix_len) as nat, 32);
    }
    if prefix_len < 30 {
        vstd::arithmetic::power2::lemma_pow2_strictly_increases(2, (32 - prefix_len) as nat);
    }
}

/// Whether a text is a decimal number of up to so many digits that is no larger
/// than another.
spec fn spells(s: Seq<char>, most: int, upto: int) -> bool {
    &&& 1 <= s.len() <= most
    &&& forall|i: int| 0 <= i < s.len() ==> '0' <= #[trigger] s[i] <= '9'
    &&& network::decimal(s) <= upto
}

/// The address and the prefix length of a network are those that its text spells:
/// of `a.b.c.d/p` the address has the octets `a`, `b`, `c` and `d`, first to last,
/// and the prefix is `p` bits long.
pub proof fn law_text_spells_network(
    a: Seq<char>,
    b: Seq<char>,
    c: Seq<char>,
    d: Seq<char>,
    p: Seq<char>,
)
    requires
        1 <= a.len() <= 3 && 1 <= b.len() <= 3 && 1 <= c.len() <= 3 && 1 <= d.len() <= 3,
        1 <= p.len() <= 2,
        forall|i: int| 0 <= i < a.len() ==> '0' <= #[trigger] a[i] <= '9',
        forall|i: int| 0 <= i < b.len() ==> '0' <= #[trigger] b[i] <= '9',
        forall|i: int| 0 <= i < c.len() ==> '0' <= #[trigger] c[i] <= '9',
        forall|i: int| 0 <= i < d.len() ==> '0' <= #[trigger] d[i] <= '9',
        forall|i: int| 0 <= i < p.len() ==> '0' <= #[trigger] p[i] <= '9',
        network::decimal(a) <= 255 && network::decimal(b) <= 255,
        network::decimal(c) <= 255 && network::decimal(d) <= 255,
        network::decimal(p) <= 32,
    ensures
        written_net(a + seq!['.'] + b + seq!['.'] + c + seq!['.'] + d + seq!['/'] + p) matches Some(
            net,
        ) && {
            &&& net.prefix_len == network::decimal(p)
            &&& net.addr.bits == ((network::decimal(a) * 256 + network::decimal(b)) * 256
                + network::decimal(c)) * 256 + network::decimal(d)
        },
{
    let address = a + seq!['.'] + b + seq!['.'] + c + seq!['.'] + d;
    let whole = a + seq!['.'] + b + seq!['.'] + c + seq!['.'] + d + seq!['/'] + p;
    assert(whole =~= address + seq!['/'] + p);
    assert(!a.contains('.') && !b.contains('.') && !c.contains('.') && !d.contains('.'));
    assert(!p.contains('/'));
    assert(!address.contains('/')) by {
        if address.contains('/') {
            let k = choose|k: int| 0 <= k < address.len() && address[k] == '/';
            let n1 = a.len() as int;
            let n2 = n1 + 1 + b.len();
            let n3 = n2 + 1 + c.len();
            if k < n1 {
                assert(address[k] == a[k]);
            } else if n1 < k < n2 {
                assert(address[k] == b[k - n1 - 1]);
            } else if n2 < k < n3 {
                assert(address[k] == c[k - n2 - 1]);
            } else if n3 < k {
                assert(address[k] == d[k - n3 - 1]);
            }
        }
    }
    text::law_text_is_cut_at_each(address, p, '/');
    text::law_text_is_cut_at_each(p, p, '/');
    assert(text::pieces(whole, '/') =~= seq![address, p]);
    let cd = c + seq!['.'] + d;
    let bcd = b + seq!['.'] + cd;
    assert(address =~= a + seq!['.'] + bcd);
    text::law_text_is_cut_at_each(a, bcd, '.');
    text::law_text_is_cut_at_each(b, cd, '.');
    text::law_text_is_cut_at_each(c, d, '.');
    text::law_text_is_cut_at_each(d, d, '.');
    assert(text::pieces(address, '.') =~= seq![a, b, c, d]);
    lemma_is_number(a, 3, 256);
    lemma_is_number(b, 3, 256);
    lemma_is_number(c, 3, 256);
    lemma_is_number(d, 3, 256);
    lemma_is_number(p, 2, 33);
}

proof fn lemma_is_number(s: Seq<char>, most: int, upto: int)
    ensures
        is_number(s, most, upto) <==> spells(s, most, upto - 1),
{
    if spells(s, most, upto - 1) {
        assert forall|i: int| 0 <= i < s.len() implies network::is_digit(#[trigger] s[i]) by {}
    }
    if is_number(s, most, upto) {
        assert forall|i: int| 0 <= i < s.len() implies '0' <= #[trigger] s[i] <= '9' by {
            assert(network::is_digit(s[i]));
        }
    }
}

/// A text that gives a network is four decimal numbers up to 255 with dots between
/// them, a slash and a decimal number up to 32, and nothing besides; these are the
/// octets of its address and its prefix length.
pub proof fn law_only_such_text_spells_network(s: Seq<char>)
    requires
        written_net(s) is Some,
    ensures
        exists|a: Seq<char>, b: Seq<char>, c: Seq<char>, d: Seq<char>, p: Seq<char>|
            {
                let net = written_net(s)->Some_0;
                &&& s == #[trigger] (a + seq!['.'] + b + seq!['.'] + c + seq!['.'] + d + seq!['/']
                    + p)
                &&& 1 <= a.len() <= 3 && 1 <= b.len() <= 3 && 1 <= c.len() <= 3 && 1 <= d.len() <= 3
                &&& 1 <= p.len() <= 2
                &&& forall|i: int| 0 <= i < s.len() ==> '0' <= #[trigger] s[i] <= '9' || s[i] == '.'
                    || s[i] == '/'
                &&& network::decimal(p) == net.prefix_len <= 32
                &&& addr::octets32(net.addr.bits) == seq![
                    network::decimal(a) as u8,
                    network::decimal(b) as u8,
                    network::decimal(c) as u8,
                    network::decimal(d) as u8,
                ]
                &&& network::decimal(a) <= 255 && network::decimal(b) <= 255
                &&& network::decimal(c) <= 255 && network::decimal(d) <= 255
            },
{
    let halves = text::pieces(s, '/');
    let address = halves[0];
    let p = halves[1];
    lemma_two_pieces(s, '/');
    assert(s == address + seq!['/'] + p);
    let octets = text::pieces(address, '.');
    let (a, b, c, d) = (octets[0], octets[1], octets[2], octets[3]);
    lemma_four_pieces(address, '.');
    assert(s =~= a + seq!['.'] + b + seq!['.'] + c + seq!['.'] + d + seq!['/'] + p);
    lemma_is_number(a, 3, 256);
    lemma_is_number(b, 3, 256);
    lemma_is_number(c, 3, 256);
    lemma_is_number(d, 3, 256);
    lemma_is_number(p, 2, 33);
    let n1 = a.len() as int;
    let n2 = n1 + 1 + b.len();
    let n3 = n2 + 1 + c.len();
    let n4 = n3 + 1 + d.len();
    assert forall|k: int| 0 <= k < s.len() implies '0' <= #[trigger] s[k] <= '9' || s[k] == '.'
        || s[k] == '/' by {
        if k < n1 {
            assert(s[k] == a[k]);
        } else if n1 < k < n2 {
            assert(s[k] == b[k - n1 - 1]);
        } else if n2 < k < n3 {
            assert(s[k] == c[k - n2 - 1]);
        } else if n3 < k < n4 {
            assert(s[k] == d[k - n3 - 1]);
        } else if n4 < k {
            assert(s[k] == p[k - n4 - 1]);
        }
    }
    addr::law_first_octet_counts_most(
        network::decimal(a) as u8,
        network::decimal(b) as u8,
        network::decimal(c) as u8,
        network::decimal(d) as u8,
    );
}

proof fn lemma_first_piece(s: Seq<char>, c: char)
    ensures
        ({
            let parts = text::pieces(s, c);
            &&& parts.len() >= 1
            &&& parts.len() == 1 ==> s == parts[0]
            &&& parts.len() > 1 ==> {
                let rest = s.skip(parts[0].len() as int + 1);
                s == parts[0] + seq![c] + rest && text::pieces(rest, c) == parts.skip(1)
            }
        }),
{
    text::lemma_find(s, c);
    text::lemma_pieces_nonempty(s, c);
    let n = text::find(s, c) as int;
    if n < s.len() {
        let rest = s.skip(n + 1);
        text::lemma_pieces_nonempty(rest, c);
        assert(text::pieces(s, c) == seq![s.take(n)] + text::pieces(rest, c));
        assert(text::pieces(s, c).skip(1) =~= text::pieces(rest, c));
        assert(s =~= s.take(n) + seq![c] + rest);
    }
}

proof fn lemma_two_pieces(s: Seq<char>, c: char)
    requires
        text::pieces(s, c).len() == 2,
    ensures
        s == text::pieces(s, c)[0] + seq![c] + text::pieces(s, c)[1],
{
    let parts = text::pieces(s, c);
    lemma_first_piece(s, c);
    lemma_first_piece(s.skip(parts[0].len() as int + 1), c);
}

proof fn lemma_four_pieces(s: Seq<char>, c: char)
    requires
        text::pieces(s, c).len() == 4,
    ensures
        ({
            let parts = text::pieces(s, c);
            s == parts[0] + seq![c] + (parts[1] + seq![c] + (parts[2] + seq![c] + parts[3]))
        }),
{
    let parts = text::pieces(s, c);
    lemma_first_piece(s, c);
    let rest = s.skip(parts[0].len() as int + 1);
    lemma_first_piece(rest, c);
    lemma_two_pieces(rest.skip(parts[1].len() as int + 1), c);
    assert(parts.skip(1).skip(1) =~= seq![parts[2], parts[3]]);
}

/// A network is made of the addresses that have its leading bits, as many as its
/// prefix is long. The lowest has zeros behind them and the highest ones, and so
/// the mask has ones in front and zeros behind. But for networks of two addresses
/// or one, neither of the two ends is a host's.
pub proof fn law_network_has_leading_bits(net: Subnet, ip: Ipv4Addr)
    requires
        net.prefix_len <= 32,
    ensures
        ({
            let size = pow2((32 - net.prefix_len) as nat) as int;
            &&& net.holds(ip) <==> ip.bits as int / size == net.addr.bits as int / size
            &&& net.first() == net.addr.bits as int / size * size
            &&& net.last() == net.addr.bits as int / size * size + size - 1
            &&& net.mask() + size == 0x1_0000_0000
            &&& net.prefix_len <= 30 ==> (net.is_host(ip) <==> net.holds(ip) && ip.bits
                != net.first() && ip.bits != net.last())
            &&& net.prefix_len >= 31 ==> (net.is_host(ip) <==> net.holds(ip))
        }),
{
    law_subnet_bounds(net);
    let size = net.size();
    let (a, b) = (net.addr.bits as int, ip.bits as int);
    vstd::arithmetic::div_mod::lemma_fundamental_div_mod(a, size);
    vstd::arithmetic::div_mod::lemma_fundamental_div_mod(b, size);
    vstd::arithmetic::div_mod::lemma_mod_bound(a, size);
    vstd::arithmetic::div_mod::lemma_mod_bound(b, size);
    let (q, r) = (a / size, b / size);
    assert(q * size == size * q && r * size == size * r) by (nonlinear_arith);
    assert(net.first() == q * size);
    if net.holds(ip) {
        assert(r == q) by (nonlinear_arith)
            requires
                q * size <= b < q * size + size,
                r * size <= b < r * size + size,
                size > 0,
        ;
    }
}

} // verus!
