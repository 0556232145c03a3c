//! How the router's interfaces are set up.

use crate::text;
use vstd::prelude::*;

verus! {

/// The prefix length of an address for which none is given.
pub const DEFAULT_PREFIX_LEN: u8 = 24;

/// What is to be done with an interface: its link is set up, and it gets an
/// address where there is one.
pub struct InterfaceSetup {
    pub name: String,
    pub cidr: Option<String>,
    /// Whether a failure ends the whole setup.
    pub required: bool,
}

/// The content of an `InterfaceSetup`.
pub type SetupView = (Seq<char>, Option<Seq<char>>, bool);

impl DeepView for InterfaceSetup {
    type V = SetupView;

    open spec fn deep_view(&self) -> SetupView {
        (
            self.name@,
            match self.cidr {
                Some(cidr) => Some(cidr@),
                None => None,
            },
            self.required,
        )
    }
}

/// What is done with the interfaces, in order: the loopback, whose failure is
/// borne, then the inner one with its address, then the outer one.
pub open spec fn setup_steps(wan: Seq<char>, lan: Seq<char>, lan_cidr: Seq<char>) -> Seq<
    SetupView,
> {
    seq![("lo"@, None, false), (lan, Some(lan_cidr), true), (wan, None, true)]
}

/// What is done with the interfaces, in order.
pub fn configure_network(wan_iface: &str, lan_iface: &str, lan_ip_cidr: &str) -> (r: Vec<
    InterfaceSetup,
>)
    ensures
        r.deep_view() == setup_steps(wan_iface@, lan_iface@, lan_ip_cidr@),
{
    let r = vec![
        InterfaceSetup { name: "lo".to_owned(), cidr: None, required: false },
        InterfaceSetup {
            name: lan_iface.to_owned(),
            cidr: Some(lan_ip_cidr.to_owned()),
            required: true,
        },
        InterfaceSetup { name: wan_iface.to_owned(), cidr: None, required: true },
    ];
    assert(r.deep_view() =~= setup_steps(wan_iface@, lan_iface@, lan_ip_cidr@));
    r
}

/// Whether the character is a decimal digit.
pub open spec fn is_digit(c: char) -> bool {
    '0' <= c && c <= '9'
}

/// The number that a row of decimal digits spells.
pub open spec fn decimal(digits: Seq<char>) -> nat
    decreases digits.len(),
{
    if digits.len() == 0 {
        0
    } else {
        decimal(digits.drop_last()) * 10 + (digits.last() as nat - '0' as nat) as nat
    }
}

/// The digits of a number, which may stand behind a plus sign.
pub open spec fn digits_of(s: Seq<char>) -> Seq<char> {
    if s.len() > 0 && s[0] == '+' {
        s.skip(1)
    } else {
        s
    }
}

/// The number from 0 to 255 that a text spells, if it spells one: one or more
/// digits, which may stand behind a plus sign.
pub open spec fn octet_of(s: Seq<char>) -> Option<u8> {
    let digits = digits_of(s);
    if digits.len() > 0 && (forall|i: int| 0 <= i < digits.len() ==> is_digit(#[trigger] digits[i]))
        && decimal(digits) <= 255 {
        Some(decimal(digits) as u8)
    } else {
        None
    }
}

proof fn lemma_decimal_rises(digits: Seq<char>, n: int)
    requires
        0 <= n <= digits.len(),
        forall|i: int| 0 <= i < digits.len() ==> is_digit(#[trigger] digits[i]),
    ensures
        decimal(digits.take(n)) <= decimal(digits),
    decreases digits.len() - n,
{
    if n == digits.len() {
        assert(digits.take(n) =~= digits);
    } else {
        lemma_decimal_rises(digits, n + 1);
        let more = digits.take(n + 1);
        assert(more.drop_last() =~= digits.take(n));
        assert(is_digit(digits[n]));
        assert(more.last() == digits[n]);
    }
}

/// The number from 0 to 255 that a text spells, as `u8`'s own parser reads it.
pub fn parse_octet(s: &str) -> (r: Option<u8>)
    ensures
        r == octet_of(s@),
{
    let chars = text::to_chars(s);
    let start: usize = if chars.len() > 0 && chars[0] == '+' {
        1
    } else {
        0
    };
    let ghost digits = digits_of(s@);
    assert(digits =~= chars@.skip(start as int));
    if chars.len() == start {
        return None;
    }
    let mut value: u32 = 0;
    let mut i: usize = start;
    while i < chars.len()
        invariant
            start <= i <= chars.len(),
            digits == chars@.skip(start as int),
            digits == digits_of(s@),
            forall|k: int| 0 <= k < i - start ==> is_digit(#[trigger] digits[k]),
            value == decimal(digits.take(i - start)),
            value <= 255,
        decreases chars.len() - i,
    {
        let c = chars[i];
        let ghost n = i - start;
        assert(digits[n] == c);
        if c < '0' || c > '9' {
            assert(!is_digit(digits[n]));
            return None;
        }
        proof {
            let more = digits.take(n + 1);
            assert(more.drop_last() =~= digits.take(n));
            assert(more.last() == c);
        }
        value = value * 10 + (c as u32 - '0' as u32);
        if value > 255 {
            proof {
                if forall|k: int| 0 <= k < digits.len() ==> is_digit(#[trigger] digits[k]) {
                    lemma_decimal_rises(digits, n + 1);
                }
            }
            return None;
        }
        i += 1;
    }
    assert(digits.take(i - start) =~= digits);
    Some(value as u8)
}

/// Why an address with a prefix length cannot be taken apart.
#[derive(Clone, Copy, Debug, PartialEq, Eq, Structural)]
pub enum CidrError {
    /// What follows the slash is no number from 0 to 255.
    InvalidPrefix,
}

/// An address, as text, and its prefix length.
pub struct Cidr {
    pub ip: String,
    pub prefix_len: u8,
}

/// The text in front of the first slash of an address with a prefix length, and
/// the number between the first slash and the next; a prefix length that is not
/// given at all is filled in.
pub open spec fn cidr_of(cidr: Seq<char>) -> Option<(Seq<char>, u8)> {
    let parts = text::pieces(cidr, '/');
    if parts.len() > 1 {
        match octet_of(parts[1]) {
            Some(prefix_len) => Some((parts[0], prefix_len)),
            None => None,
        }
    } else {
        Some((parts[0], DEFAULT_PREFIX_LEN))
    }
}

/// Takes an address with a prefix length apart.
pub fn split_cidr(cidr: &str) -> (r: Result<Cidr, CidrError>)
    ensures
        (match cidr_of(cidr@) {
            Some((ip, prefix_len)) => r matches Ok(c) && c.ip@ == ip && c.prefix_len == prefix_len,
            None => r is Err,
        }),
{
    let parts = text::split(cidr, '/');
    let ghost all = parts.deep_view();
    proof {
        text::lemma_pieces_nonempty(cidr@, '/');
        assert(all.len() == parts.len());
        assert(all[0] == parts[0]@);
    }
    let prefix_len: u8 = if parts.len() > 1 {
        assert(all[1] == parts[1]@);
        match parse_octet(parts[1].as_str()) {
            Some(n) => n,
            None => {
                return Err(CidrError::InvalidPrefix);
            },
        }
    } else {
        DEFAULT_PREFIX_LEN
    };
    Ok(Cidr { ip: parts[0].as_str().to_owned(), prefix_len })
}

/// The number that decimal digits spell: a digit behind others adds its own value
/// to ten times theirs.
pub proof fn law_digit_counts_for_its_place(digits: Seq<char>, digit: char)
    requires
        '0' <= digit <= '9',
    ensures
        decimal(Seq::empty()) == 0,
        decimal(digits.push(digit)) == 10 * decimal(digits) + (digit as int - '0' as int),
        is_digit(digit),
{
    assert(digits.push(digit).drop_last() =~= digits);
}

/// Which texts spell a number from 0 to 255, and which number: those of one or
/// more decimal digits, with or without a plus sign in front, that do not come to
/// more.
pub proof fn law_digits_spell_octet(digits: Seq<char>, n: u8)
    requires
        digits.len() > 0,
        digits[0] != '+',
    ensures
        octet_of(digits) == Some(n) <==> (forall|i: int|
            0 <= i < digits.len() ==> '0' <= #[trigger] digits[i] <= '9') && decimal(digits) == n,
        octet_of(seq!['+'] + digits) == octet_of(digits),
        octet_of(Seq::empty()) is None,
        octet_of(seq!['+']) is None,
        octet_of(seq!['+', '+'] + digits) is None,
{
    let twice = seq!['+', '+'] + digits;
    assert(digits_of(twice)[0] == '+');
    assert(!is_digit(digits_of(twice)[0]));
    let signed = seq!['+'] + digits;
    assert(signed.skip(1) =~= digits);
    assert(seq!['+'].skip(1).len() == 0);
    if forall|i: int| 0 <= i < digits.len() ==> '0' <= #[trigger] digits[i] <= '9' {
        assert forall|i: int| 0 <= i < digits.len() implies is_digit(#[trigger] digits[i]) by {}
    }
    if forall|i: int| 0 <= i < digits.len() ==> is_digit(#[trigger] digits[i]) {
        assert forall|i: int| 0 <= i < digits.len() implies '0' <= #[trigger] digits[i] <= '9' by {
            assert(is_digit(digits[i]));
        }
    }
}

/// An address with a prefix length: the text in front of the first slash, and the
/// number behind it up to the next slash; 24 where there is no slash. Where the
/// text behind the slash is no number from 0 to 255 there is no result.
pub proof fn law_slash_parts_address_and_prefix(
    ip: Seq<char>,
    prefix: Seq<char>,
    rest: Seq<char>,
)
    requires
        !ip.contains('/'),
        !prefix.contains('/'),
    ensures
        cidr_of(ip) == Some((ip, 24u8)),
        octet_of(prefix) matches Some(n) ==> cidr_of(ip + seq!['/'] + prefix) == Some((ip, n))
            && cidr_of(ip + seq!['/'] + prefix + seq!['/'] + rest) == Some((ip, n)),
        octet_of(prefix) is None ==> cidr_of(ip + seq!['/'] + prefix) is None && cidr_of(
            ip + seq!['/'] + prefix + seq!['/'] + rest,
        ) is None,
{
    text::law_text_is_cut_at_each(ip, prefix, '/');
    text::law_text_is_cut_at_each(prefix, rest, '/');
    text::law_text_is_cut_at_each(ip, prefix + seq!['/'] + rest, '/');
    assert(ip + seq!['/'] + prefix + seq!['/'] + rest =~= ip + seq!['/'] + (prefix + seq!['/']
        + rest));
    let short = text::pieces(ip + seq!['/'] + prefix, '/');
    let long = text::pieces(ip + seq!['/'] + prefix + seq!['/'] + rest, '/');
    assert(short =~= seq![ip, prefix]);
    assert(long =~= seq![ip] + (seq![prefix] + text::pieces(rest, '/')));
    assert(long[0] == ip && long[1] == prefix && long.len() > 1);
}

/// What is done with the interfaces: the loopback comes first and the outer
/// interface last; only the inner one gets an address, the one that is given;
/// only the loopback may fail.
pub proof fn law_only_inner_interface_gets_address(
    wan: Seq<char>,
    lan: Seq<char>,
    lan_cidr: Seq<char>,
)
    ensures
        ({
            let steps = setup_steps(wan, lan, lan_cidr);
            &&& steps.len() == 3
            &&& steps[0].0 == seq!['l', 'o']
            &&& steps[1].0 == lan
            &&& steps[2].0 == wan
            &&& forall|i: int|
                0 <= i < 3 ==> (#[trigger] steps[i]).1 == (if i == 1 {
                    Some(lan_cidr)
                } else {
                    None
                })
            &&& forall|i: int| 0 <= i < 3 ==> (#[trigger] steps[i]).2 == (i != 0)
        }),
{
    reveal_strlit("lo");
    assert("lo"@ =~= seq!['l', 'o']);
}

/// The content of a setup is what its fields hold.
pub proof fn law_content_is_of_setup(setup: InterfaceSetup)
    ensures
        setup.deep_view().0 == setup.name@,
        setup.cidr matches Some(cidr) ==> setup.deep_view().1 == Some(cidr@),
        setup.cidr is None ==> setup.deep_view().1 is None,
        setup.deep_view().2 == setup.required,
{
}

} // verus!
