//! DHCP messages: what the router writes into them and reads out of them.
//!
//! The options of a message are held by `dhcproto`. In contracts they are a map
//! from an option's code to the octets of its data.

use crate::addr;
use crate::addr::Ipv4Addr;
use dhcproto::v4::{DhcpOption, DhcpOptions, Message, OptionCode};
use dhcproto::{Decodable, Decoder, Encodable, Encoder};
use vstd::prelude::*;
use vstd::slice::slice_subrange;

verus! {

/// The UDP port of a DHCP server.
pub const SERVER_PORT: u16 = 67;

/// The UDP port of a DHCP client.
pub const CLIENT_PORT: u16 = 68;

/// The operation of a message from a client.
pub const BOOT_REQUEST: u8 = 1;

/// The operation of a message from a server.
pub const BOOT_REPLY: u8 = 2;

/// The flag by which a client asks for replies to all.
pub const FLAG_BROADCAST: u16 = 0x8000;

/// The kinds of message, as the message type option numbers them.
pub const DISCOVER: u8 = 1;

pub const OFFER: u8 = 2;

pub const REQUEST: u8 = 3;

pub const DECLINE: u8 = 4;

pub const ACK: u8 = 5;

pub const NAK: u8 = 6;

pub const RELEASE: u8 = 7;

/// The codes of the options.
pub const OPT_SUBNET_MASK: u8 = 1;

pub const OPT_ROUTER: u8 = 3;

pub const OPT_DNS: u8 = 6;

pub const OPT_REQUESTED_IP: u8 = 50;

pub const OPT_LEASE_TIME: u8 = 51;

pub const OPT_MESSAGE_TYPE: u8 = 53;

pub const OPT_SERVER_ID: u8 = 54;

pub const OPT_PARAMETERS: u8 = 55;

pub const OPT_RAPID_COMMIT: u8 = 80;

pub const OPT_CLIENT_FQDN: u8 = 81;

pub const OPT_NETWORK_INTERFACE: u8 = 94;

/// The first and the last of the four options that hold a time of a query for
/// leases.
pub const OPT_FIRST_QUERY_TIME: u8 = 152;

pub const OPT_LAST_QUERY_TIME: u8 = 155;

/// What fills up the space between options.
pub const OPT_PAD: u8 = 0;

/// What ends the options of a message.
pub const OPT_END: u8 = 255;

/// The length of a message without its options.
pub const FIXED_LEN: usize = 240;

/// The options of a message.
#[verifier::external_type_specification]
#[verifier::external_body]
pub struct ExDhcpOptions(dhcproto::v4::DhcpOptions);

/// What a set of options holds: under each code the octets with which the data
/// of that option is written into a message.
pub uninterp spec fn options_of(opts: DhcpOptions) -> Map<u8, Seq<u8>>;

/// What `dhcproto` reads from a message for its options, in the form of
/// `options_of`.
pub uninterp spec fn decoded_options(payload: Seq<u8>) -> Map<u8, Seq<u8>>;

/// The options whose data is one address.
#[derive(Clone, Copy, Debug, PartialEq, Eq, Structural)]
pub enum AddressOption {
    SubnetMask,
    RequestedIp,
    ServerIdentifier,
}

impl AddressOption {
    /// The option's code.
    pub open spec fn code(self) -> u8 {
        match self {
            AddressOption::SubnetMask => OPT_SUBNET_MASK,
            AddressOption::RequestedIp => OPT_REQUESTED_IP,
            AddressOption::ServerIdentifier => OPT_SERVER_ID,
        }
    }
}

/// The options whose data is a list of addresses.
#[derive(Clone, Copy, Debug, PartialEq, Eq, Structural)]
pub enum AddressListOption {
    Router,
    DomainNameServer,
}

impl AddressListOption {
    /// The option's code.
    pub open spec fn code(self) -> u8 {
        match self {
            AddressListOption::Router => OPT_ROUTER,
            AddressListOption::DomainNameServer => OPT_DNS,
        }
    }
}

/// The octets of a list of addresses, one address behind the other.
pub open spec fn address_octets(ips: Seq<Ipv4Addr>) -> Seq<u8> {
    Seq::new(4 * ips.len(), |i: int| addr::octets32(ips[i / 4].bits)[i % 4])
}

/// The addresses that a row of octets spells.
pub open spec fn addresses_in(data: Seq<u8>) -> Seq<Ipv4Addr> {
    Seq::new(data.len() / 4, |i: int| Ipv4Addr { bits: addr::read32(data, 4 * i) as u32 })
}

/// The octets of a list of addresses spell that list.
pub proof fn law_address_octets_spell_list(ips: Seq<Ipv4Addr>)
    ensures
        addresses_in(address_octets(ips)) == ips,
{
    let data = address_octets(ips);
    assert forall|i: int| 0 <= i < ips.len() implies #[trigger] addresses_in(data)[i] == ips[i] by {
        let n = ips[i].bits;
        addr::law_octets_spell_address(n);
        assert(data[4 * i] == addr::octets32(n)[0]);
        assert(data[4 * i + 1] == addr::octets32(n)[1]);
        assert(data[4 * i + 2] == addr::octets32(n)[2]);
        assert(data[4 * i + 3] == addr::octets32(n)[3]);
    }
    assert(addresses_in(data) =~= ips);
}

/// The empty set of options.
pub open spec fn no_options() -> Map<u8, Seq<u8>> {
    Map::empty()
}

/// `dhcproto::v4::DhcpOptions::new`: no options.
#[verifier::external_body]
pub(crate) fn new_options() -> (r: DhcpOptions)
    ensures
        options_of(r) == no_options(),
{
    DhcpOptions::new()
}

/// `dhcproto::v4::DhcpOptions::insert` of a message type, which takes the place
/// of one that is there.
#[verifier::external_body]
pub(crate) fn insert_message_type(opts: &mut DhcpOptions, kind: u8)
    ensures
        options_of(*final(opts)) == options_of(*old(opts)).insert(OPT_MESSAGE_TYPE, seq![kind]),
{
    opts.insert(DhcpOption::MessageType(kind.into()));
}

/// `dhcproto::v4::DhcpOptions::insert` of an option with one address, which
/// takes the place of one of the same code.
#[verifier::external_body]
pub(crate) fn insert_address(opts: &mut DhcpOptions, option: AddressOption, ip: Ipv4Addr)
    ensures
        options_of(*final(opts)) == options_of(*old(opts)).insert(
            option.code(),
            addr::octets32(ip.bits),
        ),
{
    opts.insert(match option {
        AddressOption::SubnetMask => DhcpOption::SubnetMask(ip.bits.into()),
        AddressOption::RequestedIp => DhcpOption::RequestedIpAddress(ip.bits.into()),
        AddressOption::ServerIdentifier => DhcpOption::ServerIdentifier(ip.bits.into()),
    });
}

/// `dhcproto::v4::DhcpOptions::insert` of an option with a list of addresses,
/// which takes the place of one of the same code.
#[verifier::external_body]
pub(crate) fn insert_addresses(
    opts: &mut DhcpOptions,
    option: AddressListOption,
    ips: Vec<Ipv4Addr>,
)
    ensures
        options_of(*final(opts)) == options_of(*old(opts)).insert(
            option.code(),
            address_octets(ips@),
        ),
{
    let list = ips.iter().map(|ip| ip.bits.into()).collect();
    opts.insert(match option {
        AddressListOption::Router => DhcpOption::Router(list),
        AddressListOption::DomainNameServer => DhcpOption::DomainNameServer(list),
    });
}

/// `dhcproto::v4::DhcpOptions::insert` of a lease time, which takes the place of
/// one that is there.
#[verifier::external_body]
pub(crate) fn insert_lease_time(opts: &mut DhcpOptions, secs: u32)
    ensures
        options_of(*final(opts)) == options_of(*old(opts)).insert(
            OPT_LEASE_TIME,
            addr::octets32(secs),
        ),
{
    opts.insert(DhcpOption::AddressLeaseTime(secs));
}

/// `dhcproto::v4::DhcpOptions::insert` of a parameter request list, which takes
/// the place of one that is there.
#[verifier::external_body]
pub(crate) fn insert_parameters(opts: &mut DhcpOptions, codes: Vec<u8>)
    ensures
        options_of(*final(opts)) == options_of(*old(opts)).insert(OPT_PARAMETERS, codes@),
{
    let list = codes.iter().map(|code| (*code).into()).collect();
    opts.insert(DhcpOption::ParameterRequestList(list));
}

/// `dhcproto::v4::DhcpOptions::get` of the message type.
#[verifier::external_body]
pub(crate) fn get_message_type(opts: &DhcpOptions) -> (r: Option<u8>)
    ensures
        r is Some <==> options_of(*opts).contains_key(OPT_MESSAGE_TYPE),
        r matches Some(kind) ==> options_of(*opts)[OPT_MESSAGE_TYPE] == seq![kind],
{
    match opts.get(OptionCode::MessageType) {
        Some(DhcpOption::MessageType(kind)) => Some((*kind).into()),
        _ => None,
    }
}

/// `dhcproto::v4::DhcpOptions::get` of an option with one address.
#[verifier::external_body]
pub(crate) fn get_address(opts: &DhcpOptions, option: AddressOption) -> (r: Option<Ipv4Addr>)
    ensures
        r is Some <==> options_of(*opts).contains_key(option.code()),
        r matches Some(ip) ==> options_of(*opts)[option.code()] == addr::octets32(ip.bits),
{
    let code = match option {
        AddressOption::SubnetMask => OptionCode::SubnetMask,
        AddressOption::RequestedIp => OptionCode::RequestedIpAddress,
        AddressOption::ServerIdentifier => OptionCode::ServerIdentifier,
    };
    match opts.get(code) {
        Some(DhcpOption::SubnetMask(ip)) => Some(Ipv4Addr { bits: (*ip).into() }),
        Some(DhcpOption::RequestedIpAddress(ip)) => Some(Ipv4Addr { bits: (*ip).into() }),
        Some(DhcpOption::ServerIdentifier(ip)) => Some(Ipv4Addr { bits: (*ip).into() }),
        _ => None,
    }
}

/// `dhcproto::v4::DhcpOptions::get` of an option with a list of addresses.
#[verifier::external_body]
pub(crate) fn get_addresses(
    opts: &DhcpOptions,
    option: AddressListOption,
) -> (r: Option<Vec<Ipv4Addr>>)
    ensures
        r is Some <==> options_of(*opts).contains_key(option.code()),
        r matches Some(ips) ==> options_of(*opts)[option.code()] == address_octets(ips@),
{
    let code = match option {
        AddressListOption::Router => OptionCode::Router,
        AddressListOption::DomainNameServer => OptionCode::DomainNameServer,
    };
    let ips = match opts.get(code) {
        Some(DhcpOption::Router(ips)) => ips,
        Some(DhcpOption::DomainNameServer(ips)) => ips,
        _ => return None,
    };
    Some(ips.iter().map(|ip| Ipv4Addr { bits: (*ip).into() }).collect())
}

/// `dhcproto::v4::DhcpOptions::get` of the lease time.
#[verifier::external_body]
pub(crate) fn get_lease_time(opts: &DhcpOptions) -> (r: Option<u32>)
    ensures
        r is Some <==> options_of(*opts).contains_key(OPT_LEASE_TIME),
        r matches Some(secs) ==> options_of(*opts)[OPT_LEASE_TIME] == addr::octets32(secs),
{
    match opts.get(OptionCode::AddressLeaseTime) {
        Some(DhcpOption::AddressLeaseTime(secs)) => Some(*secs),
        _ => None,
    }
}

/// A message as it is read: the fields that the router looks at.
pub struct DhcpMessage {
    pub opcode: u8,
    pub hlen: u8,
    pub xid: u32,
    pub flags: u16,
    pub yiaddr: Ipv4Addr,
    pub giaddr: Ipv4Addr,
    pub opts: DhcpOptions,
}

impl DhcpMessage {
    /// Whether this is the message that `payload` spells.
    pub open spec fn is_read_from(&self, payload: Seq<u8>) -> bool {
        &&& payload.len() >= FIXED_LEN
        &&& self.opcode == payload[0]
        &&& self.hlen == payload[2]
        &&& self.xid == addr::read32(payload, 4)
        &&& self.flags == addr::read16(payload, 10)
        &&& self.yiaddr.bits == addr::read32(payload, 16)
        &&& self.giaddr.bits == addr::read32(payload, 24)
        &&& options_of(self.opts) == decoded_options(payload)
    }
}

/// Whether the data of an option with this code may be of this length. A few
/// options, none of which the router uses, have a length that the reading of a
/// message takes for granted.
pub open spec fn takes_length(code: u8, len: int) -> bool {
    if code == OPT_RAPID_COMMIT {
        len == 0
    } else if code == OPT_CLIENT_FQDN {
        len >= 3
    } else if code == OPT_NETWORK_INTERFACE {
        len == 3
    } else if OPT_FIRST_QUERY_TIME <= code <= OPT_LAST_QUERY_TIME {
        len == 4
    } else {
        true
    }
}

/// Where a row of options that all have this code ends, and how long their data
/// is taken together, with `len` for the length so far: nothing where the last
/// of them is cut off.
pub open spec fn run_at(payload: Seq<u8>, i: int, code: u8, len: int) -> Option<(int, int)>
    decreases payload.len() - i,
{
    if i >= payload.len() || payload[i] != code {
        Some((i, len))
    } else if i + 2 > payload.len() || i + 2 + payload[i + 1] > payload.len() {
        None
    } else {
        run_at(payload, i + 2 + payload[i + 1], code, len + payload[i + 1])
    }
}

/// Where the first option from `i` on stands that is of a length it may not have,
/// up to what ends the options or to the first that is cut off. Options of one
/// code that follow on each other count as one.
pub open spec fn first_bad(payload: Seq<u8>, i: int) -> Option<int>
    decreases payload.len() - i,
    via first_bad_decreases
{
    if i >= payload.len() || payload[i] == OPT_END {
        None
    } else if payload[i] == OPT_PAD {
        first_bad(payload, i + 1)
    } else {
        match run_at(payload, i, payload[i], 0) {
            Some((end, len)) => if takes_length(payload[i], len) {
                first_bad(payload, end)
            } else {
                Some(i)
            },
            None => None,
        }
    }
}

#[via_fn]
proof fn first_bad_decreases(payload: Seq<u8>, i: int) {
    if i < payload.len() {
        lemma_run_goes_on(payload, i, payload[i], 0);
    }
}

proof fn lemma_run_goes_on(payload: Seq<u8>, i: int, code: u8, len: int)
    ensures
        run_at(payload, i, code, len) matches Some((end, _)) ==> {
            &&& i <= end
            &&& i <= payload.len() ==> end <= payload.len()
            &&& i < payload.len() && payload[i] == code ==> i < end
        },
    decreases payload.len() - i,
{
    if i < payload.len() && payload[i] == code && i + 2 + payload[i + 1] <= payload.len() {
        lemma_run_goes_on(payload, i + 2 + payload[i + 1], code, len + payload[i + 1]);
    }
}

/// Whether the options of a message are of lengths that they may have.
pub open spec fn well_measured(payload: Seq<u8>) -> bool {
    payload.len() >= FIXED_LEN ==> first_bad(payload, FIXED_LEN as int) is None
}

/// Whether `dhcproto`, when it reads the options of a message, comes to the end
/// of the message: it stops short of it where it cannot make sense of an option.
pub uninterp spec fn reads_through(payload: Seq<u8>) -> bool;

/// The part of a message in front of an option, with the options ended there.
pub open spec fn front(payload: Seq<u8>, option_at: int) -> Seq<u8> {
    payload.take(option_at).push(OPT_END)
}

/// Whether a message can be read: no option is of a length that it may not have,
/// or the reading stops before it comes to one, at an option that it cannot make
/// sense of.
pub open spec fn readable(payload: Seq<u8>) -> bool {
    payload.len() >= FIXED_LEN ==> match first_bad(payload, FIXED_LEN as int) {
        Some(i) => !reads_through(front(payload, i)),
        None => true,
    }
}

/// Whether the data of an option with this code may be of this length.
fn may_have_length(code: u8, len: usize) -> (r: bool)
    ensures
        r == takes_length(code, len as int),
{
    if code == OPT_RAPID_COMMIT {
        len == 0
    } else if code == OPT_CLIENT_FQDN {
        len >= 3
    } else if code == OPT_NETWORK_INTERFACE {
        len == 3
    } else if OPT_FIRST_QUERY_TIME <= code && code <= OPT_LAST_QUERY_TIME {
        len == 4
    } else {
        true
    }
}

/// Where the row of options that starts at `start` and has one code ends, and
/// how long their data is taken together.
fn measure_run(payload: &[u8], start: usize) -> (r: Option<(usize, usize)>)
    requires
        start < payload@.len(),
    ensures
        (match run_at(payload@, start as int, payload@[start as int], 0) {
            Some((end, len)) => r matches Some((e, n)) && e == end && n == len && start < end
                <= payload@.len(),
            None => r is None,
        }),
{
    let code: u8 = payload[start];
    let size: usize = payload.len();
    let mut i: usize = start;
    let mut total: usize = 0;
    proof {
        lemma_run_goes_on(payload@, start as int, code, 0);
    }
    while i < size && payload[i] == code
        invariant
            size == payload@.len(),
            start <= i <= size,
            total <= i - start,
            run_at(payload@, start as int, code, 0) == run_at(
                payload@,
                i as int,
                code,
                total as int,
            ),
        decreases size - i,
    {
        if size - i < 2 || size - i - 2 < payload[i + 1] as usize {
            return None;
        }
        let len: usize = payload[i + 1] as usize;
        i = i + 2 + len;
        total = total + len;
    }
    Some((i, total))
}

/// Where the first option stands that is of a length it may not have.
fn find_bad(payload: &[u8]) -> (r: Option<usize>)
    requires
        payload@.len() >= FIXED_LEN,
    ensures
        (match first_bad(payload@, FIXED_LEN as int) {
            Some(i) => r matches Some(k) && k == i && FIXED_LEN <= i < payload@.len(),
            None => r is None,
        }),
{
    let mut i: usize = FIXED_LEN;
    while i < payload.len() && payload[i] != OPT_END
        invariant
            FIXED_LEN <= i <= payload@.len(),
            first_bad(payload@, FIXED_LEN as int) == first_bad(payload@, i as int),
        decreases payload@.len() - i,
    {
        let code: u8 = payload[i];
        if code == OPT_PAD {
            i += 1;
        } else {
            match measure_run(payload, i) {
                Some((end, len)) => {
                    if !may_have_length(code, len) {
                        return Some(i);
                    }
                    i = end;
                },
                None => {
                    return None;
                },
            }
        }
    }
    None
}

proof fn lemma_bad_is_ahead(payload: Seq<u8>, i: int)
    ensures
        first_bad(payload, i) matches Some(bad) ==> i <= bad < payload.len(),
    decreases payload.len() - i,
{
    if i < payload.len() && payload[i] != OPT_END {
        if payload[i] == OPT_PAD {
            lemma_bad_is_ahead(payload, i + 1);
        } else {
            lemma_run_goes_on(payload, i, payload[i], 0);
            if let Some((end, _)) = run_at(payload, i, payload[i], 0) {
                lemma_bad_is_ahead(payload, end);
            }
        }
    }
}

proof fn lemma_run_of_front(payload: Seq<u8>, bad: int, i: int, code: u8, len: int)
    requires
        0 <= i <= bad < payload.len(),
        code != OPT_END,
        run_at(payload, i, code, len) matches Some((end, _)) && end <= bad,
    ensures
        run_at(front(payload, bad), i, code, len) == run_at(payload, i, code, len),
    decreases payload.len() - i,
{
    if payload[i] == code {
        let next = i + 2 + payload[i + 1];
        lemma_run_goes_on(payload, next, code, len + payload[i + 1]);
        lemma_run_of_front(payload, bad, next, code, len + payload[i + 1]);
    }
}

/// What stands in front of the first option of a wrong length has none.
proof fn lemma_front_is_measured(payload: Seq<u8>, i: int)
    requires
        0 <= i,
        first_bad(payload, i) is Some,
    ensures
        first_bad(front(payload, first_bad(payload, i)->Some_0), i) is None,
    decreases payload.len() - i,
{
    let bad = first_bad(payload, i)->Some_0;
    lemma_bad_is_ahead(payload, i);
    if i < bad {
        assert(front(payload, bad)[i] == payload[i]);
        if payload[i] == OPT_PAD {
            lemma_front_is_measured(payload, i + 1);
        } else {
            lemma_run_goes_on(payload, i, payload[i], 0);
            let end = (run_at(payload, i, payload[i], 0)->Some_0).0;
            lemma_bad_is_ahead(payload, end);
            lemma_run_of_front(payload, bad, i, payload[i], 0);
            lemma_front_is_measured(payload, end);
        }
    }
}

/// `dhcproto::Decoder::buffer` after `<dhcproto::v4::Message as
/// Decodable>::decode`: whether nothing of the message is left to be read. That
/// is a function of the payload alone.
#[verifier::external_body]
fn reads_to_end(payload: &[u8]) -> (r: bool)
    requires
        well_measured(payload@),
    ensures
        r == reads_through(payload@),
{
    let mut decoder = Decoder::new(payload);
    Message::decode(&mut decoder).is_ok() && decoder.buffer().is_empty()
}

/// Whether a message can be read: no option is of a length that it may not have,
/// or the reading stops before it comes to one.
pub fn is_readable(payload: &[u8]) -> (r: bool)
    ensures
        r == readable(payload@),
{
    if payload.len() < FIXED_LEN {
        return true;
    }
    match find_bad(payload) {
        Some(i) => {
            let mut before: Vec<u8> = Vec::new();
            before.extend_from_slice(slice_subrange(payload, 0, i));
            before.push(OPT_END);
            proof {
                assert(before@ =~= front(payload@, i as int));
                lemma_front_is_measured(payload@, FIXED_LEN as int);
            }
            !reads_to_end(before.as_slice())
        },
        None => true,
    }
}

/// `<dhcproto::v4::Message as Decodable>::decode`. It succeeds on whatever is
/// long enough for the fields of fixed length, which stand at fixed places; of
/// the options it reads as many as it can. What it makes of the options is a
/// function of the payload alone. Where an option has a length that it takes for
/// granted it may stop the program on another length, so it must not come to an
/// option of such a length.
#[verifier::external_body]
pub(crate) fn decode(payload: &[u8]) -> (r: Option<DhcpMessage>)
    requires
        readable(payload@),
    ensures
        r is Some <==> payload@.len() >= FIXED_LEN,
        r matches Some(message) ==> message.is_read_from(payload@),
{
    let message = Message::decode(&mut Decoder::new(payload)).ok()?;
    Some(DhcpMessage {
        opcode: message.opcode().into(),
        hlen: message.hlen(),
        xid: message.xid(),
        flags: message.flags().into(),
        yiaddr: Ipv4Addr { bits: message.yiaddr().into() },
        giaddr: Ipv4Addr { bits: message.giaddr().into() },
        opts: message.opts().clone(),
    })
}

/// `dhcproto::v4::Message::chaddr` of the decoded payload: as many octets of the
/// field for the hardware address as the length field says. The method stops
/// the program where that is more than the sixteen octets of the field.
#[verifier::external_body]
pub(crate) fn hardware_address(payload: &[u8]) -> (r: Vec<u8>)
    requires
        readable(payload@),
        payload@.len() >= FIXED_LEN,
        payload@[2] <= 16,
    ensures
        r@ == payload@.subrange(28, 28 + payload@[2]),
{
    let message = Message::decode(&mut Decoder::new(payload)).unwrap();
    message.chaddr().to_vec()
}

/// The fields of a message that the router writes.
pub struct DhcpHeader {
    pub opcode: u8,
    pub xid: u32,
    pub flags: u16,
    pub ciaddr: Ipv4Addr,
    pub yiaddr: Ipv4Addr,
    pub siaddr: Ipv4Addr,
}

/// `n` octets of zero.
pub open spec fn zeros(n: nat) -> Seq<u8> {
    Seq::new(n, |i: int| 0u8)
}

/// Whether `data` is of a length that the option with the code can have, and
/// fits into one option.
pub open spec fn fits_option(code: u8, data: Seq<u8>) -> bool {
    if code == OPT_SUBNET_MASK || code == OPT_REQUESTED_IP || code == OPT_SERVER_ID || code
        == OPT_LEASE_TIME {
        data.len() == 4
    } else if code == OPT_ROUTER || code == OPT_DNS {
        data.len() % 4 == 0 && 4 <= data.len() <= 252
    } else if code == OPT_MESSAGE_TYPE {
        data.len() == 1
    } else if code == OPT_PARAMETERS {
        1 <= data.len() <= 255
    } else {
        false
    }
}

/// Whether the options are of the kinds that the router writes, with a message
/// type among them.
pub open spec fn writable(options: Map<u8, Seq<u8>>) -> bool {
    &&& options.contains_key(OPT_MESSAGE_TYPE)
    &&& forall|code: u8| #[trigger] options.contains_key(code) ==> fits_option(code, options[code])
}

/// An option as it stands in a message: nothing where it is absent.
pub open spec fn option_octets(options: Map<u8, Seq<u8>>, code: u8) -> Seq<u8> {
    if options.contains_key(code) {
        seq![code, options[code].len() as u8] + options[code]
    } else {
        seq![]
    }
}

/// The options as they stand in a message, by rising code, and what ends them.
pub open spec fn options_octets(options: Map<u8, Seq<u8>>) -> Seq<u8> {
    option_octets(options, OPT_SUBNET_MASK) + option_octets(options, OPT_ROUTER) + option_octets(
        options,
        OPT_DNS,
    ) + option_octets(options, OPT_REQUESTED_IP) + option_octets(options, OPT_LEASE_TIME)
        + option_octets(options, OPT_MESSAGE_TYPE) + option_octets(options, OPT_SERVER_ID)
        + option_octets(options, OPT_PARAMETERS) + seq![OPT_END]
}

/// The fields of a message that stand in front of its options.
pub open spec fn fixed_octets(head: DhcpHeader, chaddr: Seq<u8>) -> Seq<u8> {
    seq![head.opcode, 1u8, chaddr.len() as u8, 0] + addr::octets32(head.xid) + zeros(2)
        + addr::octets16(head.flags) + addr::octets32(head.ciaddr.bits) + addr::octets32(
        head.yiaddr.bits,
    ) + addr::octets32(head.siaddr.bits) + zeros(4) + chaddr + zeros((16 - chaddr.len()) as nat)
        + zeros(192) + seq![99u8, 130, 83, 99]
}

/// A whole message.
pub open spec fn message_octets(
    head: DhcpHeader,
    chaddr: Seq<u8>,
    options: Map<u8, Seq<u8>>,
) -> Seq<u8> {
    fixed_octets(head, chaddr) + options_octets(options)
}

/// `<dhcproto::v4::Message as Encodable>::encode` of a message made by
/// `Message::default` and its setters. For options of the kinds that the router
/// writes it does not fail: the fields go out at their fixed places, Ethernet
/// being the type of hardware and all that was not set being zero, the options
/// by rising code, and `decode` reads the same options back.
#[verifier::external_body]
pub(crate) fn encode(head: &DhcpHeader, chaddr: &[u8], opts: DhcpOptions) -> (r: Option<Vec<u8>>)
    requires
        chaddr@.len() <= 16,
        writable(options_of(opts)),
    ensures
        r is Some,
        r matches Some(payload) ==> payload@ == message_octets(*head, chaddr@, options_of(opts)),
        r matches Some(payload) ==> decoded_options(payload@) == options_of(opts),
{
    let mut message = Message::default();
    message.set_opcode(head.opcode.into()).set_xid(head.xid).set_flags(head.flags.into());
    message.set_ciaddr(head.ciaddr.bits).set_yiaddr(head.yiaddr.bits);
    message.set_siaddr(head.siaddr.bits).set_chaddr(chaddr).set_opts(opts);
    let mut payload = Vec::new();
    message.encode(&mut Encoder::new(&mut payload)).ok()?;
    Some(payload)
}

/// A message stays within what one frame carries.
pub(crate) proof fn lemma_message_len(
    head: DhcpHeader,
    chaddr: Seq<u8>,
    options: Map<u8, Seq<u8>>,
)
    requires
        chaddr.len() <= 16,
        writable(options),
    ensures
        FIXED_LEN <= message_octets(head, chaddr, options).len() <= 2000,
{
    assert(fixed_octets(head, chaddr).len() == FIXED_LEN);
    assert(option_octets(options, OPT_SUBNET_MASK).len() <= 257);
    assert(option_octets(options, OPT_ROUTER).len() <= 257);
    assert(option_octets(options, OPT_DNS).len() <= 257);
    assert(option_octets(options, OPT_REQUESTED_IP).len() <= 257);
    assert(option_octets(options, OPT_LEASE_TIME).len() <= 257);
    assert(option_octets(options, OPT_MESSAGE_TYPE).len() <= 257);
    assert(option_octets(options, OPT_SERVER_ID).len() <= 257);
    assert(option_octets(options, OPT_PARAMETERS).len() <= 257);
}

pub(crate) proof fn lemma_fixed_reads_back(
    head: DhcpHeader,
    chaddr: Seq<u8>,
    options: Map<u8, Seq<u8>>,
)
    requires
        chaddr.len() <= 16,
    ensures
        ({
            let payload = message_octets(head, chaddr, options);
            &&& payload[0] == head.opcode
            &&& payload[2] == chaddr.len()
            &&& addr::read32(payload, 4) == head.xid
            &&& addr::read16(payload, 10) == head.flags
            &&& addr::read32(payload, 16) == head.yiaddr.bits
            &&& addr::read32(payload, 24) == 0
            &&& payload.subrange(28, 28 + chaddr.len() as int) == chaddr
        }),
{
    let payload = message_octets(head, chaddr, options);
    let fixed = fixed_octets(head, chaddr);
    assert(fixed.len() == FIXED_LEN);
    assert forall|i: int| 0 <= i < FIXED_LEN implies #[trigger] payload[i] == fixed[i] by {}
    addr::law_octets_spell_address(head.xid);
    addr::law_octets_spell_half(head.flags);
    addr::law_octets_spell_address(head.yiaddr.bits);
    assert(payload[4] == addr::octets32(head.xid)[0]);
    assert(payload[5] == addr::octets32(head.xid)[1]);
    assert(payload[6] == addr::octets32(head.xid)[2]);
    assert(payload[7] == addr::octets32(head.xid)[3]);
    assert(payload[10] == addr::octets16(head.flags)[0]);
    assert(payload[11] == addr::octets16(head.flags)[1]);
    assert(payload[16] == addr::octets32(head.yiaddr.bits)[0]);
    assert(payload[17] == addr::octets32(head.yiaddr.bits)[1]);
    assert(payload[18] == addr::octets32(head.yiaddr.bits)[2]);
    assert(payload[19] == addr::octets32(head.yiaddr.bits)[3]);
    assert(payload[24] == 0 && payload[25] == 0 && payload[26] == 0 && payload[27] == 0);
    assert(payload.subrange(28, 28 + chaddr.len() as int) =~= chaddr);
}

/// A message that was written reads back with the operation, transaction,
/// flags, address and hardware address that were written into it, and was not
/// relayed.
pub proof fn law_written_message_reads_back(
    head: DhcpHeader,
    chaddr: Seq<u8>,
    options: Map<u8, Seq<u8>>,
    message: DhcpMessage,
)
    requires
        chaddr.len() <= 16,
        message.is_read_from(message_octets(head, chaddr, options)),
    ensures
        message.opcode == head.opcode,
        message.hlen == chaddr.len(),
        message.xid == head.xid,
        message.flags == head.flags,
        message.yiaddr == head.yiaddr,
        message.giaddr == addr::unspecified_ip(),
        message_octets(head, chaddr, options).subrange(28, 28 + chaddr.len() as int) == chaddr,
{
    lemma_fixed_reads_back(head, chaddr, options);
}

proof fn lemma_option_is_measured(
    payload: Seq<u8>,
    i: int,
    options: Map<u8, Seq<u8>>,
    code: u8,
    next: int,
)
    requires
        0 <= i <= next < payload.len(),
        payload.subrange(i, next) == option_octets(options, code),
        options.contains_key(code) ==> fits_option(code, options[code]),
        first_bad(payload, next) is None,
        payload[next] > code,
        code != OPT_PAD,
    ensures
        first_bad(payload, i) is None,
        payload[i] >= code,
{
    if options.contains_key(code) {
        let data = options[code];
        let field = payload.subrange(i, next);
        assert(field.len() == 2 + data.len());
        assert(payload[i] == field[0] && payload[i + 1] == field[1]);
        assert(field[0] == code && field[1] == data.len());
        assert(run_at(payload, next, code, data.len() as int) == Some((next, data.len() as int)));
        assert(run_at(payload, i, code, 0) == run_at(payload, next, code, data.len() as int));
    } else {
        assert(payload.subrange(i, next).len() == 0);
    }
}

proof fn lemma_parts(payload: Seq<u8>, fixed: Seq<u8>, front: Seq<u8>, part: Seq<u8>)
    requires
        fixed.len() + front.len() + part.len() <= payload.len(),
        payload.take((fixed.len() + front.len() + part.len()) as int) == fixed + (front + part),
    ensures
        payload.take((fixed.len() + front.len()) as int) == fixed + front,
        payload.subrange(
            (fixed.len() + front.len()) as int,
            (fixed.len() + front.len() + part.len()) as int,
        ) == part,
{
    let n = (fixed.len() + front.len()) as int;
    let whole = fixed + (front + part);
    assert(payload.take(n) =~= whole.take(n));
    assert(whole.take(n) =~= fixed + front);
    assert(payload.subrange(n, n + part.len()) =~= whole.subrange(n, n + part.len()));
    assert(whole.subrange(n, n + part.len()) =~= part);
}

/// What the router writes can be read: the options of its messages are of
/// lengths that they may have.
pub proof fn law_written_message_is_well_measured(
    head: DhcpHeader,
    chaddr: Seq<u8>,
    options: Map<u8, Seq<u8>>,
)
    requires
        chaddr.len() <= 16,
        writable(options),
    ensures
        well_measured(message_octets(head, chaddr, options)),
        readable(message_octets(head, chaddr, options)),
{
    let payload = message_octets(head, chaddr, options);
    let fixed = fixed_octets(head, chaddr);
    assert(fixed.len() == FIXED_LEN);
    let mask = option_octets(options, OPT_SUBNET_MASK);
    let router = option_octets(options, OPT_ROUTER);
    let dns = option_octets(options, OPT_DNS);
    let requested = option_octets(options, OPT_REQUESTED_IP);
    let time = option_octets(options, OPT_LEASE_TIME);
    let kind = option_octets(options, OPT_MESSAGE_TYPE);
    let server = option_octets(options, OPT_SERVER_ID);
    let wanted = option_octets(options, OPT_PARAMETERS);
    let to_router = mask + router;
    let to_dns = to_router + dns;
    let to_requested = to_dns + requested;
    let to_time = to_requested + time;
    let to_kind = to_time + kind;
    let to_server = to_kind + server;
    let to_wanted = to_server + wanted;
    let n = FIXED_LEN as int;
    assert(payload.take(payload.len() as int) =~= payload);
    lemma_parts(payload, fixed, to_wanted, seq![OPT_END]);
    lemma_parts(payload, fixed, to_server, wanted);
    lemma_parts(payload, fixed, to_kind, server);
    lemma_parts(payload, fixed, to_time, kind);
    lemma_parts(payload, fixed, to_requested, time);
    lemma_parts(payload, fixed, to_dns, requested);
    lemma_parts(payload, fixed, to_router, dns);
    lemma_parts(payload, fixed, mask, router);
    assert(seq![] + mask =~= mask);
    lemma_parts(payload, fixed, seq![], mask);
    let end = n + to_wanted.len();
    assert(payload[end] == payload.subrange(end, end + 1)[0]);
    assert(first_bad(payload, end) is None);
    let at_wanted = n + to_server.len();
    lemma_option_is_measured(payload, at_wanted, options, OPT_PARAMETERS, end);
    let at_server = n + to_kind.len();
    lemma_option_is_measured(payload, at_server, options, OPT_SERVER_ID, at_wanted);
    let at_kind = n + to_time.len();
    lemma_option_is_measured(payload, at_kind, options, OPT_MESSAGE_TYPE, at_server);
    let at_time = n + to_requested.len();
    lemma_option_is_measured(payload, at_time, options, OPT_LEASE_TIME, at_kind);
    let at_requested = n + to_dns.len();
    lemma_option_is_measured(payload, at_requested, options, OPT_REQUESTED_IP, at_time);
    let at_dns = n + to_router.len();
    lemma_option_is_measured(payload, at_dns, options, OPT_DNS, at_requested);
    let at_router = n + mask.len();
    lemma_option_is_measured(payload, at_router, options, OPT_ROUTER, at_dns);
    lemma_option_is_measured(payload, n, options, OPT_SUBNET_MASK, at_router);
}

/// Where everything stands in a message: the operation, Ethernet for the type of
/// hardware and the length of the hardware address, the transaction, the flags and
/// the addresses at their places, zeros where nothing was set, the four octets
/// that start the options, and the options.
#[verifier::spinoff_prover]
#[verifier::rlimit(40)]
pub proof fn law_message_fields_stand_in_place(
    head: DhcpHeader,
    chaddr: Seq<u8>,
    options: Map<u8, Seq<u8>>,
)
    requires
        chaddr.len() <= 16,
    ensures
        ({
            let m = message_octets(head, chaddr, options);
            &&& m.len() >= 240
            &&& m[0] == head.opcode && m[1] == 1 && m[2] == chaddr.len() && m[3] == 0
            &&& addr::read32(m, 4) == head.xid
            &&& addr::read16(m, 8) == 0
            &&& addr::read16(m, 10) == head.flags
            &&& addr::read32(m, 12) == head.ciaddr.bits
            &&& addr::read32(m, 16) == head.yiaddr.bits
            &&& addr::read32(m, 20) == head.siaddr.bits
            &&& addr::read32(m, 24) == 0
            &&& forall|i: int| 28 <= i < 28 + chaddr.len() ==> #[trigger] m[i] == chaddr[i - 28]
            &&& forall|i: int| 28 + chaddr.len() <= i < 236 ==> #[trigger] m[i] == 0
            &&& m[236] == 99 && m[237] == 130 && m[238] == 83 && m[239] == 99
            &&& m.skip(240) == options_octets(options)
        }),
{
    let m = message_octets(head, chaddr, options);
    let fixed = fixed_octets(head, chaddr);
    assert(fixed.len() == 240);
    assert forall|i: int| 0 <= i < 240 implies #[trigger] m[i] == fixed[i] by {}
    assert(m.skip(240) =~= options_octets(options));
    let x = addr::octets32(head.xid);
    let f = addr::octets16(head.flags);
    let c = addr::octets32(head.ciaddr.bits);
    let y = addr::octets32(head.yiaddr.bits);
    let s = addr::octets32(head.siaddr.bits);
    addr::law_octets_spell_address(head.xid);
    addr::law_octets_spell_half(head.flags);
    addr::law_octets_spell_address(head.ciaddr.bits);
    addr::law_octets_spell_address(head.yiaddr.bits);
    addr::law_octets_spell_address(head.siaddr.bits);
    assert(m[4] == x[0] && m[5] == x[1] && m[6] == x[2] && m[7] == x[3]);
    assert(m[8] == 0 && m[9] == 0);
    assert(m[10] == f[0] && m[11] == f[1]);
    assert(m[12] == c[0] && m[13] == c[1] && m[14] == c[2] && m[15] == c[3]);
    assert(m[16] == y[0] && m[17] == y[1] && m[18] == y[2] && m[19] == y[3]);
    assert(m[20] == s[0] && m[21] == s[1] && m[22] == s[2] && m[23] == s[3]);
    assert(m[24] == 0 && m[25] == 0 && m[26] == 0 && m[27] == 0);
    assert forall|i: int| 28 <= i < 28 + chaddr.len() implies #[trigger] m[i] == chaddr[i - 28] by {}
    assert forall|i: int| 28 + chaddr.len() <= i < 236 implies #[trigger] m[i] == 0 by {}
}

/// Every option that the router writes stands in a message as its code, its length
/// and its data, once, and the last octet of the message ends the options.
pub proof fn law_option_stands_in_message(options: Map<u8, Seq<u8>>, code: u8)
    requires
        writable(options),
        options.contains_key(code),
    ensures
        ({
            let field = seq![code, options[code].len() as u8] + options[code];
            exists|before: Seq<u8>, after: Seq<u8>|
                options_octets(options) == #[trigger] (before + field + after)
        }),
        options_octets(options).last() == 255,
{
    let field = option_octets(options, code);
    assert(fits_option(code, options[code]));
    let to_mask = option_octets(options, 1);
    let to_router = to_mask + option_octets(options, 3);
    let to_dns = to_router + option_octets(options, 6);
    let to_requested = to_dns + option_octets(options, 50);
    let to_time = to_requested + option_octets(options, 51);
    let to_kind = to_time + option_octets(options, 53);
    let to_server = to_kind + option_octets(options, 54);
    let to_wanted = to_server + option_octets(options, 55);
    lemma_part_of(Seq::empty(), to_mask, field);
    lemma_part_of(to_mask, option_octets(options, 3), field);
    lemma_part_of(to_router, option_octets(options, 6), field);
    lemma_part_of(to_dns, option_octets(options, 50), field);
    lemma_part_of(to_requested, option_octets(options, 51), field);
    lemma_part_of(to_time, option_octets(options, 53), field);
    lemma_part_of(to_kind, option_octets(options, 54), field);
    lemma_part_of(to_server, option_octets(options, 55), field);
    lemma_part_of(to_wanted, seq![255u8], field);
    assert(Seq::empty() + to_mask =~= to_mask);
    assert(options_octets(options) == to_wanted + seq![255u8]);
}

/// Whether `part` stands somewhere in `whole`.
spec fn stands_in(part: Seq<u8>, whole: Seq<u8>) -> bool {
    exists|before: Seq<u8>, after: Seq<u8>| whole == #[trigger] (before + part + after)
}

proof fn lemma_part_of(front: Seq<u8>, next: Seq<u8>, part: Seq<u8>)
    ensures
        stands_in(part, front) ==> stands_in(part, front + next),
        part == next ==> stands_in(part, front + next),
{
    if stands_in(part, front) {
        let (before, after) = choose|before: Seq<u8>, after: Seq<u8>|
            front == #[trigger] (before + part + after);
        assert(front + next =~= before + part + (after + next));
    }
    if part == next {
        assert(front + next =~= front + part + Seq::<u8>::empty());
    }
}

/// Whether the data of options with this code can be of any length.
spec fn is_ordinary(code: u8) -> bool {
    code != 80 && code != 81 && code != 94 && !(152 <= code <= 155)
}

proof fn lemma_ordinary_options(payload: Seq<u8>, i: int)
    requires
        240 <= i,
        forall|k: int| 240 <= k < payload.len() ==> is_ordinary(#[trigger] payload[k]),
    ensures
        first_bad(payload, i) is None,
    decreases payload.len() - i,
{
    if i < payload.len() && payload[i] != OPT_END {
        if payload[i] == OPT_PAD {
            lemma_ordinary_options(payload, i + 1);
        } else {
            assert(is_ordinary(payload[i]));
            lemma_run_goes_on(payload, i, payload[i], 0);
            if let Some((end, _)) = run_at(payload, i, payload[i], 0) {
                lemma_ordinary_options(payload, end);
            }
        }
    }
}

/// A message can be read whatever its options are, as long as no octet of them is
/// the code of an option of a fixed length.
pub proof fn law_ordinary_options_are_readable(payload: Seq<u8>)
    requires
        forall|k: int|
            240 <= k < payload.len() ==> #[trigger] payload[k] != 80 && payload[k] != 81
                && payload[k] != 94 && !(152 <= payload[k] <= 155),
    ensures
        well_measured(payload),
        readable(payload),
{
    assert forall|k: int| 240 <= k < payload.len() implies is_ordinary(#[trigger] payload[k]) by {}
    lemma_ordinary_options(payload, 240);
}

/// An option of a length that it may not have is found. Of a message that starts its
/// options with one, none of which may be of the given length, it is left to the
/// reading whether it would come to that option: it can be read exactly where the
/// reading stops short of it.
pub proof fn law_option_of_wrong_length_is_found(payload: Seq<u8>, len: int)
    requires
        242 <= payload.len(),
        len == payload[241],
        242 + len <= payload.len(),
        242 + len < payload.len() ==> payload[242 + len] != payload[240],
    ensures
        ({
            let code = payload[240];
            let wrong = code == 80 && len != 0 || code == 81 && len < 3 || code == 94 && len != 3
                || 152 <= code <= 155 && len != 4;
            wrong ==> !well_measured(payload) && (readable(payload) <==> !reads_through(
                payload.take(240).push(255),
            ))
        }),
{
    let code = payload[240];
    assert(run_at(payload, 242 + len, code, len) == Some((242 + len, len)));
    assert(run_at(payload, 240, code, 0) == run_at(payload, 242 + len, code, len));
}

} // verus!
