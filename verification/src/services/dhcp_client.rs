//! The DHCP client on the outer network.

use crate::addr;
use crate::addr::{Ipv4Addr, MacAddr};
use crate::packet;
use crate::services::dhcp_message;
use crate::services::dhcp_message::{
    AddressListOption, AddressOption, DhcpHeader, DhcpMessage, ACK, BOOT_REQUEST, CLIENT_PORT,
    DISCOVER, FIXED_LEN, FLAG_BROADCAST, OFFER, OPT_DNS, OPT_LEASE_TIME, OPT_MESSAGE_TYPE,
    OPT_PARAMETERS, OPT_REQUESTED_IP, OPT_ROUTER, OPT_SERVER_ID, OPT_SUBNET_MASK, REQUEST,
    SERVER_PORT,
};
use crate::services::utils;
use crate::services::utils::{WanLease, WanLeaseView};
use crate::subnet::Subnet;
use crate::time::Instant;
use vstd::arithmetic::power2::pow2;
use vstd::prelude::*;

verus! {

/// The time before the first message is sent again, in seconds.
pub const FIRST_RETRY_SECS: u32 = 4;

/// The longest time before a message is sent again, in seconds.
pub const MAX_RETRY_SECS: u32 = 64;

/// The shortest time between two attempts to renew a lease, in seconds.
pub const MIN_RENEW_SECS: u32 = 60;

/// How long ago a message that was never sent counts as sent, in seconds: long
/// enough for it to go out at once.
pub const NEVER_SENT_SECS: u64 = 10;

/// How long a lease lasts for which the server gives no time, in seconds.
pub const DEFAULT_LEASE_SECS: u32 = 3600;

/// Where the client stands.
#[derive(Clone, Copy, Debug, PartialEq, Eq, Structural)]
pub enum ClientState {
    /// It looks for a server.
    Discovering { xid: u32, last_sent: Instant, retry_delay_secs: u32 },
    /// It asks for an address that it was offered.
    Requesting {
        xid: u32,
        offered_ip: Ipv4Addr,
        server_ip: Option<Ipv4Addr>,
        last_sent: Instant,
        retry_delay_secs: u32,
    },
    /// It has an address.
    Bound {
        ip: Ipv4Addr,
        mask: Ipv4Addr,
        gateway: Option<Ipv4Addr>,
        server_ip: Option<Ipv4Addr>,
        lease_secs: u32,
        bound_at: Instant,
        renew_sent: Option<Instant>,
        renew_xid: u32,
    },
}

impl ClientState {
    /// Whether the time before the next attempt can be doubled.
    pub open spec fn wf(self) -> bool {
        match self {
            ClientState::Discovering { retry_delay_secs, .. } => retry_delay_secs <= 0x7fff_ffff,
            ClientState::Requesting { retry_delay_secs, .. } => retry_delay_secs <= 0x7fff_ffff,
            ClientState::Bound { .. } => true,
        }
    }

    /// The transaction whose answers the client takes.
    pub open spec fn transaction(self) -> u32 {
        match self {
            ClientState::Discovering { xid, .. } => xid,
            ClientState::Requesting { xid, .. } => xid,
            ClientState::Bound { renew_xid, .. } => renew_xid,
        }
    }

    /// The transaction whose answers the client takes.
    pub fn expected_xid(&self) -> (r: u32)
        ensures
            r == self.transaction(),
    {
        match self {
            ClientState::Discovering { xid, .. } => *xid,
            ClientState::Requesting { xid, .. } => *xid,
            ClientState::Bound { renew_xid, .. } => *renew_xid,
        }
    }

    /// The address that the client has.
    pub open spec fn own_address(self) -> Ipv4Addr {
        match self {
            ClientState::Bound { ip, .. } => ip,
            _ => addr::unspecified_ip(),
        }
    }

    /// The time before the next attempt, in seconds, around which the caller
    /// picks the moment of that attempt: none where there is an address.
    pub open spec fn retry_delay(self) -> Option<u32> {
        match self {
            ClientState::Discovering { retry_delay_secs, .. } => Some(retry_delay_secs),
            ClientState::Requesting { retry_delay_secs, .. } => Some(retry_delay_secs),
            ClientState::Bound { .. } => None,
        }
    }

    /// The time before the next attempt, in seconds.
    pub fn retry_delay_secs(&self) -> (r: Option<u32>)
        ensures
            r == self.retry_delay(),
    {
        match self {
            ClientState::Discovering { retry_delay_secs, .. } => Some(*retry_delay_secs),
            ClientState::Requesting { retry_delay_secs, .. } => Some(*retry_delay_secs),
            ClientState::Bound { .. } => None,
        }
    }
}

/// A client that starts to look for a server.
pub open spec fn initial_state(xid: u32, now: Instant) -> ClientState {
    ClientState::Discovering {
        xid,
        last_sent: now.plus(-NEVER_SENT_SECS),
        retry_delay_secs: FIRST_RETRY_SECS,
    }
}

/// A client that starts to look for a server under a given transaction.
pub fn discovering(xid: u32, now: Instant) -> (r: ClientState)
    requires
        now.in_range(),
    ensures
        r == initial_state(xid, now),
        r.wf(),
{
    ClientState::Discovering {
        xid,
        last_sent: now.before(NEVER_SENT_SECS),
        retry_delay_secs: FIRST_RETRY_SECS,
    }
}

/// `rand::random::<u32>`. The number is left to chance: nothing is stated of it.
#[verifier::external_body]
fn random_xid() -> u32 {
    rand::random::<u32>()
}

/// A client that starts to look for a server under a transaction picked by
/// chance.
pub fn start_discovering(now: Instant) -> (r: ClientState)
    requires
        now.in_range(),
    ensures
        exists|xid: u32| r == #[trigger] initial_state(xid, now),
        r.wf(),
{
    let xid: u32 = random_xid();
    discovering(xid, now)
}

/// The time before the attempt after next: twice the time before the next, up
/// to a bound.
pub open spec fn next_delay(current: u32) -> u32 {
    if current * 2 > MAX_RETRY_SECS {
        MAX_RETRY_SECS
    } else {
        (current * 2) as u32
    }
}

/// The time before the attempt after next: twice the time before the next, up
/// to a bound.
pub fn calculate_next_delay(current_delay: u32) -> (r: u32)
    requires
        current_delay <= 0x7fff_ffff,
    ensures
        r == next_delay(current_delay),
{
    let doubled: u32 = current_delay * 2;
    if doubled > MAX_RETRY_SECS {
        MAX_RETRY_SECS
    } else {
        doubled
    }
}

/// By how much chance may move an attempt to either side, in nanoseconds.
pub const MAX_JITTER_NANOS: i64 = 1_000_000_000;

/// The time before an attempt, in nanoseconds, moved by what chance gave: a
/// second at least.
pub open spec fn jittered_nanos(base_secs: u32, offset_nanos: i64) -> int {
    larger(crate::time::NANOS_PER_SEC as int, base_secs * crate::time::NANOS_PER_SEC + offset_nanos)
}

/// The time before an attempt, in nanoseconds, moved by what chance gave: a
/// second at least.
pub fn jittered(base_secs: u32, offset_nanos: i64) -> (r: u64)
    requires
        -MAX_JITTER_NANOS <= offset_nanos <= MAX_JITTER_NANOS,
    ensures
        r == jittered_nanos(base_secs, offset_nanos),
{
    let moved: i64 = base_secs as i64 * MAX_JITTER_NANOS + offset_nanos;
    if moved >= MAX_JITTER_NANOS {
        moved as u64
    } else {
        MAX_JITTER_NANOS as u64
    }
}

/// The fields of a client's message.
pub open spec fn request_header(xid: u32, flags: u16, ciaddr: Ipv4Addr) -> DhcpHeader {
    DhcpHeader {
        opcode: BOOT_REQUEST,
        xid,
        flags,
        ciaddr,
        yiaddr: addr::unspecified_ip(),
        siaddr: addr::unspecified_ip(),
    }
}

/// What the client wants to know of its network.
pub open spec fn wanted_parameters() -> Seq<u8> {
    seq![OPT_SUBNET_MASK, OPT_ROUTER, OPT_DNS]
}

/// The options of a search for a server.
pub open spec fn discover_options() -> Map<u8, Seq<u8>> {
    dhcp_message::no_options().insert(OPT_MESSAGE_TYPE, seq![DISCOVER]).insert(
        OPT_PARAMETERS,
        wanted_parameters(),
    )
}

/// A search for a server.
pub open spec fn discover_payload(mac: MacAddr, xid: u32) -> Seq<u8> {
    dhcp_message::message_octets(
        request_header(xid, FLAG_BROADCAST, addr::unspecified_ip()),
        mac.spec_octets(),
        discover_options(),
    )
}

/// Builds a search for a server.
pub fn send_discover(mac: MacAddr, xid: u32) -> (r: Vec<u8>)
    ensures
        r@ == discover_payload(mac, xid),
        dhcp_message::decoded_options(r@) == discover_options(),
{
    let head = DhcpHeader {
        opcode: BOOT_REQUEST,
        xid,
        flags: FLAG_BROADCAST,
        ciaddr: Ipv4Addr::unspecified(),
        yiaddr: Ipv4Addr::unspecified(),
        siaddr: Ipv4Addr::unspecified(),
    };
    let mut opts = dhcp_message::new_options();
    dhcp_message::insert_message_type(&mut opts, DISCOVER);
    let wanted: Vec<u8> = vec![OPT_SUBNET_MASK, OPT_ROUTER, OPT_DNS];
    assert(wanted@ =~= wanted_parameters());
    dhcp_message::insert_parameters(&mut opts, wanted);
    let chaddr = mac.octets();
    assert(dhcp_message::writable(discover_options()));
    dhcp_message::encode(&head, chaddr.as_slice(), opts).unwrap()
}

/// The options of a request for an address. A client that has no address yet
/// names the address and the server that offered it.
pub open spec fn request_options(
    requested_ip: Ipv4Addr,
    server_ip: Option<Ipv4Addr>,
    ciaddr: Ipv4Addr,
) -> Map<u8, Seq<u8>> {
    let named = if ciaddr == addr::unspecified_ip() {
        let asking = dhcp_message::no_options().insert(
            OPT_REQUESTED_IP,
            addr::octets32(requested_ip.bits),
        );
        match server_ip {
            Some(server) => asking.insert(OPT_SERVER_ID, addr::octets32(server.bits)),
            None => asking,
        }
    } else {
        dhcp_message::no_options()
    };
    named.insert(OPT_MESSAGE_TYPE, seq![REQUEST])
}

/// A request for an address. A client that has no address yet asks for replies
/// to all.
pub open spec fn request_payload(
    mac: MacAddr,
    xid: u32,
    requested_ip: Ipv4Addr,
    server_ip: Option<Ipv4Addr>,
    ciaddr: Ipv4Addr,
) -> Seq<u8> {
    let flags = if ciaddr == addr::unspecified_ip() {
        FLAG_BROADCAST
    } else {
        0
    };
    dhcp_message::message_octets(
        request_header(xid, flags, ciaddr),
        mac.spec_octets(),
        request_options(requested_ip, server_ip, ciaddr),
    )
}

/// Builds a request for an address.
pub fn send_request(
    mac: MacAddr,
    xid: u32,
    requested_ip: Ipv4Addr,
    server_ip: Option<Ipv4Addr>,
    ciaddr: Ipv4Addr,
) -> (r: Vec<u8>)
    ensures
        r@ == request_payload(mac, xid, requested_ip, server_ip, ciaddr),
        dhcp_message::decoded_options(r@) == request_options(requested_ip, server_ip, ciaddr),
{
    let mut flags: u16 = 0;
    let mut opts = dhcp_message::new_options();
    if ciaddr == Ipv4Addr::unspecified() {
        flags = FLAG_BROADCAST;
        dhcp_message::insert_address(&mut opts, AddressOption::RequestedIp, requested_ip);
        if let Some(server) = server_ip {
            dhcp_message::insert_address(&mut opts, AddressOption::ServerIdentifier, server);
        }
    }
    dhcp_message::insert_message_type(&mut opts, REQUEST);
    let head = DhcpHeader {
        opcode: BOOT_REQUEST,
        xid,
        flags,
        ciaddr,
        yiaddr: Ipv4Addr::unspecified(),
        siaddr: Ipv4Addr::unspecified(),
    };
    let chaddr = mac.octets();
    assert(dhcp_message::writable(request_options(requested_ip, server_ip, ciaddr)));
    dhcp_message::encode(&head, chaddr.as_slice(), opts).unwrap()
}

/// How many ones the binary digits of a number hold.
pub open spec fn ones(n: nat) -> nat
    decreases n,
{
    if n == 0 {
        0
    } else {
        n % 2 + ones(n / 2)
    }
}

/// The prefix length that a network mask stands for: the number of its ones.
pub fn prefix_length(mask: Ipv4Addr) -> (r: u8)
    ensures
        r == ones(mask.bits as nat),
        r <= 32,
{
    let mut n: u32 = mask.bits;
    let mut count: u8 = 0;
    let mut i: u32 = 0;
    proof {
        vstd::arithmetic::power2::lemma2_to64();
    }
    while i < 32
        invariant
            i <= 32,
            count <= i,
            n < pow2((32 - i) as nat),
            ones(mask.bits as nat) == count + ones(n as nat),
        decreases 32 - i,
    {
        proof {
            vstd::arithmetic::power2::lemma_pow2_unfold((32 - i) as nat);
        }
        count = count + (n % 2) as u8;
        n = n / 2;
        i = i + 1;
    }
    proof {
        vstd::arithmetic::power2::lemma2_to64();
    }
    count
}

/// What the client wants done.
pub enum TickAction {
    /// Nothing.
    Nothing,
    /// Send this message to the server port of this host.
    Send { payload: Vec<u8>, dest: Ipv4Addr },
    /// Take this address off the outer interface.
    Deconfigure { ip: Ipv4Addr, prefix_len: u8 },
}

/// The content of a `TickAction`.
pub enum TickView {
    Nothing,
    Send { payload: Seq<u8>, dest: Ipv4Addr },
    Deconfigure { ip: Ipv4Addr, prefix_len: u8 },
}

impl View for TickAction {
    type V = TickView;

    open spec fn view(&self) -> TickView {
        match self {
            TickAction::Nothing => TickView::Nothing,
            TickAction::Send { payload, dest } => TickView::Send {
                payload: payload@,
                dest: *dest,
            },
            TickAction::Deconfigure { ip, prefix_len } => TickView::Deconfigure {
                ip: *ip,
                prefix_len: *prefix_len,
            },
        }
    }
}

/// When the client turns from the server that gave the lease to any server, in
/// seconds after it got the lease: after seven eighths of it.
pub open spec fn rebinding_threshold(lease_secs: u32) -> u32 {
    (lease_secs * 7 / 8) as u32
}

/// The larger of two numbers.
pub open spec fn larger(a: int, b: int) -> int {
    if a >= b {
        a
    } else {
        b
    }
}

/// How long the client waits between two attempts to renew its lease, in
/// seconds: half the time that is left, to rebinding or to the end, and a
/// minute at least.
pub open spec fn renew_interval(elapsed: u32, lease_secs: u32, rebinding: u32) -> int {
    let until = if elapsed >= rebinding {
        lease_secs
    } else {
        rebinding
    };
    let left = larger(until - elapsed, 0);
    larger(left / 2, MIN_RENEW_SECS as int)
}

/// Where an attempt to renew a lease goes.
pub open spec fn renew_destination(
    elapsed: u32,
    rebinding: u32,
    server_ip: Option<Ipv4Addr>,
) -> Ipv4Addr {
    if elapsed >= rebinding {
        addr::broadcast_ip()
    } else {
        match server_ip {
            Some(server) => server,
            None => addr::broadcast_ip(),
        }
    }
}

/// Whether it is time for another attempt to renew a lease.
pub open spec fn renew_is_due(
    elapsed: u32,
    lease_secs: u32,
    rebinding: u32,
    renew_sent: Option<Instant>,
    now: Instant,
) -> bool {
    match renew_sent {
        None => true,
        Some(sent) => now.secs_since(sent) >= renew_interval(elapsed, lease_secs, rebinding),
    }
}

/// An attempt to renew a lease, if it is time for one; the second result says
/// when the last attempt was made. From `rebinding_threshold_secs` on it goes to
/// all servers.
pub fn handle_renewal_tick(
    mac: MacAddr,
    ip: Ipv4Addr,
    server_ip: Option<Ipv4Addr>,
    elapsed: u32,
    lease_secs: u32,
    rebinding_threshold_secs: u32,
    renew_xid: u32,
    renew_sent: Option<Instant>,
    now: Instant,
) -> (r: (TickAction, Option<Instant>))
    ensures
        if renew_is_due(elapsed, lease_secs, rebinding_threshold_secs, renew_sent, now) {
            r.0@ == (TickView::Send {
                payload: request_payload(mac, renew_xid, ip, None, ip),
                dest: renew_destination(elapsed, rebinding_threshold_secs, server_ip),
            }) && r.1 == Some(now)
        } else {
            r.0@ == TickView::Nothing && r.1 == renew_sent
        },
{
    let in_rebinding = elapsed >= rebinding_threshold_secs;
    let until: u32 = if in_rebinding {
        lease_secs
    } else {
        rebinding_threshold_secs
    };
    let left: u32 = if until >= elapsed {
        until - elapsed
    } else {
        0
    };
    let half: u32 = left / 2;
    let retry_interval: u32 = if half >= MIN_RENEW_SECS {
        half
    } else {
        MIN_RENEW_SECS
    };
    let dest_ip = if in_rebinding {
        Ipv4Addr::broadcast()
    } else {
        match server_ip {
            Some(server) => server,
            None => Ipv4Addr::broadcast(),
        }
    };
    let should_send = match renew_sent {
        None => true,
        Some(sent) => now.elapsed_secs(sent) >= retry_interval,
    };
    if should_send {
        let payload = send_request(mac, renew_xid, ip, None, ip);
        (TickAction::Send { payload, dest: dest_ip }, Some(now))
    } else {
        (TickAction::Nothing, renew_sent)
    }
}

/// What the client does when its clock ticks, where it stands afterwards, and
/// what it knows of its address. `threshold` is how many nanoseconds have to
/// have passed since a message for it to be sent again; `fresh_xid` is the
/// transaction of a new search.
pub open spec fn tick_step(
    state: ClientState,
    lease: WanLeaseView,
    mac: MacAddr,
    now: Instant,
    threshold: u64,
    fresh_xid: u32,
) -> (TickView, ClientState, WanLeaseView) {
    match state {
        ClientState::Discovering { xid, last_sent, retry_delay_secs } => if now.nanos_since(
            last_sent,
        ) >= threshold {
            (
                TickView::Send {
                    payload: discover_payload(mac, xid),
                    dest: addr::broadcast_ip(),
                },
                ClientState::Discovering {
                    xid,
                    last_sent: now,
                    retry_delay_secs: next_delay(retry_delay_secs),
                },
                lease,
            )
        } else {
            (TickView::Nothing, state, lease)
        },
        ClientState::Requesting { xid, offered_ip, server_ip, last_sent, retry_delay_secs } => if
        now.nanos_since(last_sent) >= threshold {
            (
                TickView::Send {
                    payload: request_payload(
                        mac,
                        xid,
                        offered_ip,
                        server_ip,
                        addr::unspecified_ip(),
                    ),
                    dest: addr::broadcast_ip(),
                },
                ClientState::Requesting {
                    xid,
                    offered_ip,
                    server_ip,
                    last_sent: now,
                    retry_delay_secs: next_delay(retry_delay_secs),
                },
                lease,
            )
        } else {
            (TickView::Nothing, state, lease)
        },
        ClientState::Bound {
            ip,
            mask,
            gateway,
            server_ip,
            lease_secs,
            bound_at,
            renew_sent,
            renew_xid,
        } => {
            let elapsed = now.secs_since(bound_at);
            let rebinding = rebinding_threshold(lease_secs);
            if elapsed >= lease_secs {
                (
                    TickView::Deconfigure { ip, prefix_len: ones(mask.bits as nat) as u8 },
                    initial_state(fresh_xid, now),
                    utils::no_lease(),
                )
            } else if elapsed >= lease_secs / 2 && renew_is_due(
                elapsed,
                lease_secs,
                rebinding,
                renew_sent,
                now,
            ) {
                (
                    TickView::Send {
                        payload: request_payload(mac, renew_xid, ip, None, ip),
                        dest: renew_destination(elapsed, rebinding, server_ip),
                    },
                    ClientState::Bound {
                        ip,
                        mask,
                        gateway,
                        server_ip,
                        lease_secs,
                        bound_at,
                        renew_sent: Some(now),
                        renew_xid,
                    },
                    lease,
                )
            } else {
                (TickView::Nothing, state, lease)
            }
        },
    }
}

/// What the client does when its clock ticks, with a given transaction for a new
/// search.
pub fn tick_with_xid(
    state: &mut ClientState,
    lease: &mut WanLease,
    mac: MacAddr,
    now: Instant,
    threshold: u64,
    fresh_xid: u32,
) -> (r: TickAction)
    requires
        old(state).wf(),
        now.in_range(),
    ensures
        final(state).wf(),
        (r@, *final(state), final(lease)@) == tick_step(
            *old(state),
            old(lease)@,
            mac,
            now,
            threshold,
            fresh_xid,
        ),
{
    let current: ClientState = *state;
    match current {
        ClientState::Discovering { xid, last_sent, retry_delay_secs } => {
            if now.elapsed_nanos(last_sent) < threshold {
                return TickAction::Nothing;
            }
            let payload = send_discover(mac, xid);
            *state =
            ClientState::Discovering {
                xid,
                last_sent: now,
                retry_delay_secs: calculate_next_delay(retry_delay_secs),
            };
            TickAction::Send { payload, dest: Ipv4Addr::broadcast() }
        },
        ClientState::Requesting { xid, offered_ip, server_ip, last_sent, retry_delay_secs } => {
            if now.elapsed_nanos(last_sent) < threshold {
                return TickAction::Nothing;
            }
            let payload = send_request(mac, xid, offered_ip, server_ip, Ipv4Addr::unspecified());
            *state =
            ClientState::Requesting {
                xid,
                offered_ip,
                server_ip,
                last_sent: now,
                retry_delay_secs: calculate_next_delay(retry_delay_secs),
            };
            TickAction::Send { payload, dest: Ipv4Addr::broadcast() }
        },
        ClientState::Bound {
            ip,
            mask,
            gateway,
            server_ip,
            lease_secs,
            bound_at,
            renew_sent,
            renew_xid,
        } => {
            let elapsed: u32 = now.elapsed_secs(bound_at);
            if elapsed >= lease_secs {
                let prefix_len: u8 = prefix_length(mask);
                *lease = WanLease::default();
                *state = discovering(fresh_xid, now);
                return TickAction::Deconfigure { ip, prefix_len };
            }
            if elapsed < lease_secs / 2 {
                return TickAction::Nothing;
            }
            let rebinding_threshold_secs: u32 = (lease_secs as u64 * 7 / 8) as u32;
            let (action, sent) = handle_renewal_tick(
                mac,
                ip,
                server_ip,
                elapsed,
                lease_secs,
                rebinding_threshold_secs,
                renew_xid,
                renew_sent,
                now,
            );
            *state =
            ClientState::Bound {
                ip,
                mask,
                gateway,
                server_ip,
                lease_secs,
                bound_at,
                renew_sent: sent,
                renew_xid,
            };
            action
        },
    }
}

/// How many nanoseconds have to have passed since a message for it to be sent
/// again, with `offset_nanos` for what chance gave: of no account where there is
/// an address.
pub open spec fn resend_threshold(state: ClientState, offset_nanos: i64) -> u64 {
    match state.retry_delay() {
        Some(base_secs) => jittered_nanos(base_secs, offset_nanos) as u64,
        None => 0,
    }
}

/// What the client does when its clock ticks. `offset_nanos` is by how much
/// chance moves an attempt that is due; a new search gets a transaction picked by
/// chance.
pub fn handle_state_tick(
    state: &mut ClientState,
    lease: &mut WanLease,
    mac: MacAddr,
    now: Instant,
    offset_nanos: i64,
) -> (r: TickAction)
    requires
        old(state).wf(),
        now.in_range(),
        -MAX_JITTER_NANOS <= offset_nanos <= MAX_JITTER_NANOS,
    ensures
        final(state).wf(),
        exists|fresh_xid: u32|
            (r@, *final(state), final(lease)@) == #[trigger] tick_step(
                *old(state),
                old(lease)@,
                mac,
                now,
                resend_threshold(*old(state), offset_nanos),
                fresh_xid,
            ),
{
    let fresh_xid: u32 = random_xid();
    let threshold: u64 = match state.retry_delay_secs() {
        Some(base_secs) => jittered(base_secs, offset_nanos),
        None => 0,
    };
    assert(threshold == resend_threshold(*state, offset_nanos));
    tick_with_xid(state, lease, mac, now, threshold, fresh_xid)
}

/// The server that a message names.
pub open spec fn server_named(options: Map<u8, Seq<u8>>) -> Option<Ipv4Addr> {
    if options.contains_key(OPT_SERVER_ID) {
        Some(Ipv4Addr { bits: addr::read32(options[OPT_SERVER_ID], 0) as u32 })
    } else {
        None
    }
}

/// The server that a message names.
pub fn get_server_identifier(dhcp: &DhcpMessage) -> (r: Option<Ipv4Addr>)
    ensures
        r == server_named(dhcp_message::options_of(dhcp.opts)),
{
    let server = dhcp_message::get_address(&dhcp.opts, AddressOption::ServerIdentifier);
    proof {
        if server is Some {
            addr::law_octets_spell_address(server->Some_0.bits);
        }
    }
    server
}

/// What a lease gives the client: its network mask, its gateway, the name
/// servers and the time in seconds.
pub struct LeaseOptions {
    pub mask: Ipv4Addr,
    pub gateway: Option<Ipv4Addr>,
    pub dns_servers: Vec<Ipv4Addr>,
    pub lease_secs: u32,
}

/// The network mask that a lease gives, 255.255.255.0 where it gives none.
pub open spec fn mask_given(options: Map<u8, Seq<u8>>) -> Ipv4Addr {
    if options.contains_key(OPT_SUBNET_MASK) {
        Ipv4Addr { bits: addr::read32(options[OPT_SUBNET_MASK], 0) as u32 }
    } else {
        Ipv4Addr { bits: 0xffff_ff00 }
    }
}

/// The gateway that a lease gives: the first of the routers it lists.
pub open spec fn gateway_given(options: Map<u8, Seq<u8>>) -> Option<Ipv4Addr> {
    if options.contains_key(OPT_ROUTER) && options[OPT_ROUTER].len() >= 4 {
        Some(dhcp_message::addresses_in(options[OPT_ROUTER])[0])
    } else {
        None
    }
}

/// The name servers that a lease gives.
pub open spec fn dns_given(options: Map<u8, Seq<u8>>) -> Seq<Ipv4Addr> {
    if options.contains_key(OPT_DNS) {
        dhcp_message::addresses_in(options[OPT_DNS])
    } else {
        seq![]
    }
}

/// The time that a lease gives, in seconds, an hour where it gives none.
pub open spec fn time_given(options: Map<u8, Seq<u8>>) -> u32 {
    if options.contains_key(OPT_LEASE_TIME) {
        addr::read32(options[OPT_LEASE_TIME], 0) as u32
    } else {
        DEFAULT_LEASE_SECS
    }
}

/// What a lease gives the client.
pub fn parse_lease_options(dhcp: &DhcpMessage) -> (r: LeaseOptions)
    ensures
        ({
            let options = dhcp_message::options_of(dhcp.opts);
            &&& r.mask == mask_given(options)
            &&& r.gateway == gateway_given(options)
            &&& r.dns_servers@ == dns_given(options)
            &&& r.lease_secs == time_given(options)
        }),
{
    let mask = match dhcp_message::get_address(&dhcp.opts, AddressOption::SubnetMask) {
        Some(mask) => {
            proof {
                addr::law_octets_spell_address(mask.bits);
            }
            mask
        },
        None => Ipv4Addr { bits: 0xffff_ff00 },
    };
    let gateway = match dhcp_message::get_addresses(&dhcp.opts, AddressListOption::Router) {
        Some(routers) => {
            proof {
                dhcp_message::law_address_octets_spell_list(routers@);
            }
            if routers.len() > 0 {
                Some(routers[0])
            } else {
                None
            }
        },
        None => None,
    };
    let dns_servers: Vec<Ipv4Addr> = match dhcp_message::get_addresses(
        &dhcp.opts,
        AddressListOption::DomainNameServer,
    ) {
        Some(servers) => {
            proof {
                dhcp_message::law_address_octets_spell_list(servers@);
            }
            servers
        },
        None => Vec::new(),
    };
    let lease_secs: u32 = match dhcp_message::get_lease_time(&dhcp.opts) {
        Some(secs) => {
            proof {
                addr::law_octets_spell_address(secs);
            }
            secs
        },
        None => DEFAULT_LEASE_SECS,
    };
    LeaseOptions { mask, gateway, dns_servers, lease_secs }
}

/// Whether two lists of addresses are the same.
fn same_addresses(a: &Vec<Ipv4Addr>, b: &Vec<Ipv4Addr>) -> (r: bool)
    ensures
        r == (a@ == b@),
{
    if a.len() != b.len() {
        return false;
    }
    let mut i: usize = 0;
    while i < a.len()
        invariant
            a.len() == b.len(),
            i <= a.len(),
            forall|k: int| 0 <= k < i ==> #[trigger] a@[k] == b@[k],
        decreases a.len() - i,
    {
        if a[i] != b[i] {
            return false;
        }
        i += 1;
    }
    assert(a@ =~= b@);
    true
}

/// How the outer interface is to be set up.
#[derive(Clone, Copy, Debug, PartialEq, Eq, Structural)]
pub struct WanSetup {
    pub ip: Ipv4Addr,
    pub prefix_len: u8,
    pub gateway: Option<Ipv4Addr>,
}

/// A step of setting the outer interface up.
#[derive(Clone, Copy, Debug, PartialEq, Eq, Structural)]
pub enum WanStep {
    /// Take all addresses off it.
    FlushAddresses,
    /// Set its link up.
    LinkUp,
    /// Give it an address.
    AddAddress { ip: Ipv4Addr, prefix_len: u8 },
    /// Send what is for elsewhere to a gateway.
    AddDefaultRoute { gateway: Ipv4Addr },
}

impl WanStep {
    /// Whether the setup ends where the step fails: all steps are needed but for
    /// the route.
    pub open spec fn required(self) -> bool {
        self !is AddDefaultRoute
    }

    /// Whether the setup ends where the step fails: all steps are needed but for
    /// the route.
    pub fn is_required(&self) -> (r: bool)
        ensures
            r == self.required(),
    {
        match self {
            WanStep::AddDefaultRoute { .. } => false,
            _ => true,
        }
    }
}

/// The steps of setting the outer interface up, in order.
pub open spec fn wan_steps(setup: WanSetup) -> Seq<WanStep> {
    let steps = seq![
        WanStep::FlushAddresses,
        WanStep::LinkUp,
        WanStep::AddAddress { ip: setup.ip, prefix_len: setup.prefix_len },
    ];
    match setup.gateway {
        Some(gateway) => steps.push(WanStep::AddDefaultRoute { gateway }),
        None => steps,
    }
}

/// The steps of setting the outer interface up, in order.
pub fn configure_wan(setup: WanSetup) -> (r: Vec<WanStep>)
    ensures
        r@ == wan_steps(setup),
{
    let mut steps = vec![
        WanStep::FlushAddresses,
        WanStep::LinkUp,
        WanStep::AddAddress { ip: setup.ip, prefix_len: setup.prefix_len },
    ];
    if let Some(gateway) = setup.gateway {
        steps.push(WanStep::AddDefaultRoute { gateway });
    }
    assert(steps@ =~= wan_steps(setup));
    steps
}

/// Whether an address of some interface, with `link` for that interface and
/// `locals` for what it gives as the host's own, is the one that is given up on
/// the interface `wan_link`.
pub fn deconfigure_wan(link: u32, wan_link: u32, locals: &Vec<Ipv4Addr>, ip: Ipv4Addr) -> (r: bool)
    ensures
        r == (link == wan_link && locals@.contains(ip)),
{
    if link != wan_link {
        return false;
    }
    let mut i: usize = 0;
    while i < locals.len()
        invariant
            link == wan_link,
            i <= locals.len(),
            forall|k: int| 0 <= k < i ==> #[trigger] locals@[k] != ip,
        decreases locals.len() - i,
    {
        if locals[i] == ip {
            assert(locals@[i as int] == ip);
            return true;
        }
        i += 1;
    }
    false
}

/// What an acknowledgement of the address `ip` says of the client's address.
pub open spec fn lease_given(ip: Ipv4Addr, options: Map<u8, Seq<u8>>) -> WanLeaseView {
    WanLeaseView {
        ip: Some(ip),
        mask: Some(mask_given(options)),
        gateway: gateway_given(options),
        dns_servers: dns_given(options),
    }
}

/// How the outer interface is to be set up for an acknowledged address.
pub open spec fn setup_given(ip: Ipv4Addr, options: Map<u8, Seq<u8>>) -> WanSetup {
    WanSetup {
        ip,
        prefix_len: ones(mask_given(options).bits as nat) as u8,
        gateway: gateway_given(options),
    }
}

/// What an acknowledgement leads to: the outer interface is set up anew where
/// anything changed, and the client has its address.
pub open spec fn ack_step(
    ip: Ipv4Addr,
    options: Map<u8, Seq<u8>>,
    lease: WanLeaseView,
    now: Instant,
    fresh_xid: u32,
) -> (Option<WanSetup>, ClientState, WanLeaseView) {
    let given = lease_given(ip, options);
    (
        if lease == given {
            None
        } else {
            Some(setup_given(ip, options))
        },
        ClientState::Bound {
            ip,
            mask: mask_given(options),
            gateway: gateway_given(options),
            server_ip: server_named(options),
            lease_secs: time_given(options),
            bound_at: now,
            renew_sent: None,
            renew_xid: fresh_xid,
        },
        given,
    )
}

/// Takes an acknowledgement.
pub fn handle_ack_received(
    dhcp: &DhcpMessage,
    state: &mut ClientState,
    lease: &mut WanLease,
    now: Instant,
    fresh_xid: u32,
) -> (r: Option<WanSetup>)
    ensures
        final(state).wf(),
        (r, *final(state), final(lease)@) == ack_step(
            dhcp.yiaddr,
            dhcp_message::options_of(dhcp.opts),
            old(lease)@,
            now,
            fresh_xid,
        ),
{
    let given = parse_lease_options(dhcp);
    let ip = dhcp.yiaddr;
    let server_ip = get_server_identifier(dhcp);
    let mask = given.mask;
    let gateway = given.gateway;
    let lease_secs: u32 = given.lease_secs;
    let changed = lease.ip != Some(ip) || lease.mask != Some(mask) || lease.gateway != gateway
        || !same_addresses(&lease.dns_servers, &given.dns_servers);
    let setup = if changed {
        lease.ip = Some(ip);
        lease.mask = Some(mask);
        lease.gateway = gateway;
        lease.dns_servers = given.dns_servers;
        Some(WanSetup { ip, prefix_len: prefix_length(mask), gateway })
    } else {
        None
    };
    *state =
    ClientState::Bound {
        ip,
        mask,
        gateway,
        server_ip,
        lease_secs,
        bound_at: now,
        renew_sent: None,
        renew_xid: fresh_xid,
    };
    setup
}

/// What a message leads to. It has to be of the client's transaction and to have
/// a message type. An offer counts while the client looks for a server; an
/// acknowledgement counts always; all else is ignored.
pub open spec fn incoming_step(
    payload: Seq<u8>,
    state: ClientState,
    lease: WanLeaseView,
    now: Instant,
    fresh_xid: u32,
) -> (Option<WanSetup>, ClientState, WanLeaseView) {
    let options = dhcp_message::decoded_options(payload);
    let ip = Ipv4Addr { bits: addr::read32(payload, 16) as u32 };
    if payload.len() < FIXED_LEN || addr::read32(payload, 4) != state.transaction()
        || !options.contains_key(OPT_MESSAGE_TYPE) {
        (None, state, lease)
    } else if options[OPT_MESSAGE_TYPE][0] == OFFER && state is Discovering {
        (
            None,
            ClientState::Requesting {
                xid: state.transaction(),
                offered_ip: ip,
                server_ip: server_named(options),
                last_sent: now.plus(-NEVER_SENT_SECS),
                retry_delay_secs: FIRST_RETRY_SECS,
            },
            lease,
        )
    } else if options[OPT_MESSAGE_TYPE][0] == ACK {
        ack_step(ip, options, lease, now, fresh_xid)
    } else {
        (None, state, lease)
    }
}

/// Takes a message, with a given transaction for the renewal of a lease.
pub fn receive_with_xid(
    payload: &[u8],
    state: &mut ClientState,
    lease: &mut WanLease,
    now: Instant,
    fresh_xid: u32,
) -> (r: Option<WanSetup>)
    requires
        old(state).wf(),
        now.in_range(),
        dhcp_message::readable(payload@),
    ensures
        final(state).wf(),
        (r, *final(state), final(lease)@) == incoming_step(
            payload@,
            *old(state),
            old(lease)@,
            now,
            fresh_xid,
        ),
{
    let dhcp = match dhcp_message::decode(payload) {
        Some(dhcp) => dhcp,
        None => {
            return None;
        },
    };
    if dhcp.xid != state.expected_xid() {
        return None;
    }
    let kind: u8 = match dhcp_message::get_message_type(&dhcp.opts) {
        Some(kind) => kind,
        None => {
            return None;
        },
    };
    if kind == OFFER {
        let current: ClientState = *state;
        if let ClientState::Discovering { xid, .. } = current {
            *state =
            ClientState::Requesting {
                xid,
                offered_ip: dhcp.yiaddr,
                server_ip: get_server_identifier(&dhcp),
                last_sent: now.before(NEVER_SENT_SECS),
                retry_delay_secs: FIRST_RETRY_SECS,
            };
        }
        return None;
    }
    if kind == ACK {
        return handle_ack_received(&dhcp, state, lease, now, fresh_xid);
    }
    None
}

/// Takes a message; the renewal of a lease gets a transaction picked by chance.
pub fn handle_incoming_packet(
    payload: &[u8],
    state: &mut ClientState,
    lease: &mut WanLease,
    now: Instant,
) -> (r: Option<WanSetup>)
    requires
        old(state).wf(),
        now.in_range(),
        dhcp_message::readable(payload@),
    ensures
        final(state).wf(),
        exists|fresh_xid: u32|
            (r, *final(state), final(lease)@) == #[trigger] incoming_step(
                payload@,
                *old(state),
                old(lease)@,
                now,
                fresh_xid,
            ),
{
    let fresh_xid: u32 = random_xid();
    receive_with_xid(payload, state, lease, now, fresh_xid)
}

/// Takes a message, as `handle_incoming_packet` does; one that cannot be read has
/// no effect.
pub fn take_message(
    payload: &[u8],
    state: &mut ClientState,
    lease: &mut WanLease,
    now: Instant,
) -> (r: Option<WanSetup>)
    requires
        old(state).wf(),
        now.in_range(),
    ensures
        final(state).wf(),
        dhcp_message::readable(payload@) ==> exists|fresh_xid: u32|
            (r, *final(state), final(lease)@) == #[trigger] incoming_step(
                payload@,
                *old(state),
                old(lease)@,
                now,
                fresh_xid,
            ),
        !dhcp_message::readable(payload@) ==> r is None && *final(state) == *old(state)
            && *final(lease) == *old(lease),
{
    if dhcp_message::is_readable(payload) {
        handle_incoming_packet(payload, state, lease, now)
    } else {
        None
    }
}

/// The frame that carries a client's message. The link-layer address of the
/// server is not known, so the frame goes to all.
pub open spec fn message_frame(
    mac: MacAddr,
    source: Ipv4Addr,
    dest: Ipv4Addr,
    payload: Seq<u8>,
) -> Seq<u8> {
    packet::frame_of(
        mac,
        addr::broadcast_mac(),
        source,
        dest,
        CLIENT_PORT,
        SERVER_PORT,
        payload,
    )
}

/// The frame that carries a message of a client in this state.
pub fn build_message_frame(
    state: &ClientState,
    mac: MacAddr,
    payload: &[u8],
    dest: Ipv4Addr,
) -> (r: Vec<u8>)
    requires
        payload@.len() <= packet::MAX_PAYLOAD,
    ensures
        r@ == message_frame(mac, state.own_address(), dest, payload@),
{
    let source = match state {
        ClientState::Bound { ip, .. } => *ip,
        _ => Ipv4Addr::unspecified(),
    };
    packet::build_raw_packet(
        mac,
        MacAddr::broadcast(),
        source,
        dest,
        CLIENT_PORT,
        SERVER_PORT,
        payload,
    )
}

/// Takes the message in a frame; a frame without one for the client, or with one
/// that cannot be read, has no effect.
pub fn take_frame(
    frame: &[u8],
    state: &mut ClientState,
    lease: &mut WanLease,
    now: Instant,
) -> (r: Option<WanSetup>)
    requires
        old(state).wf(),
        now.in_range(),
    ensures
        final(state).wf(),
        (match packet::udp_payload_of(frame@, CLIENT_PORT) {
            Some(payload) => dhcp_message::readable(payload) ==> exists|fresh_xid: u32|
                (r, *final(state), final(lease)@) == #[trigger] incoming_step(
                    payload,
                    *old(state),
                    old(lease)@,
                    now,
                    fresh_xid,
                ),
            None => true,
        }),
        !(packet::udp_payload_of(frame@, CLIENT_PORT) matches Some(payload)
            && dhcp_message::readable(payload)) ==> r is None && *final(state) == *old(state)
            && *final(lease) == *old(lease),
{
    match packet::udp_payload(frame, CLIENT_PORT) {
        Some(payload) => take_message(payload.as_slice(), state, lease, now),
        None => None,
    }
}

/// The time before an attempt never falls from one attempt to the next while
/// it is within its bound, and never exceeds the bound after an attempt.
pub proof fn law_backoff_rises_to_bound(delay: u32)
    ensures
        next_delay(delay) <= MAX_RETRY_SECS,
        delay <= MAX_RETRY_SECS ==> delay <= next_delay(delay),
        delay <= MAX_RETRY_SECS / 2 ==> next_delay(delay) == 2 * delay,
{
}

/// No message is repeated before its time: a tick that comes too soon after the
/// last message does nothing.
pub proof fn law_nothing_is_sent_too_soon(
    state: ClientState,
    lease: WanLeaseView,
    mac: MacAddr,
    now: Instant,
    threshold: u64,
    fresh_xid: u32,
)
    requires
        (match state {
            ClientState::Discovering { last_sent, .. } => now.nanos_since(last_sent) < threshold,
            ClientState::Requesting { last_sent, .. } => now.nanos_since(last_sent) < threshold,
            ClientState::Bound { .. } => false,
        }),
    ensures
        tick_step(state, lease, mac, now, threshold, fresh_xid) == (
            TickView::Nothing,
            state,
            lease,
        ),
{
}

/// A message is sent again as soon as the time before the attempt has passed,
/// moved by what chance gave, and no sooner. Whatever chance gave, that is not
/// within a second of the last attempt, and not more than a second away from the
/// time before the attempt to either side.
pub proof fn law_resend_waits_out_its_delay(
    state: ClientState,
    lease: WanLeaseView,
    mac: MacAddr,
    now: Instant,
    offset_nanos: i64,
    fresh_xid: u32,
)
    requires
        state !is Bound,
        -MAX_JITTER_NANOS <= offset_nanos <= MAX_JITTER_NANOS,
    ensures
        ({
            let delay = state.retry_delay()->Some_0;
            let sent = match state {
                ClientState::Discovering { last_sent, .. } => last_sent,
                ClientState::Requesting { last_sent, .. } => last_sent,
                ClientState::Bound { bound_at, .. } => bound_at,
            };
            let passed = now.nanos_since(sent);
            let second = crate::time::NANOS_PER_SEC;
            let threshold = resend_threshold(state, offset_nanos);
            let (action, _, _) = tick_step(state, lease, mac, now, threshold, fresh_xid);
            &&& action is Send <==> passed >= jittered_nanos(delay, offset_nanos)
            &&& action is Send ==> passed >= second && passed >= (delay - 1) * second
            &&& passed >= (delay + 1) * second ==> action is Send
        }),
{
}

proof fn lemma_ones_of_full(n: nat)
    ensures
        ones((pow2(n) - 1) as nat) == n,
    decreases n,
{
    vstd::arithmetic::power2::lemma2_to64();
    if n > 0 {
        lemma_ones_of_full((n - 1) as nat);
        vstd::arithmetic::power2::lemma_pow2_unfold(n);
        vstd::arithmetic::power2::lemma_pow2_pos((n - 1) as nat);
        let m = (pow2(n) - 1) as nat;
        assert(m % 2 == 1 && m / 2 == pow2((n - 1) as nat) - 1);
    }
}

proof fn lemma_ones_of_shifted(m: nat, k: nat)
    ensures
        ones(m * pow2(k)) == ones(m),
    decreases k,
{
    vstd::arithmetic::power2::lemma2_to64();
    if k == 0 {
        assert(m * pow2(0) == m);
    } else {
        lemma_ones_of_shifted(m, (k - 1) as nat);
        vstd::arithmetic::power2::lemma_pow2_unfold(k);
        let half = m * pow2((k - 1) as nat);
        assert(m * pow2(k) == 2 * half) by (nonlinear_arith)
            requires
                pow2(k) == 2 * pow2((k - 1) as nat),
                half == m * pow2((k - 1) as nat),
        ;
        assert((2 * half) % 2 == 0 && (2 * half) / 2 == half);
    }
}

/// The mask of a network gives back its prefix length.
pub proof fn law_mask_gives_prefix_length(net: Subnet)
    requires
        net.wf(),
    ensures
        0 <= net.mask() <= 0xffff_ffff,
        ones(net.mask() as nat) == net.prefix_len,
{
    crate::subnet::law_subnet_bounds(net);
    let p = net.prefix_len as nat;
    let k = (32 - net.prefix_len) as nat;
    vstd::arithmetic::power2::lemma2_to64();
    vstd::arithmetic::power2::lemma_pow2_adds(p, k);
    vstd::arithmetic::power2::lemma_pow2_pos(p);
    let m = (pow2(p) - 1) as nat;
    assert(m * pow2(k) == pow2(p) * pow2(k) - pow2(k)) by (nonlinear_arith)
        requires
            m == pow2(p) - 1,
    ;
    assert(net.mask() == m * pow2(k));
    lemma_ones_of_shifted(m, k);
    lemma_ones_of_full(p);
}

/// A message of another transaction changes nothing.
pub proof fn law_foreign_message_is_ignored(
    payload: Seq<u8>,
    state: ClientState,
    lease: WanLeaseView,
    now: Instant,
    fresh_xid: u32,
)
    requires
        addr::read32(payload, 4) != state.transaction(),
    ensures
        incoming_step(payload, state, lease, now, fresh_xid) == (None::<WanSetup>, state, lease),
{
}

/// Whether what the client knows of its address is what it is bound to.
pub open spec fn agree(state: ClientState, lease: WanLeaseView) -> bool {
    state matches ClientState::Bound { ip, mask, gateway, .. } ==> lease.ip == Some(ip)
        && lease.mask == Some(mask) && lease.gateway == gateway
}

/// What the client knows of its address agrees with what it is bound to,
/// whatever happens: after a tick of the clock and after a message, if it did
/// so before.
pub proof fn law_lease_agrees_with_state(
    state: ClientState,
    lease: WanLeaseView,
    mac: MacAddr,
    payload: Seq<u8>,
    now: Instant,
    threshold: u64,
    fresh_xid: u32,
)
    requires
        agree(state, lease),
    ensures
        ({
            let (_, ticked, known) = tick_step(state, lease, mac, now, threshold, fresh_xid);
            agree(ticked, known)
        }),
        ({
            let (_, told, known) = incoming_step(payload, state, lease, now, fresh_xid);
            agree(told, known)
        }),
{
}

/// Once a lease has run out the client gives its address up, forgets what it
/// knew of it and looks for a server again.
pub proof fn law_lease_ends(
    state: ClientState,
    lease: WanLeaseView,
    mac: MacAddr,
    now: Instant,
    threshold: u64,
    fresh_xid: u32,
)
    requires
        state matches ClientState::Bound { lease_secs, bound_at, .. } && now.secs_since(bound_at)
            >= lease_secs,
    ensures
        ({
            let (action, after, known) = tick_step(state, lease, mac, now, threshold, fresh_xid);
            &&& action matches TickView::Deconfigure { ip, .. } && ip == state->Bound_ip
            &&& after == initial_state(fresh_xid, now)
            &&& known == utils::no_lease()
        }),
{
}

/// The client leaves its lease alone for the first half of it. In the second
/// half it asks to renew it: the server that gave it, as far as that is known,
/// until seven eighths have passed, and all servers after that.
pub proof fn law_renewal_times(
    state: ClientState,
    lease: WanLeaseView,
    mac: MacAddr,
    now: Instant,
    threshold: u64,
    fresh_xid: u32,
)
    requires
        state matches ClientState::Bound { lease_secs, bound_at, .. } && now.secs_since(bound_at)
            < lease_secs,
    ensures
        ({
            let lease_secs = state->Bound_lease_secs;
            let elapsed = now.secs_since(state->Bound_bound_at);
            let (action, after, known) = tick_step(state, lease, mac, now, threshold, fresh_xid);
            &&& known == lease
            &&& 2 * elapsed + 1 < lease_secs ==> action == TickView::Nothing && after == state
            &&& action matches TickView::Send { payload, dest } ==> {
                &&& payload == request_payload(
                    mac,
                    state->Bound_renew_xid,
                    state->Bound_ip,
                    None,
                    state->Bound_ip,
                )
                &&& 8 * elapsed >= 7 * lease_secs ==> dest == addr::broadcast_ip()
                &&& 8 * elapsed + 7 < 7 * lease_secs && state->Bound_server_ip is Some ==> Some(
                    dest,
                ) == state->Bound_server_ip
            }
        }),
{
}

/// An offer is answered at once: the next tick sends a request for the offered
/// address, whatever time the caller lets pass between attempts, up to ten
/// seconds.
pub proof fn law_offer_is_taken_up(
    payload: Seq<u8>,
    state: ClientState,
    lease: WanLeaseView,
    mac: MacAddr,
    now: Instant,
    later: Instant,
    threshold: u64,
    fresh_xid: u32,
)
    requires
        payload.len() >= FIXED_LEN,
        state is Discovering,
        addr::read32(payload, 4) == state.transaction(),
        ({
            let options = dhcp_message::decoded_options(payload);
            options.contains_key(OPT_MESSAGE_TYPE) && options[OPT_MESSAGE_TYPE][0] == OFFER
        }),
        now.in_range(),
        now.nanos <= later.nanos,
        threshold <= NEVER_SENT_SECS * crate::time::NANOS_PER_SEC,
    ensures
        ({
            let (_, told, known) = incoming_step(payload, state, lease, now, fresh_xid);
            let (action, _, _) = tick_step(told, known, mac, later, threshold, fresh_xid);
            action == (TickView::Send {
                payload: request_payload(
                    mac,
                    state.transaction(),
                    Ipv4Addr { bits: addr::read32(payload, 16) as u32 },
                    server_named(dhcp_message::decoded_options(payload)),
                    addr::unspecified_ip(),
                ),
                dest: addr::broadcast_ip(),
            })
        }),
{
}

/// The ones of a number's binary digits: those of its half, and one more where it
/// is odd.
pub proof fn law_ones_are_counted(n: nat)
    ensures
        ones(0) == 0,
        ones(2 * n) == ones(n),
        ones(2 * n + 1) == ones(n) + 1,
{
    if n > 0 {
        assert((2 * n) % 2 == 0 && (2 * n) / 2 == n);
    }
    assert((2 * n + 1) % 2 == 1 && (2 * n + 1) / 2 == n);
}

/// How the time before an attempt comes about: the delay of the state, moved by
/// what chance gave, but a second at least; and each attempt doubles the delay, up
/// to 64 seconds.
pub proof fn law_delay_is_moved_and_doubled(
    state: ClientState,
    base_secs: u32,
    offset_nanos: i64,
)
    requires
        -1_000_000_000 <= offset_nanos <= 1_000_000_000,
        (match state {
            ClientState::Discovering { retry_delay_secs, .. } => retry_delay_secs == base_secs,
            ClientState::Requesting { retry_delay_secs, .. } => retry_delay_secs == base_secs,
            ClientState::Bound { .. } => true,
        }),
    ensures
        ({
            let moved = base_secs * 1_000_000_000 + offset_nanos;
            &&& moved >= 1_000_000_000 ==> jittered_nanos(base_secs, offset_nanos) == moved
            &&& moved < 1_000_000_000 ==> jittered_nanos(base_secs, offset_nanos) == 1_000_000_000
            &&& state !is Bound && moved >= 1_000_000_000 ==> resend_threshold(state, offset_nanos)
                == moved
            &&& state !is Bound && moved < 1_000_000_000 ==> resend_threshold(state, offset_nanos)
                == 1_000_000_000
        }),
        base_secs <= 32 ==> next_delay(base_secs) == 2 * base_secs,
        base_secs > 32 ==> next_delay(base_secs) == 64,
{
}

/// A client that starts looks for a server under the given transaction, can send at
/// once, and waits four seconds before it tries again.
pub proof fn law_search_starts_at_once(xid: u32, now: Instant)
    requires
        now.in_range(),
    ensures
        initial_state(xid, now) matches ClientState::Discovering {
            xid: own,
            last_sent,
            retry_delay_secs,
        } && own == xid && last_sent.nanos + 10 * 1_000_000_000 == now.nanos && retry_delay_secs
            == 4,
{
}

/// Whether a message is a client's, of the given transaction, with the given flags
/// and address, and names no other address.
pub open spec fn is_from_client(
    m: Seq<u8>,
    mac: MacAddr,
    xid: u32,
    flags: int,
    ciaddr: Ipv4Addr,
) -> bool {
    &&& m.len() >= 240
    &&& m[0] == 1 && m[1] == 1 && m[2] == 6 && m[3] == 0
    &&& addr::read32(m, 4) == xid
    &&& addr::read16(m, 8) == 0
    &&& addr::read16(m, 10) == flags
    &&& addr::read32(m, 12) == ciaddr.bits
    &&& addr::read32(m, 16) == 0
    &&& addr::read32(m, 20) == 0
    &&& addr::read32(m, 24) == 0
    &&& MacAddr(m[28], m[29], m[30], m[31], m[32], m[33]) == mac
    &&& forall|i: int| 34 <= i < 236 ==> #[trigger] m[i] == 0
    &&& m[236] == 99 && m[237] == 130 && m[238] == 83 && m[239] == 99
}

#[verifier::spinoff_prover]
#[verifier::rlimit(40)]
proof fn lemma_client_message(
    xid: u32,
    flags: u16,
    ciaddr: Ipv4Addr,
    mac: MacAddr,
    options: Map<u8, Seq<u8>>,
)
    ensures
        ({
            let m = dhcp_message::message_octets(
                request_header(xid, flags, ciaddr),
                mac.spec_octets(),
                options,
            );
            &&& is_from_client(m, mac, xid, flags as int, ciaddr)
            &&& m.skip(240) == dhcp_message::options_octets(options)
        }),
{
    let chaddr = mac.spec_octets();
    let m = dhcp_message::message_octets(request_header(xid, flags, ciaddr), chaddr, options);
    dhcp_message::law_message_fields_stand_in_place(
        request_header(xid, flags, ciaddr),
        chaddr,
        options,
    );
    assert(m[28] == chaddr[0] && m[29] == chaddr[1] && m[30] == chaddr[2] && m[31] == chaddr[3]
        && m[32] == chaddr[4] && m[33] == chaddr[5]);
}

/// A search for a server, octet by octet: it comes from no address, asks for
/// replies to all, says what it is, and asks for the mask, the routers and the name
/// servers.
#[verifier::spinoff_prover]
#[verifier::rlimit(40)]
pub proof fn law_search_in_octets(mac: MacAddr, xid: u32)
    ensures
        is_from_client(discover_payload(mac, xid), mac, xid, 0x8000, Ipv4Addr { bits: 0 }),
        discover_payload(mac, xid).skip(240) == seq![53u8, 1, 1, 55, 3, 1, 3, 6, 255],
{
    let options = discover_options();
    lemma_client_message(xid, 0x8000, Ipv4Addr { bits: 0 }, mac, options);
    assert(dhcp_message::option_octets(options, 1) =~= seq![]);
    assert(dhcp_message::option_octets(options, 3) =~= seq![]);
    assert(dhcp_message::option_octets(options, 6) =~= seq![]);
    assert(dhcp_message::option_octets(options, 50) =~= seq![]);
    assert(dhcp_message::option_octets(options, 51) =~= seq![]);
    assert(dhcp_message::option_octets(options, 53) =~= seq![53u8, 1, 1]);
    assert(dhcp_message::option_octets(options, 54) =~= seq![]);
    assert(dhcp_message::option_octets(options, 55) =~= seq![55u8, 3, 1, 3, 6]);
    assert(dhcp_message::options_octets(options) =~= seq![53u8, 1, 1, 55, 3, 1, 3, 6, 255]);
}

/// A request for an address, octet by octet. That of a client without an address
/// asks for replies to all and names the address, and the server if one is known.
/// That of a client with an address names that address for its own and nothing
/// else.
#[verifier::spinoff_prover]
#[verifier::rlimit(40)]
pub proof fn law_request_in_octets(
    mac: MacAddr,
    xid: u32,
    requested_ip: Ipv4Addr,
    server_ip: Option<Ipv4Addr>,
    ciaddr: Ipv4Addr,
)
    ensures
        ({
            let m = request_payload(mac, xid, requested_ip, server_ip, ciaddr);
            if ciaddr.bits == 0 {
                &&& is_from_client(m, mac, xid, 0x8000, ciaddr)
                &&& server_ip matches Some(server) ==> m.skip(240) == seq![50u8, 4]
                    + addr::octets32(requested_ip.bits) + seq![53u8, 1, 3] + seq![54u8, 4]
                    + addr::octets32(server.bits) + seq![255u8]
                &&& server_ip is None ==> m.skip(240) == seq![50u8, 4] + addr::octets32(
                    requested_ip.bits,
                ) + seq![53u8, 1, 3] + seq![255u8]
            } else {
                &&& is_from_client(m, mac, xid, 0, ciaddr)
                &&& m.skip(240) == seq![53u8, 1, 3, 255]
            }
        }),
{
    let options = request_options(requested_ip, server_ip, ciaddr);
    lemma_client_message(xid, 0x8000, ciaddr, mac, options);
    lemma_client_message(xid, 0, ciaddr, mac, options);
    let named = seq![50u8, 4] + addr::octets32(requested_ip.bits);
    assert(dhcp_message::option_octets(options, 1) =~= seq![]);
    assert(dhcp_message::option_octets(options, 3) =~= seq![]);
    assert(dhcp_message::option_octets(options, 6) =~= seq![]);
    assert(dhcp_message::option_octets(options, 51) =~= seq![]);
    assert(dhcp_message::option_octets(options, 53) =~= seq![53u8, 1, 3]);
    assert(dhcp_message::option_octets(options, 55) =~= seq![]);
    let octets = dhcp_message::options_octets(options);
    if ciaddr.bits == 0 {
        assert(ciaddr == addr::unspecified_ip());
        assert(dhcp_message::option_octets(options, 50) =~= named);
        match server_ip {
            Some(server) => {
                assert(dhcp_message::option_octets(options, 54) =~= seq![54u8, 4] + addr::octets32(
                    server.bits,
                ));
                assert(octets =~= named + seq![53u8, 1, 3] + seq![54u8, 4] + addr::octets32(
                    server.bits,
                ) + seq![255u8]);
            },
            None => {
                assert(dhcp_message::option_octets(options, 54) =~= seq![]);
                assert(octets =~= named + seq![53u8, 1, 3] + seq![255u8]);
            },
        }
    } else {
        assert(dhcp_message::option_octets(options, 50) =~= seq![]);
        assert(dhcp_message::option_octets(options, 54) =~= seq![]);
        assert(octets =~= seq![53u8, 1, 3, 255]);
    }
}

/// What a client without an address does when its clock ticks. Before its time
/// nothing happens. After it the message of the state goes to all, of the same
/// transaction: a search, or a request that names the offered address and the
/// server that offered it. Then the time of the message is noted and the delay is
/// doubled, up to 64 seconds, and nothing else changes.
#[verifier::spinoff_prover]
#[verifier::rlimit(40)]
pub proof fn law_searching_client_repeats_itself(
    state: ClientState,
    lease: WanLeaseView,
    mac: MacAddr,
    now: Instant,
    threshold: u64,
    fresh_xid: u32,
)
    requires
        state !is Bound,
        state.wf(),
    ensures
        ({
            let (action, after, known) = tick_step(state, lease, mac, now, threshold, fresh_xid);
            let (sent, delay) = match state {
                ClientState::Discovering { last_sent, retry_delay_secs, .. } => (
                    last_sent,
                    retry_delay_secs,
                ),
                ClientState::Requesting { last_sent, retry_delay_secs, .. } => (
                    last_sent,
                    retry_delay_secs,
                ),
                ClientState::Bound { bound_at, .. } => (bound_at, 0),
            };
            let doubled = if delay <= 32 {
                2 * delay
            } else {
                64
            };
            &&& known == lease
            &&& threshold > 0 && now.nanos < sent.nanos + threshold ==> action is Nothing && after
                == state
            &&& threshold == 0 || now.nanos >= sent.nanos
                + threshold ==> (action matches TickView::Send {
                payload,
                dest,
            } && dest.bits == 0xffff_ffff && (match state {
                ClientState::Discovering { xid, .. } => {
                    &&& is_from_client(payload, mac, xid, 0x8000, Ipv4Addr { bits: 0 })
                    &&& payload.skip(240) == seq![53u8, 1, 1, 55, 3, 1, 3, 6, 255]
                    &&& after == (ClientState::Discovering {
                        xid,
                        last_sent: now,
                        retry_delay_secs: doubled as u32,
                    })
                },
                ClientState::Requesting { xid, offered_ip, server_ip, .. } => {
                    &&& is_from_client(payload, mac, xid, 0x8000, Ipv4Addr { bits: 0 })
                    &&& server_ip matches Some(server) ==> payload.skip(240) == seq![50u8, 4]
                        + addr::octets32(offered_ip.bits) + seq![53u8, 1, 3] + seq![54u8, 4]
                        + addr::octets32(server.bits) + seq![255u8]
                    &&& server_ip is None ==> payload.skip(240) == seq![50u8, 4] + addr::octets32(
                        offered_ip.bits,
                    ) + seq![53u8, 1, 3] + seq![255u8]
                    &&& after == (ClientState::Requesting {
                        xid,
                        offered_ip,
                        server_ip,
                        last_sent: now,
                        retry_delay_secs: doubled as u32,
                    })
                },
                ClientState::Bound { .. } => true,
            }))
        }),
{
    match state {
        ClientState::Discovering { xid, .. } => {
            law_search_in_octets(mac, xid);
        },
        ClientState::Requesting { xid, offered_ip, server_ip, .. } => {
            law_request_in_octets(mac, xid, offered_ip, server_ip, Ipv4Addr { bits: 0 });
        },
        _ => {},
    }
}

proof fn lemma_whole_seconds(now: Instant, since: Instant, n: int)
    requires
        now.nanos >= since.nanos ==> n == (now.nanos - since.nanos) / 1_000_000_000 % 0x1_0000_0000,
        now.nanos < since.nanos ==> n == 0,
    ensures
        now.secs_since(since) == n,
        0 <= n < 0x1_0000_0000,
{
}

/// What a client with an address keeps when its clock ticks, as long as the lease
/// lasts: its address, mask, gateway and server, how long the lease lasts and since
/// when it has it, and the transaction. It gives nothing up and forgets nothing.
/// The time of the last attempt to renew the lease becomes now where one is sent,
/// and stays as it is where none is.
pub proof fn law_bound_client_keeps_its_lease(
    ip: Ipv4Addr,
    mask: Ipv4Addr,
    gateway: Option<Ipv4Addr>,
    server_ip: Option<Ipv4Addr>,
    lease_secs: u32,
    bound_at: Instant,
    renew_sent: Option<Instant>,
    renew_xid: u32,
    lease: WanLeaseView,
    mac: MacAddr,
    now: Instant,
    threshold: u64,
    fresh_xid: u32,
    elapsed: int,
)
    requires
        now.nanos >= bound_at.nanos ==> elapsed == (now.nanos - bound_at.nanos) / 1_000_000_000
            % 0x1_0000_0000,
        now.nanos < bound_at.nanos ==> elapsed == 0,
        elapsed < lease_secs,
    ensures
        ({
            let state = ClientState::Bound {
                ip,
                mask,
                gateway,
                server_ip,
                lease_secs,
                bound_at,
                renew_sent,
                renew_xid,
            };
            let (action, after, known) = tick_step(state, lease, mac, now, threshold, fresh_xid);
            &&& known == lease
            &&& after matches ClientState::Bound {
                ip: ip2,
                mask: mask2,
                gateway: gateway2,
                server_ip: server2,
                lease_secs: secs2,
                bound_at: at2,
                renew_sent: sent2,
                renew_xid: xid2,
            } && {
                &&& ip2 == ip && mask2 == mask && gateway2 == gateway && server2 == server_ip
                &&& secs2 == lease_secs && at2 == bound_at && xid2 == renew_xid
                &&& action is Send ==> sent2 == Some(now)
                &&& action !is Send ==> action is Nothing && sent2 == renew_sent
            }
        }),
{
    lemma_whole_seconds(now, bound_at, elapsed);
}

/// When a client with an address tries to renew its lease: never in the first half
/// of the lease; in the second half, at once where no attempt was made yet, and
/// otherwise once as much time has passed since the last one as half of what is
/// left, up to rebinding or, once rebinding has begun, up to the end, but a minute
/// at least. Rebinding begins after seven eighths of the lease.
#[verifier::spinoff_prover]
#[verifier::rlimit(40)]
pub proof fn law_renewal_is_sent_in_time(
    ip: Ipv4Addr,
    mask: Ipv4Addr,
    gateway: Option<Ipv4Addr>,
    server_ip: Option<Ipv4Addr>,
    lease_secs: u32,
    bound_at: Instant,
    renew_sent: Option<Instant>,
    renew_xid: u32,
    lease: WanLeaseView,
    mac: MacAddr,
    now: Instant,
    threshold: u64,
    fresh_xid: u32,
    elapsed: int,
)
    requires
        now.nanos >= bound_at.nanos ==> elapsed == (now.nanos - bound_at.nanos) / 1_000_000_000
            % 0x1_0000_0000,
        now.nanos < bound_at.nanos ==> elapsed == 0,
        elapsed < lease_secs,
    ensures
        ({
            let state = ClientState::Bound {
                ip,
                mask,
                gateway,
                server_ip,
                lease_secs,
                bound_at,
                renew_sent,
                renew_xid,
            };
            let (action, _, _) = tick_step(state, lease, mac, now, threshold, fresh_xid);
            let rebinding = lease_secs * 7 / 8;
            let left = if elapsed >= rebinding {
                lease_secs - elapsed
            } else {
                rebinding - elapsed
            };
            &&& elapsed < lease_secs / 2 ==> action is Nothing
            &&& elapsed >= lease_secs / 2 && renew_sent is None ==> action is Send
            &&& renew_sent matches Some(sent) ==> {
                let ago = if now.nanos >= sent.nanos {
                    (now.nanos - sent.nanos) / 1_000_000_000 % 0x1_0000_0000
                } else {
                    0
                };
                &&& ago < 60 || ago < left / 2 ==> action is Nothing
                &&& ago >= 60 && ago >= left / 2 && elapsed >= lease_secs / 2 ==> action is Send
            }
        }),
{
    lemma_whole_seconds(now, bound_at, elapsed);
    if let Some(sent) = renew_sent {
        let ago = if now.nanos >= sent.nanos {
            (now.nanos - sent.nanos) / 1_000_000_000 % 0x1_0000_0000
        } else {
            0
        };
        lemma_whole_seconds(now, sent, ago);
    }
}

/// What an attempt to renew a lease says and where it goes: it names the client's
/// address for its own and nothing else, of the transaction of the lease; it goes
/// to the server that gave the lease, if that is known and seven eighths of the
/// lease have not passed, and otherwise to all.
pub proof fn law_renewal_goes_to_server(
    ip: Ipv4Addr,
    mask: Ipv4Addr,
    gateway: Option<Ipv4Addr>,
    server_ip: Option<Ipv4Addr>,
    lease_secs: u32,
    bound_at: Instant,
    renew_sent: Option<Instant>,
    renew_xid: u32,
    lease: WanLeaseView,
    mac: MacAddr,
    now: Instant,
    threshold: u64,
    fresh_xid: u32,
    elapsed: int,
)
    requires
        now.nanos >= bound_at.nanos ==> elapsed == (now.nanos - bound_at.nanos) / 1_000_000_000
            % 0x1_0000_0000,
        now.nanos < bound_at.nanos ==> elapsed == 0,
        elapsed < lease_secs,
    ensures
        ({
            let state = ClientState::Bound {
                ip,
                mask,
                gateway,
                server_ip,
                lease_secs,
                bound_at,
                renew_sent,
                renew_xid,
            };
            let (action, _, _) = tick_step(state, lease, mac, now, threshold, fresh_xid);
            let rebinding = lease_secs * 7 / 8;
            action matches TickView::Send { payload, dest } ==> {
                &&& elapsed >= rebinding || server_ip is None ==> dest.bits == 0xffff_ffff
                &&& elapsed < rebinding && server_ip is Some ==> Some(dest) == server_ip
                &&& ip.bits != 0 ==> is_from_client(payload, mac, renew_xid, 0, ip)
                    && payload.skip(240) == seq![53u8, 1, 3, 255]
                &&& ip.bits == 0 ==> is_from_client(payload, mac, renew_xid, 0x8000, ip)
                    && payload.skip(240) == seq![50u8, 4] + addr::octets32(0) + seq![53u8, 1, 3]
                    + seq![255u8]
            }
        }),
{
    lemma_whole_seconds(now, bound_at, elapsed);
    law_request_in_octets(mac, renew_xid, ip, None, ip);
}

/// Once a lease has run out the client takes its address off the interface, forgets
/// what it knew of its address, its gateway and the name servers, and starts to
/// look for a server under a new transaction.
pub proof fn law_bound_client_gives_up_in_time(
    state: ClientState,
    lease: WanLeaseView,
    mac: MacAddr,
    now: Instant,
    threshold: u64,
    fresh_xid: u32,
)
    requires
        now.in_range(),
        state matches ClientState::Bound { lease_secs, bound_at, .. } && (lease_secs == 0
            || now.nanos >= bound_at.nanos && (now.nanos - bound_at.nanos) / 1_000_000_000
            % 0x1_0000_0000 >= lease_secs),
    ensures
        ({
            let (action, after, known) = tick_step(state, lease, mac, now, threshold, fresh_xid);
            &&& action matches TickView::Deconfigure { ip, prefix_len } && ip == state->Bound_ip
                && prefix_len == ones(state->Bound_mask.bits as nat) as u8
            &&& after matches ClientState::Discovering { xid, last_sent, retry_delay_secs } && xid
                == fresh_xid && last_sent.nanos + 10 * 1_000_000_000 == now.nanos
                && retry_delay_secs == 4
            &&& known.ip is None && known.mask is None && known.gateway is None
            &&& known.dns_servers.len() == 0
        }),
{
    let bound_at = state->Bound_bound_at;
    if now.nanos >= bound_at.nanos {
        lemma_whole_seconds(
            now,
            bound_at,
            (now.nanos - bound_at.nanos) / 1_000_000_000 % 0x1_0000_0000,
        );
    }
}

/// Where a client stands, and what it knows of its address, after its clock has
/// ticked at each of some times and no message came in.
pub open spec fn after_ticks(
    state: ClientState,
    lease: WanLeaseView,
    mac: MacAddr,
    times: Seq<Instant>,
    fresh_xid: u32,
) -> (ClientState, WanLeaseView)
    decreases times.len(),
{
    if times.len() == 0 {
        (state, lease)
    } else {
        let (_, then, known) = tick_step(state, lease, mac, times[0], 0, fresh_xid);
        after_ticks(then, known, mac, times.skip(1), fresh_xid)
    }
}

/// A lease ends as long after its acknowledgement as it lasts, however many
/// attempts to renew it went without an answer: until then the client has the same
/// address since the same moment and for the same time, and at the first tick from
/// then on it gives it up.
pub proof fn law_asking_does_not_prolong_lease(
    state: ClientState,
    lease: WanLeaseView,
    mac: MacAddr,
    times: Seq<Instant>,
    last: Instant,
    fresh_xid: u32,
)
    requires
        state matches ClientState::Bound { lease_secs, bound_at, .. } && {
            &&& forall|i: int|
                0 <= i < times.len() ==> bound_at.nanos <= (#[trigger] times[i]).nanos < bound_at.nanos
                    + lease_secs * 1_000_000_000
            &&& bound_at.nanos + lease_secs * 1_000_000_000 <= last.nanos < bound_at.nanos
                + 0x1_0000_0000 * 1_000_000_000
        },
        last.in_range(),
    ensures
        ({
            let (after, known) = after_ticks(state, lease, mac, times, fresh_xid);
            &&& known == lease
            &&& after is Bound
            &&& after->Bound_ip == state->Bound_ip && after->Bound_mask == state->Bound_mask
            &&& after->Bound_gateway == state->Bound_gateway
            &&& after->Bound_server_ip == state->Bound_server_ip
            &&& after->Bound_lease_secs == state->Bound_lease_secs
            &&& after->Bound_bound_at == state->Bound_bound_at
            &&& after->Bound_renew_xid == state->Bound_renew_xid
            &&& tick_step(after, known, mac, last, 0, fresh_xid).0 matches TickView::Deconfigure {
                ip,
                ..
            } && ip == state->Bound_ip
        }),
    decreases times.len(),
{
    if times.len() > 0 {
        let now = times[0];
        let (_, then, known) = tick_step(state, lease, mac, now, 0, fresh_xid);
        let passed = now.nanos - state->Bound_bound_at.nanos;
        law_bound_client_keeps_its_lease(
            state->Bound_ip,
            state->Bound_mask,
            state->Bound_gateway,
            state->Bound_server_ip,
            state->Bound_lease_secs,
            state->Bound_bound_at,
            state->Bound_renew_sent,
            state->Bound_renew_xid,
            lease,
            mac,
            now,
            0,
            fresh_xid,
            passed / 1_000_000_000,
        );
        let rest = times.skip(1);
        assert forall|i: int| 0 <= i < rest.len() implies then->Bound_bound_at.nanos <= (
        #[trigger] rest[i]).nanos < then->Bound_bound_at.nanos + then->Bound_lease_secs
            * 1_000_000_000 by {
            assert(rest[i] == times[i + 1]);
        }
        law_asking_does_not_prolong_lease(then, known, mac, rest, last, fresh_xid);
    } else {
        law_bound_client_gives_up_in_time(state, lease, mac, last, 0, fresh_xid);
    }
}

/// What a client makes of an offer while it looks for a server: it asks for the
/// address that the offer names, of the server that the offer names, under the same
/// transaction, can send that at once, and waits four seconds before it tries
/// again. Nothing is set up, and what it knows stays as it is.
pub proof fn law_offer_is_asked_for(
    payload: Seq<u8>,
    xid: u32,
    last_sent: Instant,
    retry_delay_secs: u32,
    lease: WanLeaseView,
    now: Instant,
    fresh_xid: u32,
)
    requires
        now.in_range(),
        payload.len() >= 240,
        addr::read32(payload, 4) == xid,
        dhcp_message::decoded_options(payload).contains_key(53),
        dhcp_message::decoded_options(payload)[53][0] == 2,
    ensures
        ({
            let options = dhcp_message::decoded_options(payload);
            let state = ClientState::Discovering { xid, last_sent, retry_delay_secs };
            let (setup, after, known) = incoming_step(payload, state, lease, now, fresh_xid);
            &&& setup is None
            &&& known == lease
            &&& after matches ClientState::Requesting {
                xid: same,
                offered_ip,
                server_ip,
                last_sent: at,
                retry_delay_secs: delay,
            } && {
                &&& same == xid
                &&& offered_ip.bits == addr::read32(payload, 16)
                &&& options.contains_key(54) ==> (server_ip matches Some(server) && server.bits
                    == addr::read32(options[54], 0))
                &&& !options.contains_key(54) ==> server_ip is None
                &&& at.nanos + 10 * 1_000_000_000 == now.nanos
                &&& delay == 4
            }
        }),
{
}

/// What a client makes of an acknowledgement of its transaction, whatever it was
/// doing: it has the address that the message names, from now on, with the mask,
/// the first router, the name servers, the server and the time that the message
/// gives, or 255.255.255.0 for the mask, no router, no name servers, no server and
/// an hour where it does not give them. No attempt to renew the lease has been
/// made. What the client knows of its address is what the message says; the
/// interface is set up for it exactly where that differs from what was known.
#[verifier::spinoff_prover]
#[verifier::rlimit(40)]
pub proof fn law_acknowledgement_is_taken(
    payload: Seq<u8>,
    state: ClientState,
    lease: WanLeaseView,
    now: Instant,
    fresh_xid: u32,
)
    requires
        payload.len() >= 240,
        addr::read32(payload, 4) == (match state {
            ClientState::Discovering { xid, .. } => xid,
            ClientState::Requesting { xid, .. } => xid,
            ClientState::Bound { renew_xid, .. } => renew_xid,
        }),
        dhcp_message::decoded_options(payload).contains_key(53),
        dhcp_message::decoded_options(payload)[53][0] == 5,
    ensures
        ({
            let options = dhcp_message::decoded_options(payload);
            let (setup, after, known) = incoming_step(payload, state, lease, now, fresh_xid);
            &&& after matches ClientState::Bound {
                ip,
                mask,
                gateway,
                server_ip,
                lease_secs,
                bound_at,
                renew_sent,
                renew_xid,
            } && {
                &&& ip.bits == addr::read32(payload, 16)
                &&& options.contains_key(1) ==> mask.bits == addr::read32(options[1], 0)
                &&& !options.contains_key(1) ==> mask.bits == addr::be32(255, 255, 255, 0)
                &&& options.contains_key(3) && options[3].len() >= 4 ==> (gateway matches Some(first)
                    && first.bits == addr::read32(options[3], 0))
                &&& !(options.contains_key(3) && options[3].len() >= 4) ==> gateway is None
                &&& options.contains_key(54) ==> (server_ip matches Some(server) && server.bits
                    == addr::read32(options[54], 0))
                &&& !options.contains_key(54) ==> server_ip is None
                &&& options.contains_key(51) ==> lease_secs == addr::read32(options[51], 0)
                &&& !options.contains_key(51) ==> lease_secs == 3600
                &&& bound_at == now
                &&& renew_sent is None
                &&& renew_xid == fresh_xid
                &&& known.ip == Some(ip)
                &&& known.mask == Some(mask)
                &&& known.gateway == gateway
                &&& setup is None <==> lease == known
                &&& setup matches Some(s) ==> s.ip == ip && s.gateway == gateway && s.prefix_len
                    == ones(mask.bits as nat) as u8
            }
            &&& options.contains_key(6) ==> known.dns_servers.len() == options[6].len() / 4
                && forall|i: int|
                0 <= i < known.dns_servers.len() ==> (#[trigger] known.dns_servers[i]).bits
                    == addr::read32(options[6], 4 * i)
            &&& !options.contains_key(6) ==> known.dns_servers.len() == 0
        }),
{
}

/// What a client ignores: a message that is too short, of another transaction or
/// without a type, an offer when it looks for none, and all kinds of message other
/// than offers and acknowledgements.
pub proof fn law_other_messages_are_ignored(
    payload: Seq<u8>,
    state: ClientState,
    lease: WanLeaseView,
    now: Instant,
    fresh_xid: u32,
)
    requires
        ({
            let options = dhcp_message::decoded_options(payload);
            ||| payload.len() < 240
            ||| addr::read32(payload, 4) != (match state {
                ClientState::Discovering { xid, .. } => xid,
                ClientState::Requesting { xid, .. } => xid,
                ClientState::Bound { renew_xid, .. } => renew_xid,
            })
            ||| !options.contains_key(53)
            ||| options[53][0] == 2 && state !is Discovering
            ||| options[53][0] != 2 && options[53][0] != 5
        }),
    ensures
        incoming_step(payload, state, lease, now, fresh_xid) == (None::<WanSetup>, state, lease),
{
}

/// How the outer interface is set up: what it had is taken off first, then the link
/// comes up, then the address, then the route to the gateway if there is one, and
/// only the route may fail.
pub proof fn law_interface_is_cleared_first(setup: WanSetup)
    ensures
        ({
            let steps = wan_steps(setup);
            &&& steps.len() == (if setup.gateway is Some {
                4int
            } else {
                3
            })
            &&& steps[0] is FlushAddresses && steps[0].required()
            &&& steps[1] is LinkUp && steps[1].required()
            &&& steps[2] matches WanStep::AddAddress { ip, prefix_len } && ip == setup.ip
                && prefix_len == setup.prefix_len && steps[2].required()
            &&& setup.gateway matches Some(gateway) ==> (steps[3] matches WanStep::AddDefaultRoute {
                gateway: via,
            } && via == gateway && !steps[3].required())
        }),
{
}

/// How a client's message goes out: from its link-layer address to all, from port
/// 68 to port 67, from the address it has, if it has one, to the given one, with
/// the message for its payload.
pub proof fn law_message_goes_to_all(
    state: ClientState,
    mac: MacAddr,
    dest: Ipv4Addr,
    payload: Seq<u8>,
)
    requires
        payload.len() <= 65507,
    ensures
        ({
            let frame = message_frame(mac, state.own_address(), dest, payload);
            &&& MacAddr(frame[0], frame[1], frame[2], frame[3], frame[4], frame[5]) == MacAddr(
                0xff,
                0xff,
                0xff,
                0xff,
                0xff,
                0xff,
            )
            &&& MacAddr(frame[6], frame[7], frame[8], frame[9], frame[10], frame[11]) == mac
            &&& frame[12] == 8 && frame[13] == 0 && frame[23] == 17
            &&& state matches ClientState::Bound { ip, .. } ==> addr::read32(frame, 26) == ip.bits
            &&& state !is Bound ==> addr::read32(frame, 26) == 0
            &&& addr::read32(frame, 30) == dest.bits
            &&& addr::read16(frame, 34) == 68
            &&& addr::read16(frame, 36) == 67
            &&& frame.skip(42) == payload
            &&& packet::udp_payload_of(frame, 67) == Some(payload)
        }),
{
    packet::law_frame_fields_stand_in_place(
        mac,
        addr::broadcast_mac(),
        state.own_address(),
        dest,
        CLIENT_PORT,
        SERVER_PORT,
        payload,
    );
    packet::law_built_frame_reads_back(
        mac,
        addr::broadcast_mac(),
        state.own_address(),
        dest,
        CLIENT_PORT,
        SERVER_PORT,
        payload,
        67,
    );
}

/// When another attempt to renew a lease is due and where it goes, for any moment
/// at which rebinding begins. Before that moment it goes to the server, if that is
/// known, and half of the time to that moment has to pass between two attempts; from
/// then on it goes to all, and half of the time to the end has to pass. In both
/// cases a minute has to pass at least, and the first attempt is due at once.
pub proof fn law_renewals_get_closer(
    elapsed: u32,
    lease_secs: u32,
    rebinding: u32,
    server_ip: Option<Ipv4Addr>,
    sent: Instant,
    now: Instant,
    ago: int,
)
    requires
        now.nanos >= sent.nanos ==> ago == (now.nanos - sent.nanos) / 1_000_000_000 % 0x1_0000_0000,
        now.nanos < sent.nanos ==> ago == 0,
    ensures
        renew_is_due(elapsed, lease_secs, rebinding, None, now),
        elapsed >= rebinding ==> {
            &&& renew_destination(elapsed, rebinding, server_ip).bits == 0xffff_ffff
            &&& renew_is_due(elapsed, lease_secs, rebinding, Some(sent), now) <==> ago >= 60 && 2
                * ago + 1 >= lease_secs - elapsed
        },
        elapsed < rebinding ==> {
            &&& server_ip matches Some(server) ==> renew_destination(elapsed, rebinding, server_ip)
                == server
            &&& server_ip is None ==> renew_destination(elapsed, rebinding, server_ip).bits
                == 0xffff_ffff
            &&& renew_is_due(elapsed, lease_secs, rebinding, Some(sent), now) <==> ago >= 60 && 2
                * ago + 1 >= rebinding - elapsed
        },
{
    lemma_whole_seconds(now, sent, ago);
}

/// The content of an action is what it says.
pub proof fn law_content_is_of_action(action: TickAction)
    ensures
        action is Nothing <==> action@ is Nothing,
        action matches TickAction::Send { payload, dest } ==> action@ == (TickView::Send {
            payload: payload@,
            dest,
        }),
        action matches TickAction::Deconfigure { ip, prefix_len } ==> action@
            == (TickView::Deconfigure { ip, prefix_len }),
{
}

} // verus!
