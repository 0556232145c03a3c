//! The DHCP server on the inner network.

use crate::addr;
use crate::addr::{Ipv4Addr, MacAddr};
use crate::network;
use crate::packet;
use crate::services::dhcp_message;
use crate::services::dhcp_message::{
    AddressListOption, AddressOption, DhcpHeader, DhcpMessage, ACK, BOOT_REPLY, BOOT_REQUEST,
    CLIENT_PORT, DECLINE, DISCOVER, FIXED_LEN, FLAG_BROADCAST, NAK, OFFER, OPT_DNS, OPT_LEASE_TIME,
    OPT_MESSAGE_TYPE, OPT_REQUESTED_IP, OPT_ROUTER, OPT_SERVER_ID, OPT_SUBNET_MASK, RELEASE,
    REQUEST, SERVER_PORT,
};
use crate::services::utils;
use crate::subnet;
use crate::subnet::Subnet;
use crate::time::Instant;
use std::collections::HashMap;
use vstd::arithmetic::power2::pow2;
use vstd::prelude::*;

verus! {

/// How long a lease lasts, in seconds.
pub const LAN_LEASE_SECS: u32 = 3600;

/// An address that a client was given, and until when.
#[derive(Clone, Copy, Debug, PartialEq, Eq, Structural)]
pub struct ClientLease {
    pub ip: Ipv4Addr,
    pub expiry: Instant,
}

/// The leases by client. A client is known by its link-layer address.
pub struct LeaseTable {
    leases: HashMap<u64, ClientLease>,
}

impl View for LeaseTable {
    type V = Map<u64, ClientLease>;

    closed spec fn view(&self) -> Map<u64, ClientLease> {
        self.leases@
    }
}

/// Whether some client other than `except` holds the address at the moment.
pub open spec fn is_held(
    leases: Map<u64, ClientLease>,
    ip: Ipv4Addr,
    now: Instant,
    except: Option<u64>,
) -> bool {
    exists|key: u64| #[trigger]
        leases.contains_key(key) && leases[key].ip == ip && leases[key].expiry.nanos > now.nanos
            && Some(key) != except
}

impl LeaseTable {
    /// No client holds a lease.
    pub fn new() -> (r: LeaseTable)
        ensures
            r@ == Map::<u64, ClientLease>::empty(),
    {
        LeaseTable { leases: HashMap::new() }
    }

    /// How many clients have a lease, whether it has run out or not.
    pub fn len(&self) -> (r: usize)
        ensures
            r == self@.len(),
    {
        broadcast use vstd::std_specs::hash::group_hash_axioms;

        self.leases.len()
    }

    /// The lease of a client.
    pub fn get(&self, mac: MacAddr) -> (r: Option<ClientLease>)
        ensures
            (match r {
                Some(lease) => self@.contains_key(mac.spec_key()) && self@[mac.spec_key()] == lease,
                None => !self@.contains_key(mac.spec_key()),
            }),
    {
        broadcast use vstd::std_specs::hash::group_hash_axioms;

        match self.leases.get(&mac.key()) {
            Some(lease) => Some(*lease),
            None => None,
        }
    }

    /// Gives a client a lease, in place of the one it has.
    pub fn insert(&mut self, mac: MacAddr, lease: ClientLease)
        ensures
            final(self)@ == old(self)@.insert(mac.spec_key(), lease),
    {
        broadcast use vstd::std_specs::hash::group_hash_axioms;

        self.leases.insert(mac.key(), lease);
    }

    /// Takes a client's lease away, if it has one.
    pub fn remove(&mut self, mac: MacAddr)
        ensures
            final(self)@ == old(self)@.remove(mac.spec_key()),
    {
        broadcast use vstd::std_specs::hash::group_hash_axioms;

        let key: u64 = mac.key();
        self.leases.remove(&key);
        assert(self.leases@ =~= old(self).leases@.remove(key));
    }

    /// Whether some client other than `except` holds the address at the moment.
    fn holds(&self, ip: Ipv4Addr, now: Instant, except: Option<u64>) -> (r: bool)
        ensures
            r == is_held(self@, ip, now, except),
    {
        broadcast use vstd::std_specs::hash::group_hash_axioms;

        let entries = self.leases.iter();
        let ghost all = vstd::std_specs::iter::IteratorSpec::remaining(&entries);
        let mut found = false;
        for (key, lease) in it: entries
            invariant
                it.seq() == all,
                found <==> exists|i: int|
                    #![trigger all[i]]
                    0 <= i < it.index() && all[i].1.ip == ip && all[i].1.expiry.nanos > now.nanos
                        && Some(*all[i].0) != except,
        {
            let other = match except {
                Some(own) => own != *key,
                None => true,
            };
            if lease.ip == ip && lease.expiry.nanos > now.nanos && other {
                found = true;
            }
        }
        proof {
            if found {
                let i = choose|i: int|
                    #![trigger all[i]]
                    0 <= i < all.len() && all[i].1.ip == ip && all[i].1.expiry.nanos > now.nanos
                        && Some(*all[i].0) != except;
                assert(self@.contains_key(*all[i].0));
                assert(self@[*all[i].0] == *all[i].1);
            }
            if is_held(self@, ip, now, except) {
                let key = choose|key: u64| #[trigger]
                    self@.contains_key(key) && self@[key].ip == ip && self@[key].expiry.nanos
                        > now.nanos && Some(key) != except;
                assert(all.contains((&key, &self@[key])));
                let i = choose|i: int| 0 <= i < all.len() && all[i] == (&key, &self@[key]);
                assert(all[i].1.ip == ip);
            }
        }
        found
    }
}

/// What the server needs to know of itself.
#[derive(Clone, Copy, Debug, PartialEq, Eq, Structural)]
pub struct ServerConfig {
    pub server_ip: Ipv4Addr,
    pub subnet_mask: Ipv4Addr,
    pub server_mac: MacAddr,
    pub net: Subnet,
}

/// What follows from the address of the inner interface.
#[derive(Clone, Copy, Debug, PartialEq, Eq, Structural)]
pub struct ServerPlan {
    pub server_ip: Ipv4Addr,
    pub subnet_mask: Ipv4Addr,
    pub net: Subnet,
    /// The addresses right behind the network's own and right before the
    /// broadcast address.
    pub start_ip: Ipv4Addr,
    pub end_ip: Ipv4Addr,
}

/// Why the server cannot start.
#[derive(Clone, Copy, Debug, PartialEq, Eq, Structural)]
pub enum ServerStartError {
    /// The text is no address with a prefix length.
    InvalidLanIp,
    /// The network has no address behind its own, or none before its broadcast
    /// address.
    NoPool,
}

/// Whether there is an address behind the network's own and one before the
/// broadcast address.
pub open spec fn has_pool(net: Subnet) -> bool {
    net.first() < 0xffff_ffff && net.last() > 0
}

/// What follows from the address of the inner interface.
pub open spec fn plan_of(net: Subnet) -> ServerPlan {
    ServerPlan {
        server_ip: net.addr,
        subnet_mask: Ipv4Addr { bits: net.mask() as u32 },
        net,
        start_ip: Ipv4Addr { bits: (net.first() + 1) as u32 },
        end_ip: Ipv4Addr { bits: (net.last() - 1) as u32 },
    }
}

/// What follows from the network of the inner interface.
pub fn server_plan(net: Subnet) -> (r: ServerPlan)
    requires
        net.wf(),
        has_pool(net),
    ensures
        r == plan_of(net),
{
    proof {
        subnet::law_subnet_bounds(net);
    }
    ServerPlan {
        server_ip: net.addr,
        subnet_mask: net.netmask(),
        net,
        start_ip: Ipv4Addr { bits: subnet::network(net).bits + 1 },
        end_ip: Ipv4Addr { bits: subnet::broadcast(net).bits - 1 },
    }
}

/// What follows from the text of the inner interface's address, such as
/// `192.168.1.1/24`. A text that is no such address is never replaced by a
/// default.
pub fn start_dhcp_server(lan_ip: &str) -> (r: Result<ServerPlan, ServerStartError>)
    ensures
        (match subnet::written_net(lan_ip@) {
            Some(net) => r == (if has_pool(net) {
                Ok::<ServerPlan, ServerStartError>(plan_of(net))
            } else {
                Err::<ServerPlan, ServerStartError>(ServerStartError::NoPool)
            }),
            None => r == Err::<ServerPlan, ServerStartError>(ServerStartError::InvalidLanIp),
        }),
{
    match Subnet::parse(lan_ip) {
        Some(net) => if subnet::network(net).bits < 0xffff_ffff && subnet::broadcast(net).bits > 0 {
            Ok(server_plan(net))
        } else {
            Err(ServerStartError::NoPool)
        },
        None => Err(ServerStartError::InvalidLanIp),
    }
}

/// Whether a client may have the address that it asks for: it lies in the
/// server's network, is not the server's own, and no other client holds it.
pub open spec fn may_have(
    ip: Ipv4Addr,
    client: MacAddr,
    config: ServerConfig,
    leases: Map<u64, ClientLease>,
    now: Instant,
) -> bool {
    &&& ip != config.server_ip
    &&& config.net.holds(ip)
    &&& !is_held(leases, ip, now, Some(client.spec_key()))
}

/// Whether a client may have the address that it asks for.
pub fn validate_requested_ip(
    leased_ip: Ipv4Addr,
    client_mac: MacAddr,
    config: &ServerConfig,
    leases: &LeaseTable,
    now: Instant,
) -> (r: bool)
    requires
        config.net.wf(),
    ensures
        r == may_have(leased_ip, client_mac, *config, leases@, now),
{
    if leased_ip == config.server_ip || !subnet::contains(config.net, leased_ip) {
        return false;
    }
    !leases.holds(leased_ip, now, Some(client_mac.key()))
}

/// Whether the address is one that a new client can be given.
pub open spec fn is_free(
    ip: Ipv4Addr,
    net: Subnet,
    server_ip: Ipv4Addr,
    leases: Map<u64, ClientLease>,
    now: Instant,
) -> bool {
    net.is_host(ip) && ip != server_ip && !is_held(leases, ip, now, None)
}

/// The lowest address from `from` on that a new client can be given.
pub open spec fn lowest_free(
    from: int,
    net: Subnet,
    server_ip: Ipv4Addr,
    leases: Map<u64, ClientLease>,
    now: Instant,
) -> Option<Ipv4Addr>
    decreases net.last_host() + 1 - from,
{
    let ip = Ipv4Addr { bits: from as u32 };
    if from > net.last_host() {
        None
    } else if is_free(ip, net, server_ip, leases, now) {
        Some(ip)
    } else {
        lowest_free(from + 1, net, server_ip, leases, now)
    }
}

/// The address that a client gets, and the leases afterwards. A client that
/// has a lease, run out or not, keeps its address and the lease as it is; any
/// other gets a new lease on the lowest free address.
pub open spec fn allocation(
    client: MacAddr,
    leases: Map<u64, ClientLease>,
    net: Subnet,
    server_ip: Ipv4Addr,
    now: Instant,
) -> (Option<Ipv4Addr>, Map<u64, ClientLease>) {
    let key = client.spec_key();
    if leases.contains_key(key) {
        (Some(leases[key].ip), leases)
    } else {
        match lowest_free(net.first_host(), net, server_ip, leases, now) {
            Some(ip) => (
                Some(ip),
                leases.insert(key, ClientLease { ip, expiry: now.plus(LAN_LEASE_SECS as int) }),
            ),
            None => (None, leases),
        }
    }
}

/// The address that a client gets: the one it has a lease on, or else the
/// lowest free one, on which it then has a lease.
pub fn get_or_allocate_ip(
    client_mac: MacAddr,
    leases: &mut LeaseTable,
    net: Subnet,
    server_ip: Ipv4Addr,
    now: Instant,
) -> (r: Option<Ipv4Addr>)
    requires
        net.wf(),
        now.in_range(),
    ensures
        (r, final(leases)@) == allocation(client_mac, old(leases)@, net, server_ip, now),
{
    if let Some(lease) = leases.get(client_mac) {
        return Some(lease.ip);
    }
    proof {
        subnet::law_subnet_bounds(net);
    }
    let mut n: usize = 0;
    loop
        invariant
            net.wf(),
            now.in_range(),
            *leases == *old(leases),
            0 <= net.first_host() <= net.first_host() + n <= net.last_host() + 1,
            net.last_host() <= 0xffff_ffff,
            net.last_host() - net.first_host() <= 0xffff_fffd,
            !leases@.contains_key(client_mac.spec_key()),
            lowest_free(net.first_host(), net, server_ip, leases@, now) == lowest_free(
                net.first_host() + n,
                net,
                server_ip,
                leases@,
                now,
            ),
        decreases net.last_host() + 1 - net.first_host() - n,
    {
        match subnet::host_at(net, n) {
            None => {
                return None;
            },
            Some(ip) => {
                if ip != server_ip && !leases.holds(ip, now, None) {
                    let lease = ClientLease { ip, expiry: now.after(LAN_LEASE_SECS as u64) };
                    leases.insert(client_mac, lease);
                    return Some(ip);
                }
            },
        }
        n += 1;
    }
}

/// Takes the lease from a client that found its address in use.
pub fn handle_dhcp_decline(client_mac: MacAddr, leases: &mut LeaseTable)
    ensures
        final(leases)@ == old(leases)@.remove(client_mac.spec_key()),
{
    leases.remove(client_mac);
}

/// Takes the lease from a client that gives it back.
pub fn handle_dhcp_release(client_mac: MacAddr, leases: &mut LeaseTable)
    ensures
        final(leases)@ == old(leases)@.remove(client_mac.spec_key()),
{
    leases.remove(client_mac);
}

/// The options of an offer or an acknowledgement: the router is the gateway and
/// the name server of its clients.
pub open spec fn reply_options(kind: u8, config: ServerConfig) -> Map<u8, Seq<u8>> {
    dhcp_message::no_options().insert(OPT_MESSAGE_TYPE, seq![kind]).insert(
        OPT_SERVER_ID,
        addr::octets32(config.server_ip.bits),
    ).insert(OPT_SUBNET_MASK, addr::octets32(config.subnet_mask.bits)).insert(
        OPT_ROUTER,
        dhcp_message::address_octets(seq![config.server_ip]),
    ).insert(OPT_DNS, dhcp_message::address_octets(seq![config.server_ip])).insert(
        OPT_LEASE_TIME,
        addr::octets32(LAN_LEASE_SECS),
    )
}

/// The fields of an offer or an acknowledgement.
pub open spec fn reply_header(
    xid: u32,
    flags: u16,
    leased_ip: Ipv4Addr,
    config: ServerConfig,
) -> DhcpHeader {
    DhcpHeader {
        opcode: BOOT_REPLY,
        xid,
        flags,
        ciaddr: addr::unspecified_ip(),
        yiaddr: leased_ip,
        siaddr: config.server_ip,
    }
}

/// An offer or an acknowledgement.
pub open spec fn reply_payload(
    kind: u8,
    xid: u32,
    flags: u16,
    chaddr: Seq<u8>,
    leased_ip: Ipv4Addr,
    config: ServerConfig,
) -> Seq<u8> {
    dhcp_message::message_octets(
        reply_header(xid, flags, leased_ip, config),
        chaddr,
        reply_options(kind, config),
    )
}

proof fn lemma_reply_writable(kind: u8, config: ServerConfig)
    ensures
        dhcp_message::writable(reply_options(kind, config)),
        dhcp_message::writable(nak_options(config)),
{
}

/// Builds an offer or an acknowledgement, which differ in `kind` alone.
pub fn build_dhcp_reply_payload(
    kind: u8,
    dhcp: &DhcpMessage,
    chaddr: &[u8],
    leased_ip: Ipv4Addr,
    config: &ServerConfig,
) -> (r: Vec<u8>)
    requires
        chaddr@.len() <= 16,
    ensures
        r@ == reply_payload(kind, dhcp.xid, dhcp.flags, chaddr@, leased_ip, *config),
        dhcp_message::decoded_options(r@) == reply_options(kind, *config),
        r@.len() <= 2000,
{
    let head = DhcpHeader {
        opcode: BOOT_REPLY,
        xid: dhcp.xid,
        flags: dhcp.flags,
        ciaddr: Ipv4Addr::unspecified(),
        yiaddr: leased_ip,
        siaddr: config.server_ip,
    };
    let mut opts = dhcp_message::new_options();
    dhcp_message::insert_message_type(&mut opts, kind);
    dhcp_message::insert_address(&mut opts, AddressOption::ServerIdentifier, config.server_ip);
    dhcp_message::insert_address(&mut opts, AddressOption::SubnetMask, config.subnet_mask);
    let routers: Vec<Ipv4Addr> = vec![config.server_ip];
    assert(routers@ =~= seq![config.server_ip]);
    dhcp_message::insert_addresses(&mut opts, AddressListOption::Router, routers);
    let servers: Vec<Ipv4Addr> = vec![config.server_ip];
    assert(servers@ =~= seq![config.server_ip]);
    dhcp_message::insert_addresses(&mut opts, AddressListOption::DomainNameServer, servers);
    dhcp_message::insert_lease_time(&mut opts, LAN_LEASE_SECS);
    proof {
        lemma_reply_writable(kind, *config);
        dhcp_message::lemma_message_len(head, chaddr@, reply_options(kind, *config));
    }
    dhcp_message::encode(&head, chaddr, opts).unwrap()
}

/// The options of a refusal.
pub open spec fn nak_options(config: ServerConfig) -> Map<u8, Seq<u8>> {
    dhcp_message::no_options().insert(OPT_MESSAGE_TYPE, seq![NAK]).insert(
        OPT_SERVER_ID,
        addr::octets32(config.server_ip.bits),
    )
}

/// The fields of a refusal, which names no address and repeats no flags.
pub open spec fn nak_header(xid: u32) -> DhcpHeader {
    DhcpHeader {
        opcode: BOOT_REPLY,
        xid,
        flags: 0,
        ciaddr: addr::unspecified_ip(),
        yiaddr: addr::unspecified_ip(),
        siaddr: addr::unspecified_ip(),
    }
}

/// A refusal.
pub open spec fn nak_payload(xid: u32, chaddr: Seq<u8>, config: ServerConfig) -> Seq<u8> {
    dhcp_message::message_octets(nak_header(xid), chaddr, nak_options(config))
}

/// Builds a refusal.
pub fn build_dhcp_nak_payload(dhcp: &DhcpMessage, chaddr: &[u8], config: &ServerConfig) -> (r: Vec<
    u8,
>)
    requires
        chaddr@.len() <= 16,
    ensures
        r@ == nak_payload(dhcp.xid, chaddr@, *config),
        dhcp_message::decoded_options(r@) == nak_options(*config),
        r@.len() <= 2000,
{
    let head = DhcpHeader {
        opcode: BOOT_REPLY,
        xid: dhcp.xid,
        flags: 0,
        ciaddr: Ipv4Addr::unspecified(),
        yiaddr: Ipv4Addr::unspecified(),
        siaddr: Ipv4Addr::unspecified(),
    };
    let mut opts = dhcp_message::new_options();
    dhcp_message::insert_message_type(&mut opts, NAK);
    dhcp_message::insert_address(&mut opts, AddressOption::ServerIdentifier, config.server_ip);
    proof {
        lemma_reply_writable(NAK, *config);
        dhcp_message::lemma_message_len(head, chaddr@, nak_options(*config));
    }
    dhcp_message::encode(&head, chaddr, opts).unwrap()
}

/// Where a reply goes: to all where the client asks for that.
pub open spec fn destination(broadcast: bool, client: MacAddr, ip: Ipv4Addr) -> (
    MacAddr,
    Ipv4Addr,
) {
    if broadcast {
        (addr::broadcast_mac(), addr::broadcast_ip())
    } else {
        (client, ip)
    }
}

/// Where a reply goes: to all where the client asks for that.
pub fn get_dest_mac_ip(broadcast: bool, client_mac: MacAddr, leased_ip: Ipv4Addr) -> (r: (
    MacAddr,
    Ipv4Addr,
))
    ensures
        r == destination(broadcast, client_mac, leased_ip),
{
    if broadcast {
        (MacAddr::broadcast(), Ipv4Addr::broadcast())
    } else {
        (client_mac, leased_ip)
    }
}

/// The frame that carries a reply to a client.
pub open spec fn reply_frame(
    config: ServerConfig,
    flags: u16,
    client: MacAddr,
    ip: Ipv4Addr,
    payload: Seq<u8>,
) -> Seq<u8> {
    let dest = destination(flags >= FLAG_BROADCAST, client, ip);
    packet::frame_of(
        config.server_mac,
        dest.0,
        config.server_ip,
        dest.1,
        SERVER_PORT,
        CLIENT_PORT,
        payload,
    )
}

/// The frame that carries a reply to a client.
fn build_reply_frame(
    config: &ServerConfig,
    flags: u16,
    client_mac: MacAddr,
    ip: Ipv4Addr,
    payload: &[u8],
) -> (r: Vec<u8>)
    requires
        payload@.len() <= 2000,
    ensures
        r@ == reply_frame(*config, flags, client_mac, ip, payload@),
{
    let (dest_mac, dest_ip) = get_dest_mac_ip(flags >= FLAG_BROADCAST, client_mac, ip);
    packet::build_raw_packet(
        config.server_mac,
        dest_mac,
        config.server_ip,
        dest_ip,
        SERVER_PORT,
        CLIENT_PORT,
        payload,
    )
}

/// What a client is told that looks for an address, and the leases afterwards:
/// an offer, or nothing where no address is free.
pub open spec fn discover_step(
    xid: u32,
    flags: u16,
    client: MacAddr,
    config: ServerConfig,
    leases: Map<u64, ClientLease>,
    now: Instant,
) -> (Option<Seq<u8>>, Map<u64, ClientLease>) {
    let (leased, after) = allocation(client, leases, config.net, config.server_ip, now);
    match leased {
        Some(ip) => (
            Some(
                reply_frame(
                    config,
                    flags,
                    client,
                    ip,
                    reply_payload(OFFER, xid, flags, client.spec_octets(), ip, config),
                ),
            ),
            after,
        ),
        None => (None, after),
    }
}

/// Answers a client that looks for an address.
pub fn handle_dhcp_discover(
    config: &ServerConfig,
    dhcp: &DhcpMessage,
    client_mac: MacAddr,
    leases: &mut LeaseTable,
    now: Instant,
) -> (r: Option<Vec<u8>>)
    requires
        config.net.wf(),
        now.in_range(),
    ensures
        (opt_view(r), final(leases)@) == discover_step(
            dhcp.xid,
            dhcp.flags,
            client_mac,
            *config,
            old(leases)@,
            now,
        ),
{
    let leased_ip = match get_or_allocate_ip(
        client_mac,
        leases,
        config.net,
        config.server_ip,
        now,
    ) {
        Some(ip) => ip,
        None => {
            return None;
        },
    };
    let chaddr = client_mac.octets();
    let payload = build_dhcp_reply_payload(OFFER, dhcp, chaddr.as_slice(), leased_ip, config);
    Some(build_reply_frame(config, dhcp.flags, client_mac, leased_ip, payload.as_slice()))
}

/// The octets that are to be sent, if any.
pub open spec fn opt_view(frame: Option<Vec<u8>>) -> Option<Seq<u8>> {
    match frame {
        Some(octets) => Some(octets@),
        None => None,
    }
}

/// The address that a request is about: the one it names, or else the one on
/// which the client has a lease.
pub open spec fn asked_for(
    options: Map<u8, Seq<u8>>,
    client: MacAddr,
    leases: Map<u64, ClientLease>,
) -> Option<Ipv4Addr> {
    if options.contains_key(OPT_REQUESTED_IP) {
        Some(Ipv4Addr { bits: addr::read32(options[OPT_REQUESTED_IP], 0) as u32 })
    } else if leases.contains_key(client.spec_key()) {
        Some(leases[client.spec_key()].ip)
    } else {
        None
    }
}

/// What a client is told that asks for an address, and the leases afterwards:
/// nothing where the request is about no address, a refusal where the client may
/// not have it, and otherwise an acknowledgement together with a new lease.
pub open spec fn request_step(
    xid: u32,
    flags: u16,
    options: Map<u8, Seq<u8>>,
    client: MacAddr,
    config: ServerConfig,
    leases: Map<u64, ClientLease>,
    now: Instant,
) -> (Option<Seq<u8>>, Map<u64, ClientLease>) {
    match asked_for(options, client, leases) {
        None => (None, leases),
        Some(ip) => if may_have(ip, client, config, leases, now) {
            (
                Some(
                    reply_frame(
                        config,
                        flags,
                        client,
                        ip,
                        reply_payload(ACK, xid, flags, client.spec_octets(), ip, config),
                    ),
                ),
                leases.insert(
                    client.spec_key(),
                    ClientLease { ip, expiry: now.plus(LAN_LEASE_SECS as int) },
                ),
            )
        } else {
            (
                Some(
                    reply_frame(
                        config,
                        flags,
                        client,
                        addr::broadcast_ip(),
                        nak_payload(xid, client.spec_octets(), config),
                    ),
                ),
                leases,
            )
        },
    }
}

/// The refusal of a request, as a frame.
pub fn send_dhcp_nak(dhcp: &DhcpMessage, client_mac: MacAddr, config: &ServerConfig) -> (r: Vec<u8>)
    ensures
        r@ == reply_frame(
            *config,
            dhcp.flags,
            client_mac,
            addr::broadcast_ip(),
            nak_payload(dhcp.xid, client_mac.spec_octets(), *config),
        ),
{
    let chaddr = client_mac.octets();
    let payload = build_dhcp_nak_payload(dhcp, chaddr.as_slice(), config);
    build_reply_frame(config, dhcp.flags, client_mac, Ipv4Addr::broadcast(), payload.as_slice())
}

/// Answers a client that asks for an address.
pub fn handle_dhcp_request(
    config: &ServerConfig,
    dhcp: &DhcpMessage,
    client_mac: MacAddr,
    leases: &mut LeaseTable,
    now: Instant,
) -> (r: Option<Vec<u8>>)
    requires
        config.net.wf(),
        now.in_range(),
    ensures
        (opt_view(r), final(leases)@) == request_step(
            dhcp.xid,
            dhcp.flags,
            dhcp_message::options_of(dhcp.opts),
            client_mac,
            *config,
            old(leases)@,
            now,
        ),
{
    let requested = dhcp_message::get_address(&dhcp.opts, AddressOption::RequestedIp);
    let leased_ip = match requested {
        Some(ip) => {
            proof {
                addr::law_octets_spell_address(ip.bits);
            }
            ip
        },
        None => match leases.get(client_mac) {
            Some(existing) => existing.ip,
            None => {
                return None;
            },
        },
    };
    if !validate_requested_ip(leased_ip, client_mac, config, leases, now) {
        return Some(send_dhcp_nak(dhcp, client_mac, config));
    }
    let lease = ClientLease { ip: leased_ip, expiry: now.after(LAN_LEASE_SECS as u64) };
    leases.insert(client_mac, lease);
    let chaddr = client_mac.octets();
    let payload = build_dhcp_reply_payload(ACK, dhcp, chaddr.as_slice(), leased_ip, config);
    Some(build_reply_frame(config, dhcp.flags, client_mac, leased_ip, payload.as_slice()))
}

/// What the server sends in answer to a message from a client, and the leases
/// afterwards.
pub open spec fn message_step(
    kind: u8,
    xid: u32,
    flags: u16,
    options: Map<u8, Seq<u8>>,
    client: MacAddr,
    config: ServerConfig,
    leases: Map<u64, ClientLease>,
    now: Instant,
) -> (Option<Seq<u8>>, Map<u64, ClientLease>) {
    if kind == DISCOVER {
        discover_step(xid, flags, client, config, leases, now)
    } else if kind == REQUEST {
        request_step(xid, flags, options, client, config, leases, now)
    } else if kind == DECLINE || kind == RELEASE {
        (None, leases.remove(client.spec_key()))
    } else {
        (None, leases)
    }
}

/// Whether the frame carries a client's message whose hardware address has the
/// six octets of a link-layer address. A message that came straight from the
/// client has to come from that address.
pub open spec fn is_client_message(frame: Seq<u8>) -> bool {
    packet::udp_payload_of(frame, SERVER_PORT) matches Some(payload) && {
        &&& payload.len() >= FIXED_LEN
        &&& payload[0] == BOOT_REQUEST
        &&& payload[2] == 6
        &&& addr::read32(payload, 24) == 0 ==> packet::read_mac(frame, 6) == packet::read_mac(
            payload,
            28,
        )
    }
}

/// What the server sends in answer to a frame, and the leases afterwards. A
/// frame that carries no client's message, or one without a message type, has
/// no effect.
pub open spec fn server_step(
    frame: Seq<u8>,
    config: ServerConfig,
    leases: Map<u64, ClientLease>,
    now: Instant,
) -> (Option<Seq<u8>>, Map<u64, ClientLease>) {
    let payload = packet::udp_payload_of(frame, SERVER_PORT)->Some_0;
    let options = dhcp_message::decoded_options(payload);
    if is_client_message(frame) && options.contains_key(OPT_MESSAGE_TYPE) {
        message_step(
            options[OPT_MESSAGE_TYPE][0],
            addr::read32(payload, 4) as u32,
            addr::read16(payload, 10) as u16,
            options,
            packet::read_mac(payload, 28),
            config,
            leases,
            now,
        )
    } else {
        (None, leases)
    }
}

/// Whether the frame carries a client's message that says of its hardware
/// address that it is longer than the field for it.
pub open spec fn is_oversized(frame: Seq<u8>) -> bool {
    packet::udp_payload_of(frame, SERVER_PORT) matches Some(payload) && payload.len() >= FIXED_LEN
        && payload[0] == BOOT_REQUEST && payload[2] > 16
}

/// Whether the frame carries a client's message that says of its hardware
/// address that it is longer than the field for it. Such a frame is not to be
/// processed.
pub fn has_oversized_address(frame: &[u8]) -> (r: bool)
    ensures
        r == is_oversized(frame@),
{
    match packet::udp_payload(frame, SERVER_PORT) {
        Some(payload) => payload.len() >= FIXED_LEN && payload[0] == BOOT_REQUEST && payload[2] > 16,
        None => false,
    }
}

/// Answers a frame.
pub fn process_incoming_packet(
    frame: &[u8],
    config: &ServerConfig,
    leases: &mut LeaseTable,
    now: Instant,
) -> (r: Option<Vec<u8>>)
    requires
        config.net.wf(),
        now.in_range(),
        utils::is_readable(frame@, SERVER_PORT),
        !is_oversized(frame@),
    ensures
        (opt_view(r), final(leases)@) == server_step(frame@, *config, old(leases)@, now),
{
    let (dhcp, payload) = match utils::receive(frame, SERVER_PORT) {
        Some(received) => received,
        None => {
            return None;
        },
    };
    if dhcp.opcode != BOOT_REQUEST {
        return None;
    }
    let chaddr = dhcp_message::hardware_address(payload.as_slice());
    if chaddr.len() != 6 {
        return None;
    }
    let client_mac = MacAddr(chaddr[0], chaddr[1], chaddr[2], chaddr[3], chaddr[4], chaddr[5]);
    assert(client_mac == packet::read_mac(payload@, 28));
    let eth = match packet::read_ethernet(frame) {
        Some(eth) => eth,
        None => {
            return None;
        },
    };
    if dhcp.giaddr == Ipv4Addr::unspecified() && eth.source != client_mac {
        return None;
    }
    let kind: u8 = match dhcp_message::get_message_type(&dhcp.opts) {
        Some(kind) => kind,
        None => {
            return None;
        },
    };
    if kind == DISCOVER {
        handle_dhcp_discover(config, &dhcp, client_mac, leases, now)
    } else if kind == REQUEST {
        handle_dhcp_request(config, &dhcp, client_mac, leases, now)
    } else if kind == DECLINE {
        handle_dhcp_decline(client_mac, leases);
        None
    } else if kind == RELEASE {
        handle_dhcp_release(client_mac, leases);
        None
    } else {
        None
    }
}

/// Whether a frame can be processed: the message in it, if there is one, can be
/// read, and its hardware address fits the field for it.
pub open spec fn can_be_answered(frame: Seq<u8>) -> bool {
    utils::is_readable(frame, SERVER_PORT) && !is_oversized(frame)
}

/// Answers a frame, as `process_incoming_packet` does; one that cannot be
/// processed has no effect.
pub fn answer_frame(
    frame: &[u8],
    config: &ServerConfig,
    leases: &mut LeaseTable,
    now: Instant,
) -> (r: Option<Vec<u8>>)
    requires
        config.net.wf(),
        now.in_range(),
    ensures
        (opt_view(r), final(leases)@) == if can_be_answered(frame@) {
            server_step(frame@, *config, old(leases)@, now)
        } else {
            (None, old(leases)@)
        },
{
    if utils::has_readable_options(frame, SERVER_PORT) && !has_oversized_address(frame) {
        process_incoming_packet(frame, config, leases, now)
    } else {
        None
    }
}

/// Whether no two clients hold the same address at the moment.
pub open spec fn are_apart(leases: Map<u64, ClientLease>, now: Instant) -> bool {
    forall|a: u64, b: u64|
        #![trigger leases.contains_key(a), leases.contains_key(b)]
        leases.contains_key(a) && leases.contains_key(b) && a != b && leases[a].expiry.nanos
            > now.nanos && leases[b].expiry.nanos > now.nanos ==> leases[a].ip != leases[b].ip
}

/// Whether every lease is on an address of the server's network other than the
/// server's own.
pub open spec fn are_own(leases: Map<u64, ClientLease>, config: ServerConfig) -> bool {
    forall|key: u64| #[trigger]
        leases.contains_key(key) ==> config.net.holds(leases[key].ip) && leases[key].ip
            != config.server_ip
}

/// The address that is found is free and no lower one is; where none is found,
/// none is free.
proof fn lemma_lowest_free(
    from: int,
    net: Subnet,
    server_ip: Ipv4Addr,
    leases: Map<u64, ClientLease>,
    now: Instant,
)
    requires
        0 <= from,
        net.last_host() <= 0xffff_ffff,
    ensures
        (match lowest_free(from, net, server_ip, leases, now) {
            Some(ip) => {
                &&& from <= ip.bits
                &&& is_free(ip, net, server_ip, leases, now)
                &&& forall|other: Ipv4Addr|
                    from <= other.bits < ip.bits ==> !#[trigger] is_free(
                        other,
                        net,
                        server_ip,
                        leases,
                        now,
                    )
            },
            None => forall|other: Ipv4Addr|
                from <= other.bits ==> !#[trigger] is_free(other, net, server_ip, leases, now),
        }),
    decreases net.last_host() + 1 - from,
{
    if from <= net.last_host() {
        let ip = Ipv4Addr { bits: from as u32 };
        if !is_free(ip, net, server_ip, leases, now) {
            lemma_lowest_free(from + 1, net, server_ip, leases, now);
            assert forall|other: Ipv4Addr| from == other.bits implies !#[trigger] is_free(
                other,
                net,
                server_ip,
                leases,
                now,
            ) by {
                assert(other == ip);
            }
        }
    }
}

/// A client without a lease gets the lowest address that is a host's, is not
/// the server's and is held by no one; it gets none only where there is none.
pub proof fn law_new_client_gets_lowest_free(
    client: MacAddr,
    leases: Map<u64, ClientLease>,
    net: Subnet,
    server_ip: Ipv4Addr,
    now: Instant,
)
    requires
        net.wf(),
        !leases.contains_key(client.spec_key()),
    ensures
        (match allocation(client, leases, net, server_ip, now).0 {
            Some(ip) => is_free(ip, net, server_ip, leases, now) && forall|other: Ipv4Addr|
                other.bits < ip.bits ==> !#[trigger] is_free(other, net, server_ip, leases, now),
            None => forall|other: Ipv4Addr| !#[trigger] is_free(other, net, server_ip, leases, now),
        }),
{
    subnet::law_subnet_bounds(net);
    lemma_lowest_free(net.first_host(), net, server_ip, leases, now);
}

/// A client that was given an address is given the same one when it asks again,
/// at whatever time.
pub proof fn law_known_client_keeps_address(
    client: MacAddr,
    leases: Map<u64, ClientLease>,
    net: Subnet,
    server_ip: Ipv4Addr,
    now: Instant,
    later: Instant,
)
    ensures
        ({
            let (ip, after) = allocation(client, leases, net, server_ip, now);
            ip is Some ==> allocation(client, after, net, server_ip, later) == (ip, after)
        }),
{
}

/// What a client is offered is not held by another, unless the client's own
/// lease has run out.
pub proof fn law_offer_is_not_held_by_another(
    client: MacAddr,
    leases: Map<u64, ClientLease>,
    net: Subnet,
    server_ip: Ipv4Addr,
    now: Instant,
)
    requires
        net.wf(),
        now.in_range(),
        are_apart(leases, now),
        leases.contains_key(client.spec_key()) ==> leases[client.spec_key()].expiry.nanos
            > now.nanos,
    ensures
        ({
            let (ip, after) = allocation(client, leases, net, server_ip, now);
            ip matches Some(address) ==> !is_held(after, address, now, Some(client.spec_key()))
        }),
{
    let key = client.spec_key();
    let (ip, after) = allocation(client, leases, net, server_ip, now);
    if ip is Some {
        let address = ip->Some_0;
        if !leases.contains_key(key) {
            law_new_client_gets_lowest_free(client, leases, net, server_ip, now);
        }
        if is_held(after, address, now, Some(key)) {
            let other = choose|k: u64| #[trigger]
                after.contains_key(k) && after[k].ip == address && after[k].expiry.nanos
                    > now.nanos && Some(k) != Some(key);
            assert(leases.contains_key(other) && leases[other] == after[other]);
            if leases.contains_key(key) {
                assert(leases[key].ip != leases[other].ip);
            }
            assert(false);
        }
    }
}

proof fn lemma_insert_keeps_apart(
    leases: Map<u64, ClientLease>,
    key: u64,
    lease: ClientLease,
    now: Instant,
)
    requires
        are_apart(leases, now),
        !is_held(leases, lease.ip, now, Some(key)),
    ensures
        are_apart(leases.insert(key, lease), now),
{
    let after = leases.insert(key, lease);
    assert forall|a: u64, b: u64|
        #![trigger after.contains_key(a), after.contains_key(b)]
        after.contains_key(a) && after.contains_key(b) && a != b && after[a].expiry.nanos
            > now.nanos && after[b].expiry.nanos > now.nanos implies after[a].ip != after[b].ip by {
        if a != key {
            assert(leases.contains_key(a));
        }
        if b != key {
            assert(leases.contains_key(b));
        }
    }
}

/// Whatever frame comes in, no two clients hold the same address afterwards if
/// no two did before.
pub proof fn law_server_keeps_leases_apart(
    frame: Seq<u8>,
    config: ServerConfig,
    leases: Map<u64, ClientLease>,
    now: Instant,
)
    requires
        config.net.wf(),
        are_apart(leases, now),
    ensures
        are_apart(server_step(frame, config, leases, now).1, now),
{
    let payload = packet::udp_payload_of(frame, SERVER_PORT)->Some_0;
    let client = packet::read_mac(payload, 28);
    let key = client.spec_key();
    let after = server_step(frame, config, leases, now).1;
    if after == leases.remove(key) {
        assert forall|a: u64, b: u64|
            #![trigger after.contains_key(a), after.contains_key(b)]
            after.contains_key(a) && after.contains_key(b) && a != b && after[a].expiry.nanos
                > now.nanos && after[b].expiry.nanos > now.nanos implies after[a].ip
            != after[b].ip by {
            assert(leases.contains_key(a) && leases.contains_key(b));
        }
    } else if after != leases {
        let ip = after[key].ip;
        if !leases.contains_key(key) {
            law_new_client_gets_lowest_free(client, leases, config.net, config.server_ip, now);
        }
        let lease = ClientLease { ip, expiry: now.plus(LAN_LEASE_SECS as int) };
        assert(after == leases.insert(key, lease));
        assert(!is_held(leases, ip, now, Some(key)));
        lemma_insert_keeps_apart(leases, key, lease, now);
    }
}

/// Leases that are apart stay apart as time goes by.
pub proof fn law_time_keeps_leases_apart(
    leases: Map<u64, ClientLease>,
    now: Instant,
    later: Instant,
)
    requires
        are_apart(leases, now),
        now.nanos <= later.nanos,
    ensures
        are_apart(leases, later),
{
}

/// Whatever frame comes in, every lease is on an address of the server's
/// network other than its own afterwards if it was so before.
pub proof fn law_leases_stay_in_network(
    frame: Seq<u8>,
    config: ServerConfig,
    leases: Map<u64, ClientLease>,
    now: Instant,
)
    requires
        config.net.wf(),
        are_own(leases, config),
    ensures
        are_own(server_step(frame, config, leases, now).1, config),
{
    let payload = packet::udp_payload_of(frame, SERVER_PORT)->Some_0;
    let client = packet::read_mac(payload, 28);
    let key = client.spec_key();
    let after = server_step(frame, config, leases, now).1;
    subnet::law_subnet_bounds(config.net);
    if !leases.contains_key(key) {
        law_new_client_gets_lowest_free(client, leases, config.net, config.server_ip, now);
    }
    assert forall|k: u64| #[trigger] after.contains_key(k) implies config.net.holds(after[k].ip)
        && after[k].ip != config.server_ip by {
        if k != key {
            assert(leases.contains_key(k) && leases[k] == after[k]);
        }
    }
}

/// A frame that claims to come straight from a client and does not come from
/// that client's link-layer address has no effect.
pub proof fn law_spoofed_frame_has_no_effect(
    frame: Seq<u8>,
    config: ServerConfig,
    leases: Map<u64, ClientLease>,
    now: Instant,
)
    requires
        packet::udp_payload_of(frame, SERVER_PORT) matches Some(payload) && addr::read32(
            payload,
            24,
        ) == 0 && packet::read_mac(frame, 6) != packet::read_mac(payload, 28),
    ensures
        server_step(frame, config, leases, now) == (None::<Seq<u8>>, leases),
{
}

/// While a client holds an address, a request of another client for it is
/// refused and changes no lease.
pub proof fn law_held_address_is_refused(
    xid: u32,
    flags: u16,
    options: Map<u8, Seq<u8>>,
    client: MacAddr,
    holder: MacAddr,
    config: ServerConfig,
    leases: Map<u64, ClientLease>,
    now: Instant,
)
    requires
        client != holder,
        leases.contains_key(holder.spec_key()),
        leases[holder.spec_key()].expiry.nanos > now.nanos,
        asked_for(options, client, leases) == Some(leases[holder.spec_key()].ip),
    ensures
        request_step(xid, flags, options, client, config, leases, now) == (
            Some(
                reply_frame(
                    config,
                    flags,
                    client,
                    addr::broadcast_ip(),
                    nak_payload(xid, client.spec_octets(), config),
                ),
            ),
            leases,
        ),
{
    addr::law_mac_key_identifies(client, holder);
    assert(is_held(leases, leases[holder.spec_key()].ip, now, Some(client.spec_key())));
}

/// A request that is refused changes no lease.
pub proof fn law_refusal_changes_no_lease(
    xid: u32,
    flags: u16,
    options: Map<u8, Seq<u8>>,
    client: MacAddr,
    config: ServerConfig,
    leases: Map<u64, ClientLease>,
    now: Instant,
)
    requires
        asked_for(options, client, leases) matches Some(ip) && !may_have(
            ip,
            client,
            config,
            leases,
            now,
        ),
    ensures
        request_step(xid, flags, options, client, config, leases, now).1 == leases,
{
}

/// An address that is acknowledged is held by the client, as far as others are
/// concerned, for as long as a lease lasts, and no longer.
pub proof fn law_acknowledged_address_is_held(
    xid: u32,
    flags: u16,
    options: Map<u8, Seq<u8>>,
    client: MacAddr,
    other: MacAddr,
    config: ServerConfig,
    leases: Map<u64, ClientLease>,
    now: Instant,
    later: Instant,
)
    requires
        now.in_range(),
        now.nanos <= later.nanos,
        client != other,
        asked_for(options, client, leases) matches Some(ip) && may_have(
            ip,
            client,
            config,
            leases,
            now,
        ),
    ensures
        ({
            let ip = asked_for(options, client, leases)->Some_0;
            let after = request_step(xid, flags, options, client, config, leases, now).1;
            is_held(after, ip, later, Some(other.spec_key())) <==> later.nanos < now.nanos
                + LAN_LEASE_SECS * crate::time::NANOS_PER_SEC
        }),
{
    addr::law_mac_key_identifies(client, other);
    let key = client.spec_key();
    let ip = asked_for(options, client, leases)->Some_0;
    let after = request_step(xid, flags, options, client, config, leases, now).1;
    assert(after.contains_key(key) && after[key].ip == ip);
    if later.nanos < now.nanos + LAN_LEASE_SECS * crate::time::NANOS_PER_SEC {
        assert(after[key].expiry.nanos > later.nanos);
    } else if is_held(after, ip, later, Some(other.spec_key())) {
        let holder = choose|k: u64| #[trigger]
            after.contains_key(k) && after[k].ip == ip && after[k].expiry.nanos > later.nanos
                && Some(k) != Some(other.spec_key());
        assert(leases.contains_key(holder) && leases[holder] == after[holder]);
        assert(is_held(leases, ip, now, Some(key)));
    }
}

/// A client that holds an address may renew its lease on it.
pub proof fn law_holder_may_renew(
    client: MacAddr,
    config: ServerConfig,
    leases: Map<u64, ClientLease>,
    now: Instant,
)
    requires
        are_apart(leases, now),
        are_own(leases, config),
        leases.contains_key(client.spec_key()),
        leases[client.spec_key()].expiry.nanos > now.nanos,
    ensures
        may_have(leases[client.spec_key()].ip, client, config, leases, now),
{
}

/// An address that its holder declines or gives back is held by no one.
pub proof fn law_released_address_is_free(
    client: MacAddr,
    leases: Map<u64, ClientLease>,
    now: Instant,
)
    requires
        are_apart(leases, now),
        leases.contains_key(client.spec_key()),
        leases[client.spec_key()].expiry.nanos > now.nanos,
    ensures
        !is_held(
            leases.remove(client.spec_key()),
            leases[client.spec_key()].ip,
            now,
            None,
        ),
{
    let key = client.spec_key();
    let after = leases.remove(key);
    if is_held(after, leases[key].ip, now, None) {
        let other = choose|k: u64| #[trigger]
            after.contains_key(k) && after[k].ip == leases[key].ip && after[k].expiry.nanos
                > now.nanos && Some(k) != None::<u64>;
        assert(leases.contains_key(other));
        assert(false);
    }
}

proof fn lemma_reply_reads_back(
    head: DhcpHeader,
    client: MacAddr,
    options: Map<u8, Seq<u8>>,
    config: ServerConfig,
    flags: u16,
    ip: Ipv4Addr,
)
    requires
        dhcp_message::writable(options),
    ensures
        ({
            let payload = dhcp_message::message_octets(head, client.spec_octets(), options);
            let reply = reply_frame(config, flags, client, ip, payload);
            &&& packet::udp_payload_of(reply, CLIENT_PORT) == Some(payload)
            &&& packet::read_mac(reply, 6) == config.server_mac
            &&& payload.len() >= FIXED_LEN
            &&& payload[0] == head.opcode
            &&& addr::read32(payload, 4) == head.xid
            &&& addr::read32(payload, 16) == head.yiaddr.bits
            &&& packet::read_mac(payload, 28) == client
        }),
{
    let chaddr = client.spec_octets();
    let payload = dhcp_message::message_octets(head, chaddr, options);
    let dest = destination(flags >= FLAG_BROADCAST, client, ip);
    dhcp_message::lemma_message_len(head, chaddr, options);
    packet::law_built_frame_reads_back(
        config.server_mac,
        dest.0,
        config.server_ip,
        dest.1,
        SERVER_PORT,
        CLIENT_PORT,
        payload,
        CLIENT_PORT,
    );
    dhcp_message::lemma_fixed_reads_back(head, chaddr, options);
    let field = payload.subrange(28, 34);
    assert(field == chaddr);
    assert(field[0] == payload[28] && field[1] == payload[29] && field[2] == payload[30] && field[3]
        == payload[31] && field[4] == payload[32] && field[5] == payload[33]);
}

/// What the server sends is a reply to the client that asked: a frame from the
/// server to the clients' port, with a message that repeats the request's
/// transaction and the client's hardware address. The address that it names
/// lies in the server's network and is not the server's own; a refusal names
/// none.
pub proof fn law_reply_answers_client(
    frame: Seq<u8>,
    config: ServerConfig,
    leases: Map<u64, ClientLease>,
    now: Instant,
)
    requires
        config.net.wf(),
        are_own(leases, config),
    ensures
        server_step(frame, config, leases, now).0 matches Some(reply) ==> {
            &&& is_client_message(frame)
            &&& packet::read_mac(reply, 6) == config.server_mac
            &&& packet::udp_payload_of(reply, CLIENT_PORT) matches Some(answer) && {
                let question = packet::udp_payload_of(frame, SERVER_PORT)->Some_0;
                let named = Ipv4Addr { bits: addr::read32(answer, 16) as u32 };
                &&& answer.len() >= FIXED_LEN
                &&& answer[0] == BOOT_REPLY
                &&& addr::read32(answer, 4) == addr::read32(question, 4)
                &&& packet::read_mac(answer, 28) == packet::read_mac(question, 28)
                &&& named == addr::unspecified_ip() || (config.net.holds(named) && named
                    != config.server_ip)
            }
        },
{
    let question = packet::udp_payload_of(frame, SERVER_PORT)->Some_0;
    let options = dhcp_message::decoded_options(question);
    let client = packet::read_mac(question, 28);
    let xid = addr::read32(question, 4) as u32;
    let flags = addr::read16(question, 10) as u16;
    subnet::law_subnet_bounds(config.net);
    if server_step(frame, config, leases, now).0 is Some {
        let kind = options[OPT_MESSAGE_TYPE][0];
        lemma_reply_writable(OFFER, config);
        lemma_reply_writable(ACK, config);
        if kind == DISCOVER {
            if !leases.contains_key(client.spec_key()) {
                law_new_client_gets_lowest_free(client, leases, config.net, config.server_ip, now);
            }
            let ip = allocation(client, leases, config.net, config.server_ip, now).0->Some_0;
            lemma_reply_reads_back(
                reply_header(xid, flags, ip, config),
                client,
                reply_options(OFFER, config),
                config,
                flags,
                ip,
            );
        } else {
            let ip = asked_for(options, client, leases)->Some_0;
            if may_have(ip, client, config, leases, now) {
                lemma_reply_reads_back(
                    reply_header(xid, flags, ip, config),
                    client,
                    reply_options(ACK, config),
                    config,
                    flags,
                    ip,
                );
            } else {
                lemma_reply_reads_back(
                    nak_header(xid),
                    client,
                    nak_options(config),
                    config,
                    flags,
                    addr::broadcast_ip(),
                );
            }
        }
    }
}

/// The plan of the server follows the text of the inner interface's address to the
/// letter. For `a.b.c.d/p` the server's own address is `a.b.c.d`, its network is
/// that address with a prefix of `p` bits, and its mask has `p` ones in front. The
/// server cannot start only where the network is one of the two addresses at the
/// ends of all addresses alone.
pub proof fn law_plan_is_of_written_address(
    a: Seq<char>,
    b: Seq<char>,
    c: Seq<char>,
    d: Seq<char>,
    p: Seq<char>,
)
    requires
        1 <= a.len() <= 3 && 1 <= b.len() <= 3 && 1 <= c.len() <= 3 && 1 <= d.len() <= 3,
        1 <= p.len() <= 2,
        forall|i: int| 0 <= i < a.len() ==> '0' <= #[trigger] a[i] <= '9',
        forall|i: int| 0 <= i < b.len() ==> '0' <= #[trigger] b[i] <= '9',
        forall|i: int| 0 <= i < c.len() ==> '0' <= #[trigger] c[i] <= '9',
        forall|i: int| 0 <= i < d.len() ==> '0' <= #[trigger] d[i] <= '9',
        forall|i: int| 0 <= i < p.len() ==> '0' <= #[trigger] p[i] <= '9',
        network::decimal(a) <= 255 && network::decimal(b) <= 255,
        network::decimal(c) <= 255 && network::decimal(d) <= 255,
        network::decimal(p) <= 32,
    ensures
        ({
            let text = a + seq!['.'] + b + seq!['.'] + c + seq!['.'] + d + seq!['/'] + p;
            let address = ((network::decimal(a) * 256 + network::decimal(b)) * 256
                + network::decimal(c)) * 256 + network::decimal(d);
            let size = pow2((32 - network::decimal(p)) as nat) as int;
            subnet::written_net(text) matches Some(net) && {
                let plan = plan_of(net);
                &&& plan.server_ip.bits == address
                &&& plan.net.addr.bits == address
                &&& plan.net.prefix_len == network::decimal(p)
                &&& plan.subnet_mask.bits + size == 0x1_0000_0000
                &&& has_pool(net) <==> network::decimal(p) < 32 || 0 < address < 0xffff_ffff
                &&& has_pool(net) ==> plan.start_ip.bits == address as int / size * size + 1
                    && plan.end_ip.bits == address as int / size * size + size - 2
            }
        }),
{
    subnet::law_text_spells_network(a, b, c, d, p);
    let text = a + seq!['.'] + b + seq!['.'] + c + seq!['.'] + d + seq!['/'] + p;
    let net = subnet::written_net(text)->Some_0;
    law_plan_is_of_address(net);
}

/// The plan of the server follows its address: that address is its own, whatever
/// place it has in the network, and the range of addresses starts right behind the
/// network's own and ends right before the broadcast address.
pub proof fn law_plan_is_of_address(net: Subnet)
    requires
        net.prefix_len <= 32,
    ensures
        ({
            let plan = plan_of(net);
            let size = pow2((32 - net.prefix_len) as nat) as int;
            let first = net.addr.bits as int / size * size;
            &&& plan.server_ip == net.addr
            &&& plan.net == net
            &&& plan.subnet_mask.bits == 0x1_0000_0000 - size
            &&& has_pool(net) <==> net.prefix_len < 32 || 0 < net.addr.bits < 0xffff_ffff
            &&& has_pool(net) ==> plan.start_ip.bits == first + 1 && plan.end_ip.bits == first
                + size - 2
        }),
{
    subnet::law_subnet_bounds(net);
    subnet::law_network_has_leading_bits(net, net.addr);
    vstd::arithmetic::power2::lemma2_to64();
    if net.prefix_len < 32 {
        vstd::arithmetic::power2::lemma_pow2_unfold((32 - net.prefix_len) as nat);
        vstd::arithmetic::power2::lemma_pow2_pos((31 - net.prefix_len) as nat);
    }
}

/// Which address a client gets that looks for one, and which lease. A client that
/// has a lease gets the address of that lease, and the lease stays as it is. Any
/// other gets the lowest address that is a host's, not the server's and held by no
/// client, and a lease on it that ends an hour from now; all other leases stay as
/// they are. It gets none, and no lease changes, only where every host's address
/// is the server's or held.
#[verifier::spinoff_prover]
#[verifier::rlimit(40)]
pub proof fn law_allocation_is_lowest_or_kept(
    client: MacAddr,
    leases: Map<u64, ClientLease>,
    net: Subnet,
    server_ip: Ipv4Addr,
    now: Instant,
)
    requires
        net.prefix_len <= 32,
        now.in_range(),
    ensures
        ({
            let key = client.spec_key();
            let size = pow2((32 - net.prefix_len) as nat) as int;
            let first = net.addr.bits as int / size * size;
            let (got, after) = allocation(client, leases, net, server_ip, now);
            if leases.contains_key(key) {
                got == Some(leases[key].ip) && after == leases
            } else {
                match got {
                    Some(ip) => {
                        &&& first <= ip.bits < first + size
                        &&& net.prefix_len <= 30 ==> first < ip.bits < first + size - 1
                        &&& ip != server_ip
                        &&& forall|k: u64| #[trigger]
                            leases.contains_key(k) && leases[k].ip == ip ==> leases[k].expiry.nanos
                                <= now.nanos
                        &&& forall|other: Ipv4Addr|
                            first <= #[trigger] other.bits < ip.bits && (net.prefix_len >= 31
                                || first < other.bits) && other != server_ip ==> exists|k: u64|
                             #[trigger]
                                leases.contains_key(k) && leases[k].ip == other
                                    && leases[k].expiry.nanos > now.nanos
                        &&& after == leases.insert(key, after[key])
                        &&& after[key].ip == ip
                        &&& after[key].expiry.nanos == now.nanos + 3600 * 1_000_000_000
                    },
                    None => {
                        &&& after == leases
                        &&& forall|other: Ipv4Addr|
                            first <= #[trigger] other.bits < first + size && (net.prefix_len >= 31
                                || first < other.bits < first + size - 1) && other != server_ip
                                ==> exists|k: u64| #[trigger]
                                leases.contains_key(k) && leases[k].ip == other
                                    && leases[k].expiry.nanos > now.nanos
                    },
                }
            }
        }),
{
    let key = client.spec_key();
    let size = pow2((32 - net.prefix_len) as nat) as int;
    let first = net.addr.bits as int / size * size;
    let (got, after) = allocation(client, leases, net, server_ip, now);
    subnet::law_subnet_bounds(net);
    subnet::law_network_has_leading_bits(net, net.addr);
    if !leases.contains_key(key) {
        law_new_client_gets_lowest_free(client, leases, net, server_ip, now);
        let upto = match got {
            Some(ip) => ip.bits as int,
            None => first + size,
        };
        assert forall|other: Ipv4Addr|
            first <= #[trigger] other.bits < upto && (net.prefix_len >= 31 || first < other.bits
                < first + size - 1) && other != server_ip && upto <= first
                + size implies exists|k: u64| #[trigger]
            leases.contains_key(k) && leases[k].ip == other && leases[k].expiry.nanos
                > now.nanos by {
            assert(net.is_host(other));
            assert(!is_free(other, net, server_ip, leases, now));
            assert(is_held(leases, other, now, None));
        }
        if let Some(ip) = got {
            assert(is_free(ip, net, server_ip, leases, now));
            assert forall|k: u64| #[trigger]
                leases.contains_key(k) && leases[k].ip == ip implies leases[k].expiry.nanos
                <= now.nanos by {
                assert(!is_held(leases, ip, now, None));
            }
        }
    }
}

/// What the options of an offer or an acknowledgement say, octet by octet: the mask,
/// the server for a router and for a name server, a lease of an hour, which of the
/// two it is, and the server's address.
#[verifier::spinoff_prover]
#[verifier::rlimit(40)]
pub proof fn law_reply_options_in_octets(kind: u8, config: ServerConfig)
    ensures
        dhcp_message::options_octets(reply_options(kind, config)) == seq![1u8, 4] + addr::octets32(
            config.subnet_mask.bits,
        ) + seq![3u8, 4] + addr::octets32(config.server_ip.bits) + seq![6u8, 4] + addr::octets32(
            config.server_ip.bits,
        ) + seq![51u8, 4, 0, 0, 14, 16] + seq![53u8, 1, kind] + seq![54u8, 4] + addr::octets32(
            config.server_ip.bits,
        ) + seq![255u8],
{
    let options = reply_options(kind, config);
    let server = addr::octets32(config.server_ip.bits);
    let list = dhcp_message::address_octets(seq![config.server_ip]);
    assert(list =~= server);
    assert(addr::octets32(3600) =~= seq![0u8, 0, 14, 16]);
    assert(dhcp_message::option_octets(options, 1) =~= seq![1u8, 4] + addr::octets32(
        config.subnet_mask.bits,
    ));
    assert(dhcp_message::option_octets(options, 3) =~= seq![3u8, 4] + server);
    assert(dhcp_message::option_octets(options, 6) =~= seq![6u8, 4] + server);
    assert(dhcp_message::option_octets(options, 50) =~= seq![]);
    assert(dhcp_message::option_octets(options, 51) =~= seq![51u8, 4, 0, 0, 14, 16]);
    assert(dhcp_message::option_octets(options, 53) =~= seq![53u8, 1, kind]);
    assert(dhcp_message::option_octets(options, 54) =~= seq![54u8, 4] + server);
    assert(dhcp_message::option_octets(options, 55) =~= seq![]);
    let octets = dhcp_message::options_octets(options);
    assert(octets =~= seq![1u8, 4] + addr::octets32(config.subnet_mask.bits) + seq![3u8, 4] + server
        + seq![6u8, 4] + server + seq![51u8, 4, 0, 0, 14, 16] + seq![53u8, 1, kind] + seq![54u8, 4]
        + server + seq![255u8]);
}

/// What the options of a refusal say, octet by octet: that it is one, and the
/// server's address.
#[verifier::spinoff_prover]
#[verifier::rlimit(40)]
pub proof fn law_refusal_options_in_octets(config: ServerConfig)
    ensures
        dhcp_message::options_octets(nak_options(config)) == seq![53u8, 1, 6] + seq![54u8, 4]
            + addr::octets32(config.server_ip.bits) + seq![255u8],
{
    let options = nak_options(config);
    let server = addr::octets32(config.server_ip.bits);
    assert(dhcp_message::option_octets(options, 1) =~= seq![]);
    assert(dhcp_message::option_octets(options, 3) =~= seq![]);
    assert(dhcp_message::option_octets(options, 6) =~= seq![]);
    assert(dhcp_message::option_octets(options, 50) =~= seq![]);
    assert(dhcp_message::option_octets(options, 51) =~= seq![]);
    assert(dhcp_message::option_octets(options, 53) =~= seq![53u8, 1, 6]);
    assert(dhcp_message::option_octets(options, 54) =~= seq![54u8, 4] + server);
    assert(dhcp_message::option_octets(options, 55) =~= seq![]);
    assert(dhcp_message::options_octets(options) =~= seq![53u8, 1, 6] + seq![54u8, 4] + server
        + seq![255u8]);
}

/// What stands in an offer or an acknowledgement, and in a refusal, whatever the
/// hardware address: a reply of the same transaction. The first two repeat the
/// flags and name the address and the server; a refusal does none of that.
pub proof fn law_payload_fields_stand_in_place(
    kind: u8,
    xid: u32,
    flags: u16,
    chaddr: Seq<u8>,
    ip: Ipv4Addr,
    config: ServerConfig,
)
    requires
        chaddr.len() <= 16,
    ensures
        ({
            let m = reply_payload(kind, xid, flags, chaddr, ip, config);
            &&& m[0] == 2 && m[1] == 1 && m[2] == chaddr.len() && m[3] == 0
            &&& addr::read32(m, 4) == xid
            &&& addr::read16(m, 8) == 0
            &&& addr::read16(m, 10) == flags
            &&& addr::read32(m, 12) == 0
            &&& addr::read32(m, 16) == ip.bits
            &&& addr::read32(m, 20) == config.server_ip.bits
            &&& addr::read32(m, 24) == 0
            &&& forall|i: int| 28 <= i < 28 + chaddr.len() ==> #[trigger] m[i] == chaddr[i - 28]
            &&& forall|i: int| 28 + chaddr.len() <= i < 236 ==> #[trigger] m[i] == 0
        }),
        ({
            let m = nak_payload(xid, chaddr, config);
            &&& m[0] == 2 && m[1] == 1 && m[2] == chaddr.len() && m[3] == 0
            &&& addr::read32(m, 4) == xid
            &&& forall|i: int| 8 <= i < 28 ==> #[trigger] m[i] == 0
            &&& forall|i: int| 28 <= i < 28 + chaddr.len() ==> #[trigger] m[i] == chaddr[i - 28]
            &&& forall|i: int| 28 + chaddr.len() <= i < 236 ==> #[trigger] m[i] == 0
        }),
{
    dhcp_message::law_message_fields_stand_in_place(
        reply_header(xid, flags, ip, config),
        chaddr,
        reply_options(kind, config),
    );
    let m = nak_payload(xid, chaddr, config);
    dhcp_message::law_message_fields_stand_in_place(nak_header(xid), chaddr, nak_options(config));
    assert(m[8] == 0 && m[9] == 0 && m[10] == 0 && m[11] == 0);
    assert(m[12] == 0 && m[13] == 0 && m[14] == 0 && m[15] == 0);
    assert(m[16] == 0 && m[17] == 0 && m[18] == 0 && m[19] == 0);
    assert(m[20] == 0 && m[21] == 0 && m[22] == 0 && m[23] == 0);
    assert(m[24] == 0 && m[25] == 0 && m[26] == 0 && m[27] == 0);
}

/// Whether a frame goes from the server's port 67 to port 68, from the server's two
/// addresses, and to the link-layer address `mac` and the address `ip`.
pub open spec fn goes_to(frame: Seq<u8>, config: ServerConfig, mac: MacAddr, ip: int) -> bool {
    &&& frame.len() >= 282
    &&& MacAddr(frame[0], frame[1], frame[2], frame[3], frame[4], frame[5]) == mac
    &&& MacAddr(frame[6], frame[7], frame[8], frame[9], frame[10], frame[11]) == config.server_mac
    &&& frame[12] == 8 && frame[13] == 0 && frame[23] == 17
    &&& addr::read32(frame, 26) == config.server_ip.bits
    &&& addr::read32(frame, 30) == ip
    &&& addr::read16(frame, 34) == 67
    &&& addr::read16(frame, 36) == 68
}

/// Whether a message is a reply of the given transaction to the given client.
pub open spec fn replies_to(message: Seq<u8>, xid: u32, client: MacAddr) -> bool {
    &&& message[0] == 2 && message[1] == 1 && message[2] == 6 && message[3] == 0
    &&& addr::read32(message, 4) == xid
    &&& addr::read32(message, 12) == 0
    &&& addr::read32(message, 24) == 0
    &&& MacAddr(
        message[28],
        message[29],
        message[30],
        message[31],
        message[32],
        message[33],
    ) == client
    &&& message[236] == 99 && message[237] == 130 && message[238] == 83 && message[239] == 99
}

#[verifier::spinoff_prover]
#[verifier::rlimit(40)]
proof fn lemma_reply_in_octets(
    head: DhcpHeader,
    client: MacAddr,
    options: Map<u8, Seq<u8>>,
    config: ServerConfig,
    flags: u16,
    ip: Ipv4Addr,
)
    requires
        dhcp_message::writable(options),
        head.opcode == 2,
        head.ciaddr.bits == 0,
    ensures
        ({
            let payload = dhcp_message::message_octets(head, client.spec_octets(), options);
            let frame = reply_frame(config, flags, client, ip, payload);
            &&& frame.skip(42) == payload
            &&& flags >= 0x8000 ==> goes_to(
                frame,
                config,
                MacAddr(0xff, 0xff, 0xff, 0xff, 0xff, 0xff),
                0xffff_ffff,
            )
            &&& flags < 0x8000 ==> goes_to(frame, config, client, ip.bits as int)
            &&& replies_to(payload, head.xid, client)
            &&& addr::read16(payload, 10) == head.flags
            &&& addr::read32(payload, 16) == head.yiaddr.bits
            &&& addr::read32(payload, 20) == head.siaddr.bits
            &&& payload.skip(240) == dhcp_message::options_octets(options)
            &&& packet::udp_payload_of(frame, 68) == Some(payload)
        }),
{
    let chaddr = client.spec_octets();
    let payload = dhcp_message::message_octets(head, chaddr, options);
    let dest = destination(flags >= FLAG_BROADCAST, client, ip);
    dhcp_message::lemma_message_len(head, chaddr, options);
    dhcp_message::law_message_fields_stand_in_place(head, chaddr, options);
    packet::law_frame_fields_stand_in_place(
        config.server_mac,
        dest.0,
        config.server_ip,
        dest.1,
        SERVER_PORT,
        CLIENT_PORT,
        payload,
    );
    packet::law_built_frame_reads_back(
        config.server_mac,
        dest.0,
        config.server_ip,
        dest.1,
        SERVER_PORT,
        CLIENT_PORT,
        payload,
        68,
    );
    assert(payload[28] == chaddr[0] && payload[29] == chaddr[1] && payload[30] == chaddr[2]
        && payload[31] == chaddr[3] && payload[32] == chaddr[4] && payload[33] == chaddr[5]);
}

proof fn lemma_request_about(
    options: Map<u8, Seq<u8>>,
    client: MacAddr,
    config: ServerConfig,
    leases: Map<u64, ClientLease>,
    now: Instant,
    ip: Ipv4Addr,
)
    requires
        config.net.prefix_len <= 32,
        options.contains_key(50) ==> options[50] == addr::octets32(ip.bits),
        !options.contains_key(50) ==> leases.contains_key(client.spec_key())
            && leases[client.spec_key()].ip == ip,
    ensures
        asked_for(options, client, leases) == Some(ip),
        config.net.holds(ip) <==> ip.bits as int / pow2((32 - config.net.prefix_len) as nat) as int
            == config.net.addr.bits as int / pow2((32 - config.net.prefix_len) as nat) as int,
{
    addr::law_octets_spell_address(ip.bits);
    subnet::law_network_has_leading_bits(config.net, ip);
}

#[verifier::spinoff_prover]
#[verifier::rlimit(40)]
proof fn lemma_granting_frame(
    kind: u8,
    xid: u32,
    flags: u16,
    client: MacAddr,
    config: ServerConfig,
    ip: Ipv4Addr,
)
    ensures
        ({
            let payload = reply_payload(kind, xid, flags, client.spec_octets(), ip, config);
            let frame = reply_frame(config, flags, client, ip, payload);
            let message = frame.skip(42);
            &&& packet::udp_payload_of(frame, 68) == Some(message)
            &&& flags >= 0x8000 ==> goes_to(
                frame,
                config,
                MacAddr(0xff, 0xff, 0xff, 0xff, 0xff, 0xff),
                0xffff_ffff,
            )
            &&& flags < 0x8000 ==> goes_to(frame, config, client, ip.bits as int)
            &&& replies_to(message, xid, client)
            &&& addr::read16(message, 10) == flags
            &&& addr::read32(message, 16) == ip.bits
            &&& addr::read32(message, 20) == config.server_ip.bits
            &&& message.skip(240) == seq![1u8, 4] + addr::octets32(config.subnet_mask.bits) + seq![
                3u8,
                4,
            ] + addr::octets32(config.server_ip.bits) + seq![6u8, 4] + addr::octets32(
                config.server_ip.bits,
            ) + seq![51u8, 4, 0, 0, 14, 16] + seq![53u8, 1, kind] + seq![54u8, 4] + addr::octets32(
                config.server_ip.bits,
            ) + seq![255u8]
        }),
{
    lemma_reply_writable(kind, config);
    law_reply_options_in_octets(kind, config);
    lemma_reply_in_octets(
        reply_header(xid, flags, ip, config),
        client,
        reply_options(kind, config),
        config,
        flags,
        ip,
    );
}

#[verifier::spinoff_prover]
#[verifier::rlimit(40)]
proof fn lemma_refusing_frame(xid: u32, flags: u16, client: MacAddr, config: ServerConfig)
    ensures
        ({
            let payload = nak_payload(xid, client.spec_octets(), config);
            let frame = reply_frame(config, flags, client, addr::broadcast_ip(), payload);
            let message = frame.skip(42);
            &&& packet::udp_payload_of(frame, 68) == Some(message)
            &&& flags >= 0x8000 ==> goes_to(
                frame,
                config,
                MacAddr(0xff, 0xff, 0xff, 0xff, 0xff, 0xff),
                0xffff_ffff,
            )
            &&& flags < 0x8000 ==> goes_to(frame, config, client, 0xffff_ffff)
            &&& replies_to(message, xid, client)
            &&& addr::read16(message, 10) == 0
            &&& addr::read32(message, 16) == 0
            &&& addr::read32(message, 20) == 0
            &&& message.skip(240) == seq![53u8, 1, 6] + seq![54u8, 4] + addr::octets32(
                config.server_ip.bits,
            ) + seq![255u8]
        }),
{
    lemma_reply_writable(NAK, config);
    law_refusal_options_in_octets(config);
    lemma_reply_in_octets(
        nak_header(xid),
        client,
        nak_options(config),
        config,
        flags,
        addr::broadcast_ip(),
    );
}

/// What a client is told that asks for an address it may have. The address is the
/// one that the request names or, where it names none, that of the client's lease;
/// the client may have it where it lies in the server's network, is not the
/// server's own and no other client holds it. Whatever flags the request has, and
/// whether or not it names the address, the client is sent an acknowledgement of
/// that very address, and gets a lease on it that ends an hour from now. The frame
/// goes to all where the client asks for that, and otherwise to the client at its
/// address.
#[verifier::spinoff_prover]
#[verifier::rlimit(40)]
pub proof fn law_request_is_granted(
    xid: u32,
    flags: u16,
    options: Map<u8, Seq<u8>>,
    client: MacAddr,
    config: ServerConfig,
    leases: Map<u64, ClientLease>,
    now: Instant,
    ip: Ipv4Addr,
)
    requires
        config.net.prefix_len <= 32,
        now.in_range(),
        options.contains_key(50) ==> options[50] == addr::octets32(ip.bits),
        !options.contains_key(50) ==> leases.contains_key(client.spec_key())
            && leases[client.spec_key()].ip == ip,
        ip != config.server_ip,
        ip.bits as int / pow2((32 - config.net.prefix_len) as nat) as int
            == config.net.addr.bits as int / pow2((32 - config.net.prefix_len) as nat) as int,
        forall|k: u64| #[trigger]
            leases.contains_key(k) && k != client.spec_key() && leases[k].ip == ip
                ==> leases[k].expiry.nanos <= now.nanos,
    ensures
        ({
            let key = client.spec_key();
            let (sent, after) = request_step(xid, flags, options, client, config, leases, now);
            &&& after == leases.insert(key, after[key])
            &&& after[key].ip == ip
            &&& after[key].expiry.nanos == now.nanos + 3600 * 1_000_000_000
            &&& sent matches Some(frame) && {
                let message = frame.skip(42);
                &&& packet::udp_payload_of(frame, 68) == Some(message)
                &&& flags >= 0x8000 ==> goes_to(
                    frame,
                    config,
                    MacAddr(0xff, 0xff, 0xff, 0xff, 0xff, 0xff),
                    0xffff_ffff,
                )
                &&& flags < 0x8000 ==> goes_to(frame, config, client, ip.bits as int)
                &&& replies_to(message, xid, client)
                &&& addr::read16(message, 10) == flags
                &&& addr::read32(message, 16) == ip.bits
                &&& addr::read32(message, 20) == config.server_ip.bits
                &&& message.skip(240) == seq![1u8, 4] + addr::octets32(config.subnet_mask.bits)
                    + seq![3u8, 4] + addr::octets32(config.server_ip.bits) + seq![6u8, 4]
                    + addr::octets32(config.server_ip.bits) + seq![51u8, 4, 0, 0, 14, 16] + seq![
                    53u8,
                    1,
                    5,
                ] + seq![54u8, 4] + addr::octets32(config.server_ip.bits) + seq![255u8]
            }
        }),
{
    lemma_request_about(options, client, config, leases, now, ip);
    assert(!is_held(leases, ip, now, Some(client.spec_key())));
    assert(request_step(xid, flags, options, client, config, leases, now).0 == Some(
        reply_frame(
            config,
            flags,
            client,
            ip,
            reply_payload(ACK, xid, flags, client.spec_octets(), ip, config),
        ),
    ));
    lemma_granting_frame(ACK, xid, flags, client, config, ip);
}

/// What a client is told that asks for an address it may not have: the server's
/// own, one outside the server's network, or one that another client holds. It is
/// sent a refusal, which names no address, and no lease changes. The frame goes to
/// all at its address, and by its link-layer address too where the client asks for
/// that.
#[verifier::spinoff_prover]
#[verifier::rlimit(40)]
pub proof fn law_request_is_refused(
    xid: u32,
    flags: u16,
    options: Map<u8, Seq<u8>>,
    client: MacAddr,
    config: ServerConfig,
    leases: Map<u64, ClientLease>,
    now: Instant,
    ip: Ipv4Addr,
)
    requires
        config.net.prefix_len <= 32,
        options.contains_key(50) ==> options[50] == addr::octets32(ip.bits),
        !options.contains_key(50) ==> leases.contains_key(client.spec_key())
            && leases[client.spec_key()].ip == ip,
        ip == config.server_ip || ip.bits as int / pow2(
            (32 - config.net.prefix_len) as nat,
        ) as int != config.net.addr.bits as int / pow2((32 - config.net.prefix_len) as nat) as int
            || exists|k: u64| #[trigger]
            leases.contains_key(k) && k != client.spec_key() && leases[k].ip == ip
                && leases[k].expiry.nanos > now.nanos,
    ensures
        ({
            let (sent, after) = request_step(xid, flags, options, client, config, leases, now);
            &&& after == leases
            &&& sent matches Some(frame) && {
                let message = frame.skip(42);
                &&& packet::udp_payload_of(frame, 68) == Some(message)
                &&& flags >= 0x8000 ==> goes_to(
                    frame,
                    config,
                    MacAddr(0xff, 0xff, 0xff, 0xff, 0xff, 0xff),
                    0xffff_ffff,
                )
                &&& flags < 0x8000 ==> goes_to(frame, config, client, 0xffff_ffff)
                &&& replies_to(message, xid, client)
                &&& addr::read16(message, 10) == 0
                &&& addr::read32(message, 16) == 0
                &&& addr::read32(message, 20) == 0
                &&& message.skip(240) == seq![53u8, 1, 6] + seq![54u8, 4] + addr::octets32(
                    config.server_ip.bits,
                ) + seq![255u8]
            }
        }),
{
    lemma_request_about(options, client, config, leases, now, ip);
    if exists|k: u64| #[trigger]
        leases.contains_key(k) && k != client.spec_key() && leases[k].ip == ip
            && leases[k].expiry.nanos > now.nanos {
        assert(is_held(leases, ip, now, Some(client.spec_key())));
    }
    assert(!may_have(ip, client, config, leases, now));
    assert(request_step(xid, flags, options, client, config, leases, now).0 == Some(
        reply_frame(
            config,
            flags,
            client,
            addr::broadcast_ip(),
            nak_payload(xid, client.spec_octets(), config),
        ),
    ));
    lemma_refusing_frame(xid, flags, client, config);
}

/// A request that names no address, of a client without a lease, is not answered
/// and changes no lease.
pub proof fn law_request_for_nothing_is_ignored(
    xid: u32,
    flags: u16,
    options: Map<u8, Seq<u8>>,
    client: MacAddr,
    config: ServerConfig,
    leases: Map<u64, ClientLease>,
    now: Instant,
)
    requires
        !options.contains_key(50),
        !leases.contains_key(client.spec_key()),
    ensures
        request_step(xid, flags, options, client, config, leases, now) == (None::<Seq<u8>>, leases),
{
}

/// What a client is told that looks for an address: it is sent an offer of the
/// address that is allocated to it, whatever flags it has, and of no other; nothing
/// where none can be allocated. The leases are those of the allocation. The frame
/// goes to all where the client asks for that, and otherwise to the client at its
/// address.
#[verifier::spinoff_prover]
#[verifier::rlimit(40)]
pub proof fn law_search_is_answered_with_offer(
    xid: u32,
    flags: u16,
    client: MacAddr,
    config: ServerConfig,
    leases: Map<u64, ClientLease>,
    now: Instant,
)
    ensures
        ({
            let (sent, after) = discover_step(xid, flags, client, config, leases, now);
            let (got, allocated) = allocation(client, leases, config.net, config.server_ip, now);
            &&& after == allocated
            &&& got is None ==> sent is None
            &&& got matches Some(ip) ==> after.contains_key(client.spec_key())
                && after[client.spec_key()].ip == ip && (sent matches Some(frame) && {
                let message = frame.skip(42);
                &&& packet::udp_payload_of(frame, 68) == Some(message)
                &&& flags >= 0x8000 ==> goes_to(
                    frame,
                    config,
                    MacAddr(0xff, 0xff, 0xff, 0xff, 0xff, 0xff),
                    0xffff_ffff,
                )
                &&& flags < 0x8000 ==> goes_to(frame, config, client, ip.bits as int)
                &&& replies_to(message, xid, client)
                &&& addr::read16(message, 10) == flags
                &&& addr::read32(message, 16) == ip.bits
                &&& addr::read32(message, 20) == config.server_ip.bits
                &&& message.skip(240) == seq![1u8, 4] + addr::octets32(config.subnet_mask.bits)
                    + seq![3u8, 4] + addr::octets32(config.server_ip.bits) + seq![6u8, 4]
                    + addr::octets32(config.server_ip.bits) + seq![51u8, 4, 0, 0, 14, 16] + seq![
                    53u8,
                    1,
                    2,
                ] + seq![54u8, 4] + addr::octets32(config.server_ip.bits) + seq![255u8]
            })
        }),
{
    let got = allocation(client, leases, config.net, config.server_ip, now).0;
    if let Some(ip) = got {
        lemma_granting_frame(OFFER, xid, flags, client, config, ip);
    }
}

/// What the server does with each kind of message. The first kind is a search and
/// the third a request. On the fourth and the seventh, by which a client declines
/// its address or gives it back, nothing is sent, and that client's lease is gone
/// and no other. All other kinds have no effect.
pub proof fn law_each_kind_has_its_answer(
    kind: u8,
    xid: u32,
    flags: u16,
    options: Map<u8, Seq<u8>>,
    client: MacAddr,
    config: ServerConfig,
    leases: Map<u64, ClientLease>,
    now: Instant,
)
    ensures
        ({
            let key = client.spec_key();
            let (sent, after) = message_step(
                kind,
                xid,
                flags,
                options,
                client,
                config,
                leases,
                now,
            );
            &&& kind == 1 ==> (sent, after) == discover_step(
                xid,
                flags,
                client,
                config,
                leases,
                now,
            )
            &&& kind == 3 ==> (sent, after) == request_step(
                xid,
                flags,
                options,
                client,
                config,
                leases,
                now,
            )
            &&& kind == 4 || kind == 7 ==> sent is None && !after.contains_key(key) && forall|
                k: u64,
            |
                k != key ==> (#[trigger] after.contains_key(k) <==> leases.contains_key(k)) && (
                leases.contains_key(k) ==> after[k] == leases[k])
            &&& kind != 1 && kind != 3 && kind != 4 && kind != 7 ==> sent is None && after == leases
        }),
{
}

/// Which frames the server takes for a client's message, and what it takes from
/// them. The datagram has to be for port 67 and hold at least 240 octets, of which
/// the first is that of a request and the third says that the hardware address has
/// six octets. That address has to be the one that the frame came from, unless the
/// message came through a relay, and there has to be a message type. The client,
/// the transaction and the flags are those in the message. All other frames have
/// no effect.
pub proof fn law_server_takes_messages_of_clients(
    frame: Seq<u8>,
    config: ServerConfig,
    leases: Map<u64, ClientLease>,
    now: Instant,
)
    ensures
        ({
            let step = server_step(frame, config, leases, now);
            match packet::udp_payload_of(frame, 67) {
                Some(m) => {
                    let client = MacAddr(m[28], m[29], m[30], m[31], m[32], m[33]);
                    let options = dhcp_message::decoded_options(m);
                    let source = MacAddr(
                        frame[6],
                        frame[7],
                        frame[8],
                        frame[9],
                        frame[10],
                        frame[11],
                    );
                    let relayed = m[24] != 0 || m[25] != 0 || m[26] != 0 || m[27] != 0;
                    if m.len() >= 240 && m[0] == 1 && m[2] == 6 && (relayed || source == client)
                        && options.contains_key(53) {
                        step == message_step(
                            options[53][0],
                            addr::be32(m[4], m[5], m[6], m[7]) as u32,
                            (m[10] * 256 + m[11]) as u16,
                            options,
                            client,
                            config,
                            leases,
                            now,
                        )
                    } else {
                        step == (None::<Seq<u8>>, leases)
                    }
                },
                None => step == (None::<Seq<u8>>, leases),
            }
        }),
{
}

/// Which messages are never taken: those of clients that say of their hardware
/// address that it has more than sixteen octets.
pub proof fn law_oversized_address_is_told(frame: Seq<u8>)
    ensures
        is_oversized(frame) <==> (packet::udp_payload_of(frame, 67) matches Some(m) && m.len()
            >= 240 && m[0] == 1 && m[2] > 16),
{
}

/// Which frames are processed: all but those with a message that cannot be read or
/// whose hardware address is said to be longer than its field.
pub proof fn law_unreadable_frame_is_not_processed(frame: Seq<u8>)
    ensures
        packet::udp_payload_of(frame, 67) is None ==> can_be_answered(frame),
        packet::udp_payload_of(frame, 67) matches Some(m) ==> (can_be_answered(frame)
            <==> dhcp_message::readable(m) && !(m.len() >= 240 && m[0] == 1 && m[2] > 16)),
{
}

/// What is to be sent is the frame that there is, octet for octet.
pub proof fn law_frame_is_sent_whole(frame: Option<Vec<u8>>)
    ensures
        frame is None <==> opt_view(frame) is None,
        frame matches Some(octets) ==> opt_view(frame) == Some(octets@),
{
}

} // verus!
