//! How a DHCP client and the DHCP server get on with each other.

use crate::addr;
use crate::addr::{Ipv4Addr, MacAddr};
use crate::packet;
use crate::services::dhcp_client;
use crate::services::dhcp_client::{ClientState, WanSetup, FIRST_RETRY_SECS, NEVER_SENT_SECS};
use crate::services::dhcp_message;
use crate::services::dhcp_message::{
    ACK, CLIENT_PORT, FLAG_BROADCAST, OFFER, OPT_MESSAGE_TYPE, SERVER_PORT,
};
use crate::services::dhcp_server;
use crate::services::dhcp_server::{ClientLease, ServerConfig, LAN_LEASE_SECS};
use crate::services::dns_forwarder;
use crate::services::utils::WanLeaseView;
use crate::time::Instant;
use vstd::prelude::*;

verus! {

/// The frame in which a host without an address sends a message to all servers.
pub open spec fn client_frame(mac: MacAddr, payload: Seq<u8>) -> Seq<u8> {
    dhcp_client::message_frame(mac, addr::unspecified_ip(), addr::broadcast_ip(), payload)
}

proof fn lemma_reply_fields(
    kind: u8,
    xid: u32,
    flags: u16,
    mac: MacAddr,
    ip: Ipv4Addr,
    config: ServerConfig,
)
    ensures
        ({
            let payload = dhcp_server::reply_payload(
                kind,
                xid,
                flags,
                mac.spec_octets(),
                ip,
                config,
            );
            &&& payload.len() >= dhcp_message::FIXED_LEN
            &&& addr::read32(payload, 4) == xid
            &&& addr::read32(payload, 16) == ip.bits
        }),
        ({
            let options = dhcp_server::reply_options(kind, config);
            &&& options.contains_key(OPT_MESSAGE_TYPE)
            &&& options[OPT_MESSAGE_TYPE] == seq![kind]
            &&& dhcp_client::server_named(options) == Some(config.server_ip)
            &&& dhcp_client::mask_given(options) == config.subnet_mask
            &&& dhcp_client::gateway_given(options) == Some(config.server_ip)
            &&& dhcp_client::dns_given(options) == seq![config.server_ip]
            &&& dhcp_client::time_given(options) == LAN_LEASE_SECS
        }),
{
    let head = dhcp_server::reply_header(xid, flags, ip, config);
    let options = dhcp_server::reply_options(kind, config);
    assert(dhcp_message::writable(options));
    dhcp_message::lemma_message_len(head, mac.spec_octets(), options);
    dhcp_message::lemma_fixed_reads_back(head, mac.spec_octets(), options);
    addr::law_octets_spell_address(config.server_ip.bits);
    addr::law_octets_spell_address(config.subnet_mask.bits);
    addr::law_octets_spell_address(LAN_LEASE_SECS);
    dhcp_message::law_address_octets_spell_list(seq![config.server_ip]);
}

/// A client that looks for a server takes the server's offer, and then asks that
/// server for the address that was offered. The offer's options are taken to
/// read as they were written.
pub proof fn law_client_takes_offer(
    config: ServerConfig,
    mac: MacAddr,
    ip: Ipv4Addr,
    flags: u16,
    state: ClientState,
    lease: WanLeaseView,
    now: Instant,
    fresh_xid: u32,
)
    requires
        state is Discovering,
        dhcp_message::decoded_options(
            dhcp_server::reply_payload(
                OFFER,
                state.transaction(),
                flags,
                mac.spec_octets(),
                ip,
                config,
            ),
        ) == dhcp_server::reply_options(OFFER, config),
    ensures
        dhcp_client::incoming_step(
            dhcp_server::reply_payload(
                OFFER,
                state.transaction(),
                flags,
                mac.spec_octets(),
                ip,
                config,
            ),
            state,
            lease,
            now,
            fresh_xid,
        ) == (
            None::<WanSetup>,
            (ClientState::Requesting {
                xid: state.transaction(),
                offered_ip: ip,
                server_ip: Some(config.server_ip),
                last_sent: now.plus(-NEVER_SENT_SECS),
                retry_delay_secs: FIRST_RETRY_SECS,
            }),
            lease,
        ),
{
    lemma_reply_fields(OFFER, state.transaction(), flags, mac, ip, config);
}

/// A client of whose transaction it is takes the server's acknowledgement: it
/// has the address for as long as the server leases it, with the server for its
/// gateway and its name server.
pub proof fn law_client_takes_acknowledgement(
    config: ServerConfig,
    mac: MacAddr,
    ip: Ipv4Addr,
    flags: u16,
    state: ClientState,
    lease: WanLeaseView,
    now: Instant,
    fresh_xid: u32,
)
    requires
        dhcp_message::decoded_options(
            dhcp_server::reply_payload(
                ACK,
                state.transaction(),
                flags,
                mac.spec_octets(),
                ip,
                config,
            ),
        ) == dhcp_server::reply_options(ACK, config),
    ensures
        ({
            let (_, after, known) = dhcp_client::incoming_step(
                dhcp_server::reply_payload(
                    ACK,
                    state.transaction(),
                    flags,
                    mac.spec_octets(),
                    ip,
                    config,
                ),
                state,
                lease,
                now,
                fresh_xid,
            );
            &&& after == (ClientState::Bound {
                ip,
                mask: config.subnet_mask,
                gateway: Some(config.server_ip),
                server_ip: Some(config.server_ip),
                lease_secs: LAN_LEASE_SECS,
                bound_at: now,
                renew_sent: None,
                renew_xid: fresh_xid,
            })
            &&& known == (WanLeaseView {
                ip: Some(ip),
                mask: Some(config.subnet_mask),
                gateway: Some(config.server_ip),
                dns_servers: seq![config.server_ip],
            })
        }),
{
    lemma_reply_fields(ACK, state.transaction(), flags, mac, ip, config);
}

proof fn lemma_client_frame(mac: MacAddr, xid: u32, flags: u16, options: Map<u8, Seq<u8>>)
    requires
        dhcp_message::writable(options),
    ensures
        ({
            let payload = dhcp_message::message_octets(
                dhcp_client::request_header(xid, flags, addr::unspecified_ip()),
                mac.spec_octets(),
                options,
            );
            let frame = client_frame(mac, payload);
            &&& packet::udp_payload_of(frame, SERVER_PORT) == Some(payload)
            &&& dhcp_server::is_client_message(frame)
            &&& packet::read_mac(payload, 28) == mac
            &&& addr::read32(payload, 4) == xid
            &&& addr::read16(payload, 10) == flags
        }),
{
    let head = dhcp_client::request_header(xid, flags, addr::unspecified_ip());
    let chaddr = mac.spec_octets();
    let payload = dhcp_message::message_octets(head, chaddr, options);
    dhcp_message::lemma_message_len(head, chaddr, options);
    dhcp_message::lemma_fixed_reads_back(head, chaddr, options);
    packet::law_built_frame_reads_back(
        mac,
        addr::broadcast_mac(),
        addr::unspecified_ip(),
        addr::broadcast_ip(),
        CLIENT_PORT,
        SERVER_PORT,
        payload,
        SERVER_PORT,
    );
    let field = payload.subrange(28, 34);
    assert(field == chaddr);
    assert(field[0] == payload[28] && field[1] == payload[29] && field[2] == payload[30] && field[3]
        == payload[31] && field[4] == payload[32] && field[5] == payload[33]);
}

/// The server takes a client's search for what it is: it answers with an offer
/// of the address that it allocates, to all, as the client asks.
pub proof fn law_server_answers_search(
    config: ServerConfig,
    mac: MacAddr,
    xid: u32,
    leases: Map<u64, ClientLease>,
    now: Instant,
)
    requires
        dhcp_message::decoded_options(dhcp_client::discover_payload(mac, xid))
            == dhcp_client::discover_options(),
    ensures
        ({
            let frame = client_frame(mac, dhcp_client::discover_payload(mac, xid));
            let (ip, after) = dhcp_server::allocation(
                mac,
                leases,
                config.net,
                config.server_ip,
                now,
            );
            dhcp_server::server_step(frame, config, leases, now) == (
                match ip {
                    Some(address) => Some(
                        dhcp_server::reply_frame(
                            config,
                            FLAG_BROADCAST,
                            mac,
                            address,
                            dhcp_server::reply_payload(
                                OFFER,
                                xid,
                                FLAG_BROADCAST,
                                mac.spec_octets(),
                                address,
                                config,
                            ),
                        ),
                    ),
                    None => None,
                },
                after,
            )
        }),
{
    assert(dhcp_message::writable(dhcp_client::discover_options()));
    lemma_client_frame(mac, xid, FLAG_BROADCAST, dhcp_client::discover_options());
}

/// The server grants what it offered: a client that was given an address by a
/// search, and asks for it while it holds it, gets an acknowledgement and a new
/// lease on that very address, provided that leases are apart and in the
/// server's network.
pub proof fn law_server_grants_offer(
    config: ServerConfig,
    mac: MacAddr,
    xid: u32,
    leases: Map<u64, ClientLease>,
    now: Instant,
)
    requires
        dhcp_server::are_apart(leases, now),
        dhcp_server::are_own(leases, config),
        leases.contains_key(mac.spec_key()),
        leases[mac.spec_key()].expiry.nanos > now.nanos,
        dhcp_message::decoded_options(
            dhcp_client::request_payload(
                mac,
                xid,
                leases[mac.spec_key()].ip,
                Some(config.server_ip),
                addr::unspecified_ip(),
            ),
        ) == dhcp_client::request_options(
            leases[mac.spec_key()].ip,
            Some(config.server_ip),
            addr::unspecified_ip(),
        ),
    ensures
        ({
            let ip = leases[mac.spec_key()].ip;
            let frame = client_frame(
                mac,
                dhcp_client::request_payload(
                    mac,
                    xid,
                    ip,
                    Some(config.server_ip),
                    addr::unspecified_ip(),
                ),
            );
            dhcp_server::server_step(frame, config, leases, now) == (
                Some(
                    dhcp_server::reply_frame(
                        config,
                        FLAG_BROADCAST,
                        mac,
                        ip,
                        dhcp_server::reply_payload(
                            ACK,
                            xid,
                            FLAG_BROADCAST,
                            mac.spec_octets(),
                            ip,
                            config,
                        ),
                    ),
                ),
                leases.insert(
                    mac.spec_key(),
                    (ClientLease { ip, expiry: now.plus(LAN_LEASE_SECS as int) }),
                ),
            )
        }),
{
    let ip = leases[mac.spec_key()].ip;
    let options = dhcp_client::request_options(
        ip,
        Some(config.server_ip),
        addr::unspecified_ip(),
    );
    assert(dhcp_message::writable(options));
    lemma_client_frame(mac, xid, FLAG_BROADCAST, options);
    addr::law_octets_spell_address(ip.bits);
    dhcp_server::law_holder_may_renew(mac, config, leases, now);
    assert(dhcp_server::asked_for(options, mac, leases) == Some(ip));
}

/// Once the client has an address, queries for names go to the first name server
/// that came with it.
pub proof fn law_queries_go_to_leased_server(
    ip: Ipv4Addr,
    options: Map<u8, Seq<u8>>,
    lease: WanLeaseView,
    now: Instant,
    fresh_xid: u32,
)
    requires
        dhcp_client::dns_given(options).len() > 0,
    ensures
        ({
            let (_, _, known) = dhcp_client::ack_step(ip, options, lease, now, fresh_xid);
            dns_forwarder::upstream_of(known.dns_servers) == dhcp_client::dns_given(options)[0]
        }),
{
}

} // verus!
