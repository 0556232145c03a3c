use dhcproto::v4::{DhcpOption, Flags, Message, MessageType, Opcode, OptionCode};
use dhcproto::{Decodable, Decoder, Encodable};
use rustyrouter::addr::{Ipv4Addr, MacAddr};
use rustyrouter::packet::{build_raw_packet, udp_payload};
use rustyrouter::services::dhcp_server::{
    answer_frame, get_dest_mac_ip, get_or_allocate_ip, handle_dhcp_decline, handle_dhcp_release,
    has_oversized_address, process_incoming_packet, server_plan, start_dhcp_server,
    validate_requested_ip, ClientLease, LeaseTable, ServerConfig, ServerStartError, LAN_LEASE_SECS,
};
use rustyrouter::services::dhcp_message::is_readable;
use rustyrouter::services::utils::{
    has_readable_options, parse_dhcp_payload, try_parse_dhcp_payload,
};
use rustyrouter::subnet::Subnet;
use rustyrouter::time::{Instant, NANOS_PER_SEC};

fn at(secs: u64) -> Instant {
    Instant { nanos: (1000 + secs) * NANOS_PER_SEC }
}

fn make_config(cidr: &str) -> ServerConfig {
    let net = Subnet::parse(cidr).unwrap();
    ServerConfig {
        server_ip: net.addr,
        subnet_mask: net.netmask(),
        server_mac: MacAddr::new(0, 0, 0, 0, 0, 1),
        net,
    }
}

fn is_host(net: Subnet, ip: Ipv4Addr) -> bool {
    let outside = ipnet::Ipv4Net::new(net.addr.bits.into(), net.prefix_len).unwrap();
    let found = outside.hosts().any(|h| u32::from(h) == ip.bits);
    found
}

#[test]
fn test_get_or_allocate_ip_basic() {
    let net = Subnet::parse("192.168.1.1/24").unwrap();
    let server_ip = net.addr;
    let mut leases = LeaseTable::new();
    let client1 = MacAddr::new(1, 2, 3, 4, 5, 6);

    // 1. First allocation
    let ip1 = get_or_allocate_ip(client1, &mut leases, net, server_ip, at(0));
    assert!(ip1.is_some());
    let ip1 = ip1.unwrap();
    assert_ne!(ip1, server_ip);
    assert!(is_host(net, ip1));

    // 2. Subsequent allocation for same client should return same IP
    let ip2 = get_or_allocate_ip(client1, &mut leases, net, server_ip, at(1));
    assert_eq!(ip2, Some(ip1));
    assert_eq!(leases.len(), 1);

    // 3. Different client should get a different IP
    let client2 = MacAddr::new(1, 2, 3, 4, 5, 7);
    let ip3 = get_or_allocate_ip(client2, &mut leases, net, server_ip, at(2));
    assert!(ip3.is_some());
    let ip3 = ip3.unwrap();
    assert_ne!(ip3, ip1);
    assert_ne!(ip3, server_ip);
}

#[test]
fn test_get_or_allocate_ip_exhaustion() {
    // A /30 subnet has 4 IPs: .0 (net), .1 (host), .2 (host), .3 (broadcast)
    // Usable hosts: .1, .2
    // If server_ip is .1, then only .2 is available!
    let net = Subnet::parse("192.168.1.1/30").unwrap();
    let server_ip = net.addr;
    let mut leases = LeaseTable::new();

    let client1 = MacAddr::new(1, 2, 3, 4, 5, 6);
    let ip1 = get_or_allocate_ip(client1, &mut leases, net, server_ip, at(0));
    assert_eq!(ip1, Some(Ipv4Addr::new(192, 168, 1, 2)));

    // Try to allocate for a second client — pool is exhausted
    let client2 = MacAddr::new(1, 2, 3, 4, 5, 7);
    let ip2 = get_or_allocate_ip(client2, &mut leases, net, server_ip, at(0));
    assert_eq!(ip2, None);
}

#[test]
fn test_handle_decline_and_release() {
    let net = Subnet::parse("192.168.1.1/24").unwrap();
    let server_ip = net.addr;
    let mut leases = LeaseTable::new();
    let client = MacAddr::new(1, 2, 3, 4, 5, 6);

    let ip = get_or_allocate_ip(client, &mut leases, net, server_ip, at(0)).unwrap();
    assert_eq!(leases.len(), 1);

    handle_dhcp_decline(client, &mut leases);
    assert_eq!(leases.len(), 0);

    let ip2 = get_or_allocate_ip(client, &mut leases, net, server_ip, at(0)).unwrap();
    assert_eq!(ip2, ip);
    assert_eq!(leases.len(), 1);

    handle_dhcp_release(client, &mut leases);
    assert_eq!(leases.len(), 0);
}

#[test]
fn test_validate_requested_ip_rejects_server_ip() {
    let config = make_config("192.168.1.1/24");
    let leases = LeaseTable::new();
    let client = MacAddr::new(1, 2, 3, 4, 5, 6);

    assert!(!validate_requested_ip(
        config.server_ip,
        client,
        &config,
        &leases,
        at(0)
    ));
}

#[test]
fn test_validate_requested_ip_rejects_out_of_subnet() {
    let config = make_config("192.168.1.1/24");
    let leases = LeaseTable::new();
    let client = MacAddr::new(1, 2, 3, 4, 5, 6);

    assert!(!validate_requested_ip(
        Ipv4Addr::new(10, 0, 0, 5),
        client,
        &config,
        &leases,
        at(0)
    ));
}

#[test]
fn test_validate_requested_ip_rejects_conflicting_lease() {
    let config = make_config("192.168.1.1/24");
    let mut leases = LeaseTable::new();

    let client1 = MacAddr::new(1, 2, 3, 4, 5, 6);
    let client2 = MacAddr::new(1, 2, 3, 4, 5, 7);
    let contested_ip = Ipv4Addr::new(192, 168, 1, 2);

    // client1 holds a live lease on the IP
    leases.insert(
        client1,
        ClientLease {
            ip: contested_ip,
            expiry: at(0).after(LAN_LEASE_SECS as u64),
        },
    );

    // client2 should not be allowed to claim it
    assert!(!validate_requested_ip(
        contested_ip,
        client2,
        &config,
        &leases,
        at(0)
    ));

    // but client1 renewing its own lease is allowed
    assert!(validate_requested_ip(
        contested_ip,
        client1,
        &config,
        &leases,
        at(0)
    ));
}

#[test]
fn test_validate_requested_ip_accepts_valid() {
    let config = make_config("192.168.1.1/24");
    let leases = LeaseTable::new();
    let client = MacAddr::new(1, 2, 3, 4, 5, 6);

    assert!(validate_requested_ip(
        Ipv4Addr::new(192, 168, 1, 100),
        client,
        &config,
        &leases,
        at(0)
    ));
}

const CLIENT: MacAddr = MacAddr(2, 0, 0, 0, 0, 9);
const OTHER: MacAddr = MacAddr(2, 0, 0, 0, 0, 10);

fn message(mac: MacAddr, kind: MessageType) -> Message {
    let mut m = Message::default();
    m.set_opcode(Opcode::BootRequest);
    m.set_xid(0x12345678);
    m.set_chaddr(&mac.octets());
    m.opts_mut().insert(DhcpOption::MessageType(kind));
    m
}

fn request(mac: MacAddr, ip: Ipv4Addr) -> Message {
    let mut m = message(mac, MessageType::Request);
    m.opts_mut().insert(DhcpOption::RequestedIpAddress(ip.bits.into()));
    m
}

fn frame_from(mac: MacAddr, payload: &[u8]) -> Vec<u8> {
    build_raw_packet(
        mac,
        MacAddr::broadcast(),
        Ipv4Addr::unspecified(),
        Ipv4Addr::broadcast(),
        68,
        67,
        payload,
    )
}

fn frame(mac: MacAddr, m: &Message) -> Vec<u8> {
    frame_from(mac, &m.to_vec().unwrap())
}

fn reply_message(reply: &[u8]) -> Message {
    let payload = udp_payload(reply, 68).unwrap();
    Message::decode(&mut Decoder::new(&payload)).unwrap()
}

fn kind_of(m: &Message) -> MessageType {
    m.opts().msg_type().unwrap()
}

#[test]
fn plan_of_the_inner_network() {
    let plan = start_dhcp_server("192.168.1.1/24").unwrap();
    assert_eq!(plan.server_ip, Ipv4Addr::new(192, 168, 1, 1));
    assert_eq!(plan.subnet_mask, Ipv4Addr::new(255, 255, 255, 0));
    assert_eq!(plan.start_ip, Ipv4Addr::new(192, 168, 1, 1));
    assert_eq!(plan.end_ip, Ipv4Addr::new(192, 168, 1, 254));
    assert_eq!(plan.net, Subnet::parse("192.168.1.1/24").unwrap());
    assert_eq!(server_plan(plan.net), plan);
    assert_eq!(start_dhcp_server("nonsense"), Err(ServerStartError::InvalidLanIp));
    assert_eq!(start_dhcp_server("255.255.255.255/32"), Err(ServerStartError::NoPool));
    assert_eq!(start_dhcp_server("0.0.0.0/32"), Err(ServerStartError::NoPool));
    let wide = start_dhcp_server("10.1.2.3/0").unwrap();
    assert_eq!(wide.start_ip, Ipv4Addr::new(0, 0, 0, 1));
    assert_eq!(wide.end_ip, Ipv4Addr::new(255, 255, 255, 254));
}

#[test]
fn discover_is_answered_with_an_offer() {
    let config = make_config("192.168.1.1/24");
    let mut leases = LeaseTable::new();
    let reply =
        process_incoming_packet(&frame(CLIENT, &message(CLIENT, MessageType::Discover)), &config, &mut leases, at(0))
            .unwrap();
    // unicast: to the client, from the server
    assert_eq!(&reply[..6], &CLIENT.octets());
    assert_eq!(&reply[6..12], &config.server_mac.octets());
    assert_eq!(&reply[26..34], &[192, 168, 1, 1, 192, 168, 1, 2]);
    let offer = reply_message(&reply);
    assert_eq!(offer.opcode(), Opcode::BootReply);
    assert_eq!(offer.xid(), 0x12345678);
    assert_eq!(offer.chaddr(), &CLIENT.octets());
    assert_eq!(u32::from(offer.yiaddr()), 0xc0a80102);
    assert_eq!(u32::from(offer.siaddr()), 0xc0a80101);
    assert_eq!(u32::from(offer.giaddr()), 0);
    assert_eq!(kind_of(&offer), MessageType::Offer);
    let server = 0xc0a80101u32.into();
    assert_eq!(
        offer.opts().get(OptionCode::ServerIdentifier),
        Some(&DhcpOption::ServerIdentifier(server))
    );
    assert_eq!(
        offer.opts().get(OptionCode::SubnetMask),
        Some(&DhcpOption::SubnetMask(0xffffff00u32.into()))
    );
    assert_eq!(offer.opts().get(OptionCode::Router), Some(&DhcpOption::Router(vec![server])));
    assert_eq!(
        offer.opts().get(OptionCode::DomainNameServer),
        Some(&DhcpOption::DomainNameServer(vec![server]))
    );
    assert_eq!(
        offer.opts().get(OptionCode::AddressLeaseTime),
        Some(&DhcpOption::AddressLeaseTime(3600))
    );
    assert_eq!(offer.opts().len(), 6);
    assert_eq!(leases.get(CLIENT), Some(ClientLease { ip: Ipv4Addr { bits: 0xc0a80102 }, expiry: at(3600) }));
}

#[test]
fn offer_octets() {
    let config = make_config("192.168.1.1/24");
    let mut leases = LeaseTable::new();
    let reply =
        process_incoming_packet(&frame(CLIENT, &message(CLIENT, MessageType::Discover)), &config, &mut leases, at(0))
            .unwrap();
    let payload = udp_payload(&reply, 68).unwrap();
    assert_eq!(&payload[..12], &[2, 1, 6, 0, 0x12, 0x34, 0x56, 0x78, 0, 0, 0, 0]);
    assert_eq!(&payload[12..28], &[0, 0, 0, 0, 192, 168, 1, 2, 192, 168, 1, 1, 0, 0, 0, 0]);
    assert_eq!(&payload[28..44], &[2, 0, 0, 0, 0, 9, 0, 0, 0, 0, 0, 0, 0, 0, 0, 0]);
    assert!(payload[44..236].iter().all(|b| *b == 0));
    assert_eq!(&payload[236..240], &[99, 130, 83, 99]);
    assert_eq!(
        &payload[240..],
        &[
            1, 4, 255, 255, 255, 0, 3, 4, 192, 168, 1, 1, 6, 4, 192, 168, 1, 1, 51, 4, 0, 0, 14, 16, 53, 1,
            2, 54, 4, 192, 168, 1, 1, 255,
        ]
    );
}

#[test]
fn broadcast_flag_is_honoured_and_repeated() {
    let config = make_config("192.168.1.1/24");
    let mut leases = LeaseTable::new();
    let mut m = message(CLIENT, MessageType::Discover);
    m.set_flags(Flags::default().set_broadcast());
    let reply = process_incoming_packet(&frame(CLIENT, &m), &config, &mut leases, at(0)).unwrap();
    assert_eq!(&reply[..6], &[255; 6]);
    assert_eq!(&reply[30..34], &[255; 4]);
    assert!(reply_message(&reply).flags().broadcast());
}

#[test]
fn request_is_acknowledged_and_leased() {
    let config = make_config("192.168.1.1/24");
    let mut leases = LeaseTable::new();
    let ip = Ipv4Addr::new(192, 168, 1, 50);
    let reply = process_incoming_packet(&frame(CLIENT, &request(CLIENT, ip)), &config, &mut leases, at(5)).unwrap();
    let ack = reply_message(&reply);
    assert_eq!(kind_of(&ack), MessageType::Ack);
    assert_eq!(u32::from(ack.yiaddr()), ip.bits);
    assert_eq!(leases.get(CLIENT), Some(ClientLease { ip, expiry: at(3605) }));
}

#[test]
fn request_without_address_is_about_the_lease() {
    let config = make_config("192.168.1.1/24");
    let mut leases = LeaseTable::new();
    let renew = message(CLIENT, MessageType::Request);
    assert_eq!(process_incoming_packet(&frame(CLIENT, &renew), &config, &mut leases, at(0)), None);
    let ip = Ipv4Addr::new(192, 168, 1, 60);
    leases.insert(CLIENT, ClientLease { ip, expiry: at(10) });
    let reply = process_incoming_packet(&frame(CLIENT, &renew), &config, &mut leases, at(5)).unwrap();
    assert_eq!(kind_of(&reply_message(&reply)), MessageType::Ack);
    assert_eq!(leases.get(CLIENT), Some(ClientLease { ip, expiry: at(3605) }));
}

#[test]
fn held_address_is_refused() {
    let config = make_config("192.168.1.1/24");
    let mut leases = LeaseTable::new();
    let ip = Ipv4Addr::new(192, 168, 1, 50);
    leases.insert(OTHER, ClientLease { ip, expiry: at(10) });
    let reply = process_incoming_packet(&frame(CLIENT, &request(CLIENT, ip)), &config, &mut leases, at(9)).unwrap();
    // to the client's hardware, but to all at the network level
    assert_eq!(&reply[..6], &CLIENT.octets());
    assert_eq!(&reply[30..34], &[255; 4]);
    let nak = reply_message(&reply);
    assert_eq!(kind_of(&nak), MessageType::Nak);
    assert_eq!(nak.xid(), 0x12345678);
    assert_eq!(u32::from(nak.yiaddr()), 0);
    assert_eq!(u32::from(nak.siaddr()), 0);
    assert_eq!(nak.opts().len(), 2);
    assert_eq!(
        nak.opts().get(OptionCode::ServerIdentifier),
        Some(&DhcpOption::ServerIdentifier(0xc0a80101u32.into()))
    );
    assert_eq!(leases.get(CLIENT), None);
    // once the lease of the other has run out, the address can be had
    let reply = process_incoming_packet(&frame(CLIENT, &request(CLIENT, ip)), &config, &mut leases, at(10)).unwrap();
    assert_eq!(kind_of(&reply_message(&reply)), MessageType::Ack);
}

#[test]
fn address_of_server_and_foreign_address_are_refused() {
    let config = make_config("192.168.1.1/24");
    let mut leases = LeaseTable::new();
    for ip in [Ipv4Addr::new(192, 168, 1, 1), Ipv4Addr::new(192, 168, 2, 1)] {
        let reply = process_incoming_packet(&frame(CLIENT, &request(CLIENT, ip)), &config, &mut leases, at(0)).unwrap();
        assert_eq!(kind_of(&reply_message(&reply)), MessageType::Nak);
    }
    assert_eq!(leases.len(), 0);
}

#[test]
fn decline_and_release_take_the_lease() {
    let config = make_config("192.168.1.1/24");
    for kind in [MessageType::Decline, MessageType::Release] {
        let mut leases = LeaseTable::new();
        leases.insert(CLIENT, ClientLease { ip: Ipv4Addr::new(192, 168, 1, 50), expiry: at(10) });
        leases.insert(OTHER, ClientLease { ip: Ipv4Addr::new(192, 168, 1, 51), expiry: at(10) });
        assert_eq!(process_incoming_packet(&frame(CLIENT, &message(CLIENT, kind)), &config, &mut leases, at(0)), None);
        assert_eq!(leases.get(CLIENT), None);
        assert_eq!(leases.len(), 1);
    }
}

#[test]
fn known_client_is_offered_its_address_even_after_the_lease() {
    let config = make_config("192.168.1.1/24");
    let mut leases = LeaseTable::new();
    let lease = ClientLease { ip: Ipv4Addr::new(192, 168, 1, 77), expiry: at(10) };
    leases.insert(CLIENT, lease);
    let reply =
        process_incoming_packet(&frame(CLIENT, &message(CLIENT, MessageType::Discover)), &config, &mut leases, at(500))
            .unwrap();
    assert_eq!(u32::from(reply_message(&reply).yiaddr()), lease.ip.bits);
    assert_eq!(leases.get(CLIENT), Some(lease));
}

#[test]
fn exhausted_pool_is_answered_with_silence() {
    let config = make_config("192.168.1.1/30");
    let mut leases = LeaseTable::new();
    assert!(process_incoming_packet(&frame(CLIENT, &message(CLIENT, MessageType::Discover)), &config, &mut leases, at(0)).is_some());
    assert!(process_incoming_packet(&frame(OTHER, &message(OTHER, MessageType::Discover)), &config, &mut leases, at(0)).is_none());
    // the first lease has run out
    assert!(process_incoming_packet(&frame(OTHER, &message(OTHER, MessageType::Discover)), &config, &mut leases, at(3600)).is_some());
}

#[test]
fn spoofed_frame_is_dropped_unless_relayed() {
    let config = make_config("192.168.1.1/24");
    let mut leases = LeaseTable::new();
    let mut m = message(CLIENT, MessageType::Discover);
    assert_eq!(process_incoming_packet(&frame(OTHER, &m), &config, &mut leases, at(0)), None);
    assert_eq!(leases.len(), 0);
    m.set_giaddr(0x0a000001u32);
    assert!(process_incoming_packet(&frame(OTHER, &m), &config, &mut leases, at(0)).is_some());
    assert_eq!(leases.len(), 1);
}

#[test]
fn other_messages_have_no_effect() {
    let config = make_config("192.168.1.1/24");
    let mut leases = LeaseTable::new();
    let mut reply = message(CLIENT, MessageType::Discover);
    reply.set_opcode(Opcode::BootReply);
    assert_eq!(process_incoming_packet(&frame(CLIENT, &reply), &config, &mut leases, at(0)), None);
    let inform = message(CLIENT, MessageType::Inform);
    assert_eq!(process_incoming_packet(&frame(CLIENT, &inform), &config, &mut leases, at(0)), None);
    let mut short = message(CLIENT, MessageType::Discover);
    short.set_chaddr(&[1, 2, 3]);
    assert_eq!(process_incoming_packet(&frame(CLIENT, &short), &config, &mut leases, at(0)), None);
    let mut silent = message(CLIENT, MessageType::Discover);
    silent.opts_mut().remove(OptionCode::MessageType);
    assert_eq!(process_incoming_packet(&frame(CLIENT, &silent), &config, &mut leases, at(0)), None);
    assert_eq!(process_incoming_packet(&frame_from(CLIENT, &[1; 239]), &config, &mut leases, at(0)), None);
    assert_eq!(process_incoming_packet(b"junk", &config, &mut leases, at(0)), None);
    assert_eq!(leases.len(), 0);
}

#[test]
fn oversized_hardware_address_is_noticed() {
    let mut payload = message(CLIENT, MessageType::Discover).to_vec().unwrap();
    assert!(!has_oversized_address(&frame_from(CLIENT, &payload)));
    payload[2] = 16;
    assert!(!has_oversized_address(&frame_from(CLIENT, &payload)));
    payload[2] = 17;
    assert!(has_oversized_address(&frame_from(CLIENT, &payload)));
    let mut leases = LeaseTable::new();
    let config = make_config("192.168.1.1/24");
    assert_eq!(answer_frame(&frame_from(CLIENT, &payload), &config, &mut leases, at(0)), None);
    payload[0] = 2;
    assert!(!has_oversized_address(&frame_from(CLIENT, &payload)));
}

/// A search for a server with these octets in place of the end of its options.
fn search_with(tail: &[u8]) -> Vec<u8> {
    let mut payload = message(CLIENT, MessageType::Discover).to_vec().unwrap();
    assert_eq!(payload.pop(), Some(255));
    payload.extend_from_slice(tail);
    payload
}

#[test]
fn options_of_a_wrong_length_are_noticed() {
    let bad: [&[u8]; 9] = [
        &[80, 1, 0, 255],
        &[81, 2, 0, 0, 255],
        &[81, 0],
        &[94, 2, 1, 2, 255],
        &[94, 2, 1, 2, 94, 2, 3, 4, 255],
        &[152, 3, 0, 0, 0],
        &[155, 5, 0, 0, 0, 0, 0, 0],
        &[0, 0, 153, 0, 0],
        &[12, 1, 65, 154, 4, 0, 0, 0, 0, 154, 1, 0],
    ];
    for tail in bad {
        assert!(!is_readable(&search_with(tail)), "{:?}", tail);
        assert!(!has_readable_options(&frame_from(CLIENT, &search_with(tail)), 67));
        assert!(has_readable_options(&frame_from(CLIENT, &search_with(tail)), 68));
        assert!(try_parse_dhcp_payload(&frame_from(CLIENT, &search_with(tail)), 67).is_none());
        let mut leases = LeaseTable::new();
        let config = make_config("192.168.1.1/24");
        let frame = frame_from(CLIENT, &search_with(tail));
        assert_eq!(answer_frame(&frame, &config, &mut leases, at(0)), None);
        assert_eq!(leases.len(), 0);
    }
    let good: [&[u8]; 13] = [
        &[255],
        &[],
        &[80, 0, 255],
        &[81, 3, 0, 0, 0],
        &[94, 1, 1, 94, 2, 2, 3, 255],
        &[152, 4, 0, 0, 0, 0, 155, 4, 0, 0, 0, 0, 255],
        &[156, 9, 0, 0, 0, 0, 0, 0, 0, 0, 0, 255],
        &[255, 80, 1, 0],
        &[80, 9, 0],
        &[80],
        // The reading stops at a mask of three octets, a name that is no text and a
        // domain name that is cut off.
        &[1, 3, 0, 0, 0, 80, 1, 0, 255],
        &[12, 2, 65, 255, 94, 1, 0, 255],
        &[81, 4, 0, 0, 0, 7, 80, 1, 0, 255],
    ];
    let config = make_config("192.168.1.1/24");
    for tail in good {
        let payload = search_with(tail);
        assert!(is_readable(&payload), "{:?}", tail);
        let mut leases = LeaseTable::new();
        assert!(try_parse_dhcp_payload(&frame_from(CLIENT, &payload), 67).is_some());
        let reply = answer_frame(&frame_from(CLIENT, &payload), &config, &mut leases, at(0));
        let answer = udp_payload(&reply.unwrap(), 68).unwrap();
        assert!(is_readable(&answer));
    }
    assert!(is_readable(&[80; 239]));
    assert!(has_readable_options(b"junk", 67));
}

#[test]
fn destination_of_replies() {
    let ip = Ipv4Addr::new(192, 168, 1, 9);
    assert_eq!(get_dest_mac_ip(false, CLIENT, ip), (CLIENT, ip));
    assert_eq!(get_dest_mac_ip(true, CLIENT, ip), (MacAddr::broadcast(), Ipv4Addr::broadcast()));
}

#[test]
fn message_in_a_frame() {
    let m = message(CLIENT, MessageType::Discover);
    let read = parse_dhcp_payload(&frame(CLIENT, &m), 67).unwrap();
    assert_eq!(read.opcode, 1);
    assert_eq!(read.hlen, 6);
    assert_eq!(read.xid, 0x12345678);
    assert_eq!(read.flags, 0);
    assert_eq!(read.yiaddr, Ipv4Addr::unspecified());
    assert_eq!(read.giaddr, Ipv4Addr::unspecified());
    assert!(parse_dhcp_payload(&frame(CLIENT, &m), 68).is_none());
}

#[test]
fn no_two_clients_hold_one_address() {
    let config = make_config("192.168.1.1/28");
    let mut leases = LeaseTable::new();
    let mut seen = Vec::new();
    for n in 0..20u8 {
        let mac = MacAddr::new(2, 0, 0, 0, 1, n);
        if let Some(reply) =
            process_incoming_packet(&frame(mac, &message(mac, MessageType::Discover)), &config, &mut leases, at(n as u64))
        {
            let ip = u32::from(reply_message(&reply).yiaddr());
            assert!(!seen.contains(&ip));
            seen.push(ip);
        }
    }
    assert_eq!(seen.len(), 13);
}

#[test]
fn acknowledged_address_is_held_for_an_hour() {
    let config = make_config("192.168.1.1/24");
    let mut leases = LeaseTable::new();
    let ip = Ipv4Addr::new(192, 168, 1, 50);
    process_incoming_packet(&frame(CLIENT, &request(CLIENT, ip)), &config, &mut leases, at(0)).unwrap();
    assert!(!validate_requested_ip(ip, OTHER, &config, &leases, at(3599)));
    assert!(validate_requested_ip(ip, OTHER, &config, &leases, at(3600)));
    assert!(validate_requested_ip(ip, CLIENT, &config, &leases, at(10)));
}

#[test]
fn hosts_of_the_smallest_networks() {
    let mut leases = LeaseTable::new();
    let pair = Subnet::parse("10.0.0.0/31").unwrap();
    assert_eq!(get_or_allocate_ip(CLIENT, &mut leases, pair, pair.addr, at(0)), Some(Ipv4Addr::new(10, 0, 0, 1)));
    let mut leases = LeaseTable::new();
    let single = Subnet::parse("10.0.0.0/32").unwrap();
    assert_eq!(get_or_allocate_ip(CLIENT, &mut leases, single, single.addr, at(0)), None);
    assert_eq!(
        get_or_allocate_ip(CLIENT, &mut leases, single, Ipv4Addr::unspecified(), at(0)),
        Some(Ipv4Addr::new(10, 0, 0, 0))
    );
}
