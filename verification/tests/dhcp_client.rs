use dhcproto::v4::{DhcpOption, Message, MessageType, Opcode, OptionCode};
use dhcproto::{Decodable, Decoder, Encodable};
use rustyrouter::addr::{Ipv4Addr, MacAddr};
use rustyrouter::packet::{build_raw_packet, udp_payload};
use rustyrouter::services::dhcp_client::{
    build_message_frame, calculate_next_delay, configure_wan, deconfigure_wan, discovering, handle_incoming_packet,
    handle_state_tick, jittered, prefix_length, receive_with_xid, send_discover, send_request,
    start_discovering, take_frame, take_message, tick_with_xid, ClientState, TickAction, WanSetup, WanStep, MAX_JITTER_NANOS,
};
use rustyrouter::services::dhcp_server::{process_incoming_packet, LeaseTable, ServerConfig};
use rustyrouter::services::WanLease;
use rustyrouter::subnet::Subnet;
use rustyrouter::time::{Instant, NANOS_PER_SEC};

const MAC: MacAddr = MacAddr(2, 0, 0, 0, 0, 9);
const XID: u32 = 0xcafe0001;

fn at(secs: u64) -> Instant {
    Instant { nanos: (1000 + secs) * NANOS_PER_SEC }
}

fn ip(d: u8) -> Ipv4Addr {
    Ipv4Addr::new(10, 0, 0, d)
}

fn decode(payload: &[u8]) -> Message {
    Message::decode(&mut Decoder::new(payload)).unwrap()
}

fn reply(kind: MessageType, xid: u32) -> Message {
    let mut m = Message::default();
    m.set_opcode(Opcode::BootReply);
    m.set_xid(xid);
    m.set_yiaddr(ip(7).bits);
    m.opts_mut().insert(DhcpOption::MessageType(kind));
    m
}

fn full_ack(xid: u32) -> Message {
    let mut m = reply(MessageType::Ack, xid);
    m.opts_mut().insert(DhcpOption::SubnetMask(0xfffffe00u32.into()));
    m.opts_mut().insert(DhcpOption::Router(vec![ip(1).bits.into(), ip(2).bits.into()]));
    m.opts_mut().insert(DhcpOption::DomainNameServer(vec![ip(3).bits.into(), ip(4).bits.into()]));
    m.opts_mut().insert(DhcpOption::AddressLeaseTime(800));
    m.opts_mut().insert(DhcpOption::ServerIdentifier(ip(5).bits.into()));
    m
}

fn bound(lease_secs: u32, renew_sent: Option<Instant>) -> ClientState {
    ClientState::Bound {
        ip: ip(7),
        mask: Ipv4Addr::new(255, 255, 254, 0),
        gateway: Some(ip(1)),
        server_ip: Some(ip(5)),
        lease_secs,
        bound_at: at(0),
        renew_sent,
        renew_xid: 77,
    }
}

fn send(action: TickAction) -> (Message, Ipv4Addr) {
    match action {
        TickAction::Send { payload, dest } => (decode(&payload), dest),
        _ => panic!("expected something to send"),
    }
}

#[test]
fn delays_double_up_to_a_bound() {
    let mut delay = 4;
    let mut seen = Vec::new();
    for _ in 0..6 {
        seen.push(delay);
        delay = calculate_next_delay(delay);
    }
    assert_eq!(seen, vec![4, 8, 16, 32, 64, 64]);
    assert_eq!(calculate_next_delay(33), 64);
    assert_eq!(calculate_next_delay(1000), 64);
    assert_eq!(calculate_next_delay(0), 0);
}

#[test]
fn prefix_lengths() {
    assert_eq!(prefix_length(Ipv4Addr::new(255, 255, 255, 0)), 24);
    assert_eq!(prefix_length(Ipv4Addr::unspecified()), 0);
    assert_eq!(prefix_length(Ipv4Addr::broadcast()), 32);
    assert_eq!(prefix_length(Ipv4Addr::new(255, 0, 255, 1)), 17);
}

#[test]
fn search_message() {
    let payload = send_discover(MAC, XID);
    let m = decode(&payload);
    assert_eq!(m.opcode(), Opcode::BootRequest);
    assert_eq!(m.xid(), XID);
    assert!(m.flags().broadcast());
    assert_eq!(m.chaddr(), &MAC.octets());
    assert_eq!(m.opts().msg_type(), Some(MessageType::Discover));
    assert_eq!(
        m.opts().get(OptionCode::ParameterRequestList),
        Some(&DhcpOption::ParameterRequestList(vec![
            OptionCode::SubnetMask,
            OptionCode::Router,
            OptionCode::DomainNameServer,
        ]))
    );
    assert_eq!(m.opts().len(), 2);
    assert_eq!(&payload[240..], &[53, 1, 1, 55, 3, 1, 3, 6, 255]);
}

#[test]
fn request_messages() {
    let first = decode(&send_request(MAC, XID, ip(7), Some(ip(5)), Ipv4Addr::unspecified()));
    assert!(first.flags().broadcast());
    assert_eq!(u32::from(first.ciaddr()), 0);
    assert_eq!(first.opts().msg_type(), Some(MessageType::Request));
    assert_eq!(
        first.opts().get(OptionCode::RequestedIpAddress),
        Some(&DhcpOption::RequestedIpAddress(ip(7).bits.into()))
    );
    assert_eq!(
        first.opts().get(OptionCode::ServerIdentifier),
        Some(&DhcpOption::ServerIdentifier(ip(5).bits.into()))
    );

    let unnamed = decode(&send_request(MAC, XID, ip(7), None, Ipv4Addr::unspecified()));
    assert_eq!(unnamed.opts().get(OptionCode::ServerIdentifier), None);
    assert_eq!(unnamed.opts().len(), 2);

    let renewal = decode(&send_request(MAC, XID, ip(7), Some(ip(5)), ip(7)));
    assert!(!renewal.flags().broadcast());
    assert_eq!(u32::from(renewal.ciaddr()), ip(7).bits);
    assert_eq!(renewal.opts().len(), 1);
}

#[test]
fn search_starts_at_once_and_slows_down() {
    let mut state = discovering(XID, at(0));
    let mut lease = WanLease::default();
    let threshold = 4 * NANOS_PER_SEC;
    assert_eq!(state.retry_delay_secs(), Some(4));
    let (m, dest) = send(tick_with_xid(&mut state, &mut lease, MAC, at(0), threshold, 1));
    assert_eq!(m.opts().msg_type(), Some(MessageType::Discover));
    assert_eq!(dest, Ipv4Addr::broadcast());
    assert_eq!(
        state,
        ClientState::Discovering { xid: XID, last_sent: at(0), retry_delay_secs: 8 }
    );
    assert!(matches!(
        tick_with_xid(&mut state, &mut lease, MAC, at(7), 8 * NANOS_PER_SEC, 1),
        TickAction::Nothing
    ));
    send(tick_with_xid(&mut state, &mut lease, MAC, at(8), 8 * NANOS_PER_SEC, 1));
    assert_eq!(state.retry_delay_secs(), Some(16));
}

#[test]
fn offer_is_taken_up_at_once() {
    let mut state = discovering(XID, at(0));
    let mut lease = WanLease::default();
    let mut offer = reply(MessageType::Offer, XID);
    offer.opts_mut().insert(DhcpOption::ServerIdentifier(ip(5).bits.into()));
    assert_eq!(receive_with_xid(&offer.to_vec().unwrap(), &mut state, &mut lease, at(3), 1), None);
    assert_eq!(
        state,
        ClientState::Requesting {
            xid: XID,
            offered_ip: ip(7),
            server_ip: Some(ip(5)),
            last_sent: Instant { nanos: at(3).nanos - 10 * NANOS_PER_SEC },
            retry_delay_secs: 4,
        }
    );
    let (m, dest) = send(tick_with_xid(&mut state, &mut lease, MAC, at(3), 5 * NANOS_PER_SEC, 1));
    assert_eq!(m.opts().msg_type(), Some(MessageType::Request));
    assert_eq!(m.xid(), XID);
    assert_eq!(dest, Ipv4Addr::broadcast());
    assert_eq!(state.retry_delay_secs(), Some(8));
    // a second offer comes too late
    let before = state;
    receive_with_xid(&offer.to_vec().unwrap(), &mut state, &mut lease, at(4), 1);
    assert_eq!(state, before);
}

#[test]
fn acknowledgement_binds_the_client() {
    let mut state = discovering(XID, at(0));
    let mut lease = WanLease::default();
    let setup = receive_with_xid(&full_ack(XID).to_vec().unwrap(), &mut state, &mut lease, at(9), 42);
    assert_eq!(setup, Some(WanSetup { ip: ip(7), prefix_len: 23, gateway: Some(ip(1)) }));
    assert_eq!(
        state,
        ClientState::Bound {
            ip: ip(7),
            mask: Ipv4Addr::new(255, 255, 254, 0),
            gateway: Some(ip(1)),
            server_ip: Some(ip(5)),
            lease_secs: 800,
            bound_at: at(9),
            renew_sent: None,
            renew_xid: 42,
        }
    );
    assert_eq!(lease.ip, Some(ip(7)));
    assert_eq!(lease.mask, Some(Ipv4Addr::new(255, 255, 254, 0)));
    assert_eq!(lease.gateway, Some(ip(1)));
    assert_eq!(lease.dns_servers, vec![ip(3), ip(4)]);

    // a renewal that changes nothing leaves the interface alone
    assert_eq!(receive_with_xid(&full_ack(42).to_vec().unwrap(), &mut state, &mut lease, at(400), 43), None);
    assert_eq!(state.expected_xid(), 43);

    // a change of the name servers alone is a change
    let mut other = full_ack(43);
    other.opts_mut().insert(DhcpOption::DomainNameServer(vec![ip(3).bits.into()]));
    assert!(receive_with_xid(&other.to_vec().unwrap(), &mut state, &mut lease, at(500), 44).is_some());
    assert_eq!(lease.dns_servers, vec![ip(3)]);
}

#[test]
fn bare_acknowledgement_is_filled_in() {
    let mut state = discovering(XID, at(0));
    let mut lease = WanLease::default();
    let ack = reply(MessageType::Ack, XID);
    let setup = receive_with_xid(&ack.to_vec().unwrap(), &mut state, &mut lease, at(0), 42);
    assert_eq!(setup, Some(WanSetup { ip: ip(7), prefix_len: 24, gateway: None }));
    match state {
        ClientState::Bound { mask, gateway, server_ip, lease_secs, .. } => {
            assert_eq!(mask, Ipv4Addr::new(255, 255, 255, 0));
            assert_eq!(gateway, None);
            assert_eq!(server_ip, None);
            assert_eq!(lease_secs, 3600);
        }
        _ => panic!("expected a bound client"),
    }
    assert!(lease.dns_servers.is_empty());
}

#[test]
fn foreign_and_meaningless_messages_are_ignored() {
    let start = discovering(XID, at(0));
    let mut state = start;
    let mut lease = WanLease::default();
    let mut silent = reply(MessageType::Ack, XID);
    silent.opts_mut().remove(OptionCode::MessageType);
    let messages = vec![
        full_ack(XID + 1).to_vec().unwrap(),
        reply(MessageType::Nak, XID).to_vec().unwrap(),
        silent.to_vec().unwrap(),
        vec![0; 239],
        vec![],
    ];
    for m in messages {
        assert_eq!(receive_with_xid(&m, &mut state, &mut lease, at(1), 2), None);
        assert_eq!(state, start);
    }
    assert_eq!(lease.ip, None);
}

#[test]
fn lease_is_left_alone_in_its_first_half() {
    let mut lease = WanLease::default();
    let mut state = bound(800, None);
    assert!(matches!(tick_with_xid(&mut state, &mut lease, MAC, at(399), 0, 1), TickAction::Nothing));
    assert_eq!(state, bound(800, None));
    let (m, dest) = send(tick_with_xid(&mut state, &mut lease, MAC, at(400), 0, 1));
    assert_eq!(m.xid(), 77);
    assert_eq!(u32::from(m.ciaddr()), ip(7).bits);
    assert_eq!(dest, ip(5));
    assert_eq!(state, bound(800, Some(at(400))));
}

#[test]
fn renewal_is_repeated_after_half_the_time_left() {
    let mut lease = WanLease::default();
    // at 400 of 800 rebinding is 300 away: the next attempt is due when half of
    // what is left then has passed
    let mut state = bound(800, Some(at(400)));
    assert!(matches!(tick_with_xid(&mut state, &mut lease, MAC, at(499), 0, 1), TickAction::Nothing));
    let (_, dest) = send(tick_with_xid(&mut state, &mut lease, MAC, at(500), 0, 1));
    assert_eq!(dest, ip(5));
    // never more often than once a minute
    let mut state = bound(800, Some(at(650)));
    assert!(matches!(tick_with_xid(&mut state, &mut lease, MAC, at(699), 0, 1), TickAction::Nothing));
    assert!(matches!(tick_with_xid(&mut state, &mut lease, MAC, at(709), 0, 1), TickAction::Nothing));
    let (_, dest) = send(tick_with_xid(&mut state, &mut lease, MAC, at(710), 0, 1));
    assert_eq!(dest, Ipv4Addr::broadcast());
}

#[test]
fn rebinding_goes_to_all() {
    let mut lease = WanLease::default();
    let mut state = bound(800, None);
    let (_, dest) = send(tick_with_xid(&mut state, &mut lease, MAC, at(699), 0, 1));
    assert_eq!(dest, ip(5));
    let mut state = bound(800, None);
    let (_, dest) = send(tick_with_xid(&mut state, &mut lease, MAC, at(700), 0, 1));
    assert_eq!(dest, Ipv4Addr::broadcast());
    for lease_secs in [1u32, 7, 8, 9, 1000, 86400, u32::MAX] {
        assert_eq!((lease_secs as u64 * 7 / 8) as u32, (lease_secs as f64 * 0.875) as u32);
    }
}

#[test]
fn lease_that_runs_out_is_given_up() {
    let mut lease = WanLease::default();
    lease.ip = Some(ip(7));
    lease.dns_servers = vec![ip(3)];
    let mut state = bound(800, Some(at(790)));
    match tick_with_xid(&mut state, &mut lease, MAC, at(800), 0, 99) {
        TickAction::Deconfigure { ip: gone, prefix_len } => {
            assert_eq!(gone, ip(7));
            assert_eq!(prefix_len, 23);
        }
        _ => panic!("expected the address to be given up"),
    }
    assert_eq!(state, discovering(99, at(800)));
    assert_eq!(lease.ip, None);
    assert!(lease.dns_servers.is_empty());
}

#[test]
fn transactions_picked_by_chance() {
    let mut lease = WanLease::default();
    let mut state = start_discovering(at(0));
    let xid = state.expected_xid();
    assert_eq!(state, discovering(xid, at(0)));
    let (m, _) = send(handle_state_tick(&mut state, &mut lease, MAC, at(0), 0));
    assert_eq!(m.xid(), xid);
    let setup = handle_incoming_packet(&full_ack(xid).to_vec().unwrap(), &mut state, &mut lease, at(1));
    assert!(setup.is_some());
    assert!(matches!(state, ClientState::Bound { .. }));
    let picks: Vec<u32> = (0..4).map(|_| start_discovering(at(0)).expected_xid()).collect();
    assert!(picks.iter().any(|p| *p != picks[0]));
}

#[test]
fn client_and_server_agree() {
    let net = Subnet::parse("10.0.0.1/24").unwrap();
    let config = ServerConfig {
        server_ip: net.addr,
        subnet_mask: net.netmask(),
        server_mac: MacAddr::new(2, 0, 0, 0, 0, 1),
        net,
    };
    let mut leases = LeaseTable::new();
    let mut lease = WanLease::default();
    let mut state = discovering(XID, at(0));
    for step in 0..2 {
        let payload = match tick_with_xid(&mut state, &mut lease, MAC, at(step), NANOS_PER_SEC, 1) {
            TickAction::Send { payload, .. } => payload,
            _ => panic!("expected something to send"),
        };
        let frame = build_raw_packet(
            MAC,
            MacAddr::broadcast(),
            Ipv4Addr::unspecified(),
            Ipv4Addr::broadcast(),
            68,
            67,
            &payload,
        );
        let answer = process_incoming_packet(&frame, &config, &mut leases, at(step)).unwrap();
        let payload = udp_payload(&answer, 68).unwrap();
        let setup = receive_with_xid(&payload, &mut state, &mut lease, at(step), 5);
        assert_eq!(setup.is_some(), step == 1);
    }
    assert_eq!(lease.ip, Some(ip(2)));
    assert_eq!(lease.gateway, Some(ip(1)));
    assert_eq!(lease.dns_servers, vec![ip(1)]);
    assert_eq!(leases.get(MAC).unwrap().ip, ip(2));
    match state {
        ClientState::Bound { lease_secs, .. } => assert_eq!(lease_secs, 3600),
        _ => panic!("expected a bound client"),
    }
}

#[test]
fn steps_of_setting_up_the_outer_interface() {
    let setup = WanSetup { ip: ip(7), prefix_len: 24, gateway: Some(ip(1)) };
    let steps = configure_wan(setup);
    assert_eq!(
        steps,
        vec![
            WanStep::FlushAddresses,
            WanStep::LinkUp,
            WanStep::AddAddress { ip: ip(7), prefix_len: 24 },
            WanStep::AddDefaultRoute { gateway: ip(1) },
        ]
    );
    let required: Vec<bool> = steps.iter().map(|s| s.is_required()).collect();
    assert_eq!(required, vec![true, true, true, false]);
    assert_eq!(configure_wan(WanSetup { gateway: None, ..setup }).len(), 3);
}

#[test]
fn address_that_is_given_up() {
    assert!(deconfigure_wan(3, 3, &vec![ip(6), ip(7)], ip(7)));
    assert!(!deconfigure_wan(3, 3, &vec![ip(6)], ip(7)));
    assert!(!deconfigure_wan(2, 3, &vec![ip(7)], ip(7)));
    assert!(!deconfigure_wan(3, 3, &vec![], ip(7)));
}

#[test]
fn mask_gives_back_the_prefix_length() {
    for n in 0..=32u8 {
        let net = Subnet { addr: ip(1), prefix_len: n };
        assert_eq!(prefix_length(net.netmask()), n);
    }
}

#[test]
fn queries_go_to_the_leased_name_server() {
    let mut state = discovering(XID, at(0));
    let mut lease = WanLease::default();
    receive_with_xid(&full_ack(XID).to_vec().unwrap(), &mut state, &mut lease, at(0), 1);
    assert_eq!(rustyrouter::services::dns_forwarder::get_upstream_dns(&lease), ip(3));
}

#[test]
fn chance_moves_an_attempt_by_a_second_at_most() {
    assert_eq!(jittered(4, 0), 4_000_000_000);
    assert_eq!(jittered(4, -250_000_000), 3_750_000_000);
    assert_eq!(jittered(64, MAX_JITTER_NANOS), 65_000_000_000);
    assert_eq!(jittered(4, -MAX_JITTER_NANOS), 3_000_000_000);
    assert_eq!(jittered(1, -MAX_JITTER_NANOS), 1_000_000_000);
    assert_eq!(jittered(0, 1), 1_000_000_000);
    assert_eq!(jittered(u32::MAX, MAX_JITTER_NANOS), 4_294_967_296_000_000_000);
}

#[test]
fn resend_waits_out_its_delay() {
    let mut lease = WanLease::default();
    let fresh = |sent: u64| ClientState::Discovering {
        xid: XID,
        last_sent: at(sent),
        retry_delay_secs: 8,
    };
    let mut state = fresh(0);
    let early = handle_state_tick(&mut state, &mut lease, MAC, at(6), -MAX_JITTER_NANOS);
    assert!(matches!(early, TickAction::Nothing));
    assert_eq!(state, fresh(0));
    let due = handle_state_tick(&mut state, &mut lease, MAC, at(7), -MAX_JITTER_NANOS);
    assert!(matches!(due, TickAction::Send { .. }));
    let mut state = fresh(0);
    let early = handle_state_tick(&mut state, &mut lease, MAC, at(8), MAX_JITTER_NANOS);
    assert!(matches!(early, TickAction::Nothing));
    let due = handle_state_tick(&mut state, &mut lease, MAC, at(9), MAX_JITTER_NANOS);
    assert!(matches!(due, TickAction::Send { .. }));
}

#[test]
fn message_that_cannot_be_read_is_dropped() {
    let mut lease = WanLease::default();
    let mut state = discovering(XID, at(0));
    let mut payload = full_ack(XID).to_vec().unwrap();
    assert_eq!(payload.pop(), Some(255));
    payload.extend_from_slice(&[80, 1, 0, 255]);
    assert_eq!(take_message(&payload, &mut state, &mut lease, at(1)), None);
    assert_eq!(state, discovering(XID, at(0)));
    assert_eq!(lease.ip, None);
    let whole = full_ack(XID).to_vec().unwrap();
    assert!(take_message(&whole, &mut state, &mut lease, at(1)).is_some());
    assert!(matches!(state, ClientState::Bound { .. }));
}

#[test]
fn frames_of_the_client() {
    let mut lease = WanLease::default();
    let mut state = discovering(XID, at(0));
    let payload = send_discover(MAC, XID);
    let everyone = Ipv4Addr::broadcast();
    let frame = build_message_frame(&state, MAC, &payload, everyone);
    let nobody = Ipv4Addr::unspecified();
    assert_eq!(
        frame,
        build_raw_packet(MAC, MacAddr::broadcast(), nobody, everyone, 68, 67, &payload)
    );
    assert_eq!(udp_payload(&frame, 67), Some(payload));

    let ack = full_ack(XID).to_vec().unwrap();
    let server = Ipv4Addr::new(10, 0, 0, 1);
    let other = MacAddr::new(2, 0, 0, 0, 0, 9);
    let elsewhere = build_raw_packet(other, MAC, server, everyone, 67, 69, &ack);
    assert_eq!(take_frame(&elsewhere, &mut state, &mut lease, at(1)), None);
    assert_eq!(state, discovering(XID, at(0)));
    let reply = build_raw_packet(other, MAC, server, everyone, 67, 68, &ack);
    let setup = take_frame(&reply, &mut state, &mut lease, at(1)).unwrap();
    let renewal = build_message_frame(&state, MAC, b"renew", server);
    assert_eq!(
        renewal,
        build_raw_packet(MAC, MacAddr::broadcast(), setup.ip, server, 68, 67, b"renew")
    );
    assert_eq!(take_frame(b"junk", &mut state, &mut lease, at(2)), None);
}
