use pnet::packet::ethernet::{EtherTypes, MutableEthernetPacket};
use pnet::packet::ip::IpNextHeaderProtocols;
use pnet::packet::ipv4::MutableIpv4Packet;
use pnet::packet::udp::MutableUdpPacket;
use pnet::packet::MutablePacket;
use rustyrouter::addr::{Ipv4Addr, MacAddr};
use rustyrouter::packet::{build_raw_packet, udp_payload};

fn sample(payload: &[u8]) -> Vec<u8> {
    build_raw_packet(
        MacAddr::new(2, 0, 0, 0, 0, 1),
        MacAddr::new(2, 0, 0, 0, 0, 2),
        Ipv4Addr::new(192, 168, 1, 1),
        Ipv4Addr::new(192, 168, 1, 77),
        67,
        68,
        payload,
    )
}

fn by_setters(payload: &[u8]) -> Vec<u8> {
    let mut buf = vec![0u8; 42 + payload.len()];
    let mut eth = MutableEthernetPacket::new(&mut buf).unwrap();
    eth.set_destination(pnet::util::MacAddr(2, 0, 0, 0, 0, 2));
    eth.set_source(pnet::util::MacAddr(2, 0, 0, 0, 0, 1));
    eth.set_ethertype(EtherTypes::Ipv4);
    let mut ip = MutableIpv4Packet::new(eth.payload_mut()).unwrap();
    ip.set_version(4);
    ip.set_header_length(5);
    ip.set_total_length((28 + payload.len()) as u16);
    ip.set_ttl(64);
    ip.set_next_level_protocol(IpNextHeaderProtocols::Udp);
    ip.set_source(0xc0a80101u32.into());
    ip.set_destination(0xc0a8014du32.into());
    let mut udp = MutableUdpPacket::new(ip.payload_mut()).unwrap();
    udp.set_source(67);
    udp.set_destination(68);
    udp.set_length((8 + payload.len()) as u16);
    udp.set_payload(payload);
    let checksum = pnet::packet::ipv4::checksum(&ip.to_immutable());
    ip.set_checksum(checksum);
    buf
}

#[test]
fn frame_is_what_the_setters_write() {
    for payload in [&b""[..], &b"x"[..], &b"some payload"[..], &[0xab; 1000][..]] {
        assert_eq!(sample(payload), by_setters(payload));
    }
}

#[test]
fn longest_payload() {
    let payload = vec![1u8; 65507];
    let frame = sample(&payload);
    assert_eq!(frame.len(), 65549);
    assert_eq!(frame, by_setters(&payload));
    assert_eq!(udp_payload(&frame, 68), Some(payload));
}

#[test]
fn exact_header() {
    let frame = sample(b"hi");
    assert_eq!(
        frame,
        vec![
            2, 0, 0, 0, 0, 2, 2, 0, 0, 0, 0, 1, 8, 0, 0x45, 0, 0, 30, 0, 0, 0, 0, 64, 17, 0xf7, 0x30,
            192, 168, 1, 1, 192, 168, 1, 77, 0, 67, 0, 68, 0, 10, 0, 0, b'h', b'i',
        ]
    );
}

#[test]
fn header_checksum_verifies() {
    let frame = sample(b"hi");
    let mut sum: u32 = 0;
    for word in frame[14..34].chunks(2) {
        sum += u16::from_be_bytes([word[0], word[1]]) as u32;
    }
    while sum > 0xffff {
        sum = (sum >> 16) + (sum & 0xffff);
    }
    assert_eq!(sum, 0xffff);
}

#[test]
fn built_frame_reads_back_at_its_port_only() {
    let frame = sample(b"hello");
    assert_eq!(udp_payload(&frame, 68), Some(b"hello".to_vec()));
    assert_eq!(udp_payload(&frame, 67), None);
}

#[test]
fn other_frames_are_not_read() {
    let frame = sample(b"hello");
    assert_eq!(udp_payload(&[], 68), None);
    assert_eq!(udp_payload(&frame[..13], 68), None);
    assert_eq!(udp_payload(&frame[..33], 68), None);
    assert_eq!(udp_payload(&frame[..41], 68), None);
    let mut arp = frame.clone();
    arp[13] = 6;
    assert_eq!(udp_payload(&arp, 68), None);
    let mut tcp = frame.clone();
    tcp[23] = 6;
    assert_eq!(udp_payload(&tcp, 68), None);
}

#[test]
fn padding_behind_the_packet_is_left_out() {
    let mut frame = sample(b"hello");
    frame.extend_from_slice(&[0; 20]);
    assert_eq!(udp_payload(&frame, 68), Some(b"hello".to_vec()));
}

#[test]
fn header_options_are_passed_over() {
    let plain = sample(b"hello");
    let mut frame = plain[..34].to_vec();
    frame.extend_from_slice(&[1, 1, 1, 1]);
    frame.extend_from_slice(&plain[34..]);
    frame[14] = 0x46;
    frame[17] += 4;
    assert_eq!(udp_payload(&frame, 68), Some(b"hello".to_vec()));
}

#[test]
fn short_total_length_cuts_the_payload() {
    let mut frame = sample(b"hello");
    frame[17] -= 2;
    assert_eq!(udp_payload(&frame, 68), Some(b"hel".to_vec()));
}
