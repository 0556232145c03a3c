//! Ethernet frames that carry a UDP datagram over IPv4.
//!
//! A host without an address cannot talk through ordinary sockets, so the DHCP
//! server builds and reads whole frames.

use crate::addr;
use crate::addr::{Ipv4Addr, MacAddr};
use vstd::prelude::*;

verus! {

/// The Ethernet type of IPv4.
pub const ETHERTYPE_IPV4: u16 = 0x0800;

/// The IPv4 protocol number of UDP.
pub const PROTOCOL_UDP: u8 = 17;

/// The length of the three headers of a frame.
pub const HEADERS_LEN: usize = 42;

/// The longest payload whose IPv4 packet has a length that fits its field.
pub const MAX_PAYLOAD: usize = 65507;

/// `n` brought into 16 bits by adding the carries back in: the ones' complement
/// sum of the words that make up `n`.
pub open spec fn fold(n: nat) -> nat
    decreases n,
{
    if n <= 0xffff {
        n
    } else {
        fold(n / 0x1_0000 + n % 0x1_0000)
    }
}

/// The sum of the 16-bit words of an IPv4 header without options, but for its
/// checksum.
pub open spec fn header_sum(header: Seq<u8>) -> nat {
    (addr::read16(header, 0) + addr::read16(header, 2) + addr::read16(header, 4) + addr::read16(
        header,
        6,
    ) + addr::read16(header, 8) + addr::read16(header, 12) + addr::read16(header, 14)
        + addr::read16(header, 16) + addr::read16(header, 18)) as nat
}

/// The checksum that belongs into an IPv4 header without options: the ones'
/// complement of the ones' complement sum of its other words.
pub open spec fn header_checksum(header: Seq<u8>) -> u16 {
    (0xffff - fold(header_sum(header))) as u16
}

/// `pnet::packet::ipv4::checksum`, on a header of twenty octets: the ones'
/// complement of the ones' complement sum of its 16-bit words, with the
/// checksum field left out.
#[verifier::external_body]
fn ipv4_checksum(header: &[u8]) -> (r: u16)
    requires
        header@.len() == 20,
    ensures
        r == header_checksum(header@),
{
    let packet = pnet::packet::ipv4::Ipv4Packet::new(header).unwrap();
    pnet::packet::ipv4::checksum(&packet)
}

/// The Ethernet header of a frame with an IPv4 packet.
pub open spec fn ethernet_header(src: MacAddr, dest: MacAddr) -> Seq<u8> {
    dest.spec_octets() + src.spec_octets() + addr::octets16(ETHERTYPE_IPV4)
}

/// The IPv4 header of a UDP datagram, with a given checksum: no options, no
/// fragments, a time to live of 64.
pub open spec fn ipv4_header(src: Ipv4Addr, dest: Ipv4Addr, total: u16, checksum: u16) -> Seq<u8> {
    seq![0x45u8, 0] + addr::octets16(total) + seq![0u8, 0, 0, 0, 64, PROTOCOL_UDP]
        + addr::octets16(checksum) + addr::octets32(src.bits) + addr::octets32(dest.bits)
}

/// The header of a UDP datagram that carries no checksum.
pub open spec fn udp_header(src_port: u16, dest_port: u16, length: u16) -> Seq<u8> {
    addr::octets16(src_port) + addr::octets16(dest_port) + addr::octets16(length) + seq![0u8, 0]
}

/// The frame that carries `payload` in a UDP datagram.
pub open spec fn frame_of(
    src_mac: MacAddr,
    dest_mac: MacAddr,
    src_ip: Ipv4Addr,
    dest_ip: Ipv4Addr,
    src_port: u16,
    dest_port: u16,
    payload: Seq<u8>,
) -> Seq<u8> {
    let total = (28 + payload.len()) as u16;
    let checksum = header_checksum(ipv4_header(src_ip, dest_ip, total, 0));
    ethernet_header(src_mac, dest_mac) + ipv4_header(src_ip, dest_ip, total, checksum) + udp_header(
        src_port,
        dest_port,
        (8 + payload.len()) as u16,
    ) + payload
}

/// Appends a 16-bit number in network order.
fn push16(out: &mut Vec<u8>, n: u16)
    ensures
        final(out)@ == old(out)@ + addr::octets16(n),
{
    out.push((n / 0x100) as u8);
    out.push((n % 0x100) as u8);
    assert(out@ =~= old(out)@ + addr::octets16(n));
}

/// Appends an address in network order.
fn push_ip(out: &mut Vec<u8>, ip: Ipv4Addr)
    ensures
        final(out)@ == old(out)@ + addr::octets32(ip.bits),
{
    let octets = ip.octets();
    out.push(octets[0]);
    out.push(octets[1]);
    out.push(octets[2]);
    out.push(octets[3]);
    assert(out@ =~= old(out)@ + addr::octets32(ip.bits));
}

/// Appends a link-layer address.
fn push_mac(out: &mut Vec<u8>, mac: MacAddr)
    ensures
        final(out)@ == old(out)@ + mac.spec_octets(),
{
    out.push(mac.0);
    out.push(mac.1);
    out.push(mac.2);
    out.push(mac.3);
    out.push(mac.4);
    out.push(mac.5);
    assert(out@ =~= old(out)@ + mac.spec_octets());
}

/// The IPv4 header of a UDP datagram, with a given checksum.
fn make_ipv4_header(src: Ipv4Addr, dest: Ipv4Addr, total: u16, checksum: u16) -> (r: Vec<u8>)
    ensures
        r@ == ipv4_header(src, dest, total, checksum),
        r@.len() == 20,
{
    let mut out: Vec<u8> = Vec::new();
    out.push(0x45);
    out.push(0);
    assert(out@ =~= seq![0x45u8, 0]);
    push16(&mut out, total);
    let ghost before = out@;
    out.push(0);
    out.push(0);
    out.push(0);
    out.push(0);
    out.push(64);
    out.push(PROTOCOL_UDP);
    assert(out@ =~= before + seq![0u8, 0, 0, 0, 64, PROTOCOL_UDP]);
    push16(&mut out, checksum);
    push_ip(&mut out, src);
    push_ip(&mut out, dest);
    out
}

/// The frame that carries `payload` in a UDP datagram between two hosts.
pub fn build_raw_packet(
    src_mac: MacAddr,
    dest_mac: MacAddr,
    src_ip: Ipv4Addr,
    dest_ip: Ipv4Addr,
    src_port: u16,
    dest_port: u16,
    payload: &[u8],
) -> (r: Vec<u8>)
    requires
        payload@.len() <= MAX_PAYLOAD,
    ensures
        r@ == frame_of(src_mac, dest_mac, src_ip, dest_ip, src_port, dest_port, payload@),
{
    let total: u16 = 28 + payload.len() as u16;
    let length: u16 = 8 + payload.len() as u16;
    let mut out: Vec<u8> = Vec::new();
    push_mac(&mut out, dest_mac);
    push_mac(&mut out, src_mac);
    push16(&mut out, ETHERTYPE_IPV4);
    assert(out@ =~= ethernet_header(src_mac, dest_mac));
    let blank = make_ipv4_header(src_ip, dest_ip, total, 0);
    let checksum: u16 = ipv4_checksum(blank.as_slice());
    let header = make_ipv4_header(src_ip, dest_ip, total, checksum);
    out.extend_from_slice(header.as_slice());
    let ghost before = out@;
    push16(&mut out, src_port);
    push16(&mut out, dest_port);
    push16(&mut out, length);
    out.push(0);
    out.push(0);
    assert(out@ =~= before + udp_header(src_port, dest_port, length));
    out.extend_from_slice(payload);
    assert(out@ =~= frame_of(src_mac, dest_mac, src_ip, dest_ip, src_port, dest_port, payload@));
    out
}

/// What is read of an Ethernet frame.
pub struct EthernetFields {
    pub source: MacAddr,
    pub ethertype: u16,
    pub payload: Vec<u8>,
}

/// The link-layer address that `s` holds in the six octets from `at` on.
pub open spec fn read_mac(s: Seq<u8>, at: int) -> MacAddr {
    MacAddr(s[at], s[at + 1], s[at + 2], s[at + 3], s[at + 4], s[at + 5])
}

/// `pnet::packet::ethernet::EthernetPacket`: `new`, `get_source`,
/// `get_ethertype` and `payload`. A frame has fourteen octets at least; the
/// source stands behind the destination, the type behind the source, and the
/// rest is the payload.
#[verifier::external_body]
pub(crate) fn read_ethernet(frame: &[u8]) -> (r: Option<EthernetFields>)
    ensures
        r is Some <==> frame@.len() >= 14,
        r matches Some(fields) ==> {
            &&& fields.source == read_mac(frame@, 6)
            &&& fields.ethertype == addr::read16(frame@, 12)
            &&& fields.payload@ == frame@.skip(14)
        },
{
    let packet = pnet::packet::ethernet::EthernetPacket::new(frame)?;
    let source = packet.get_source();
    Some(EthernetFields {
        source: MacAddr(source.0, source.1, source.2, source.3, source.4, source.5),
        ethertype: packet.get_ethertype().0,
        payload: pnet::packet::Packet::payload(&packet).to_vec(),
    })
}

/// What is read of an IPv4 packet.
pub struct Ipv4Fields {
    pub protocol: u8,
    pub payload: Vec<u8>,
}

/// The payload of an IPv4 packet: what follows the header and its options, up
/// to the end that the total length gives, or the end of the packet.
pub open spec fn ipv4_payload(packet: Seq<u8>) -> Seq<u8> {
    let header = (packet[0] % 16) * 4;
    let start = if header > 20 {
        header as int
    } else {
        20
    };
    let total = addr::read16(packet, 2);
    let body = if total > header {
        total - header
    } else {
        0
    };
    let end = if start + body < packet.len() {
        start + body
    } else {
        packet.len() as int
    };
    if packet.len() <= start {
        seq![]
    } else {
        packet.subrange(start, end)
    }
}

/// `pnet::packet::ipv4::Ipv4Packet`: `new`, `get_next_level_protocol` and
/// `payload`. A packet has twenty octets at least, and the tenth is the
/// protocol. The payload starts behind the header, whose length in words the
/// first octet's lower half gives (never less than five words), and is as long
/// as the total length says, as far as there are octets.
#[verifier::external_body]
fn read_ipv4(packet: &[u8]) -> (r: Option<Ipv4Fields>)
    ensures
        r is Some <==> packet@.len() >= 20,
        r matches Some(fields) ==> fields.protocol == packet@[9] && fields.payload@ == ipv4_payload(
            packet@,
        ),
{
    let packet = pnet::packet::ipv4::Ipv4Packet::new(packet)?;
    Some(Ipv4Fields {
        protocol: packet.get_next_level_protocol().0,
        payload: pnet::packet::Packet::payload(&packet).to_vec(),
    })
}

/// What is read of a UDP datagram.
pub struct UdpFields {
    pub destination: u16,
    pub payload: Vec<u8>,
}

/// `pnet::packet::udp::UdpPacket`: `new`, `get_destination` and `payload`. A
/// datagram has eight octets at least; the destination port stands behind the
/// source port, and what follows the eight octets is the payload, whatever the
/// length field says.
#[verifier::external_body]
fn read_udp(datagram: &[u8]) -> (r: Option<UdpFields>)
    ensures
        r is Some <==> datagram@.len() >= 8,
        r matches Some(fields) ==> fields.destination == addr::read16(datagram@, 2)
            && fields.payload@ == datagram@.skip(8),
{
    let packet = pnet::packet::udp::UdpPacket::new(datagram)?;
    Some(UdpFields {
        destination: packet.get_destination(),
        payload: pnet::packet::Packet::payload(&packet).to_vec(),
    })
}

/// The payload of the UDP datagram in a frame, if the frame carries one over
/// IPv4 to `port`.
pub open spec fn udp_payload_of(frame: Seq<u8>, port: u16) -> Option<Seq<u8>> {
    let packet = frame.skip(14);
    let datagram = ipv4_payload(packet);
    if frame.len() < 14 || addr::read16(frame, 12) != ETHERTYPE_IPV4 {
        None
    } else if packet.len() < 20 || packet[9] != PROTOCOL_UDP {
        None
    } else if datagram.len() < 8 || addr::read16(datagram, 2) != port {
        None
    } else {
        Some(datagram.skip(8))
    }
}

/// The payload of the UDP datagram in a frame, if the frame carries one over
/// IPv4 to `port`.
pub fn udp_payload(frame: &[u8], port: u16) -> (r: Option<Vec<u8>>)
    ensures
        (match r {
            Some(payload) => udp_payload_of(frame@, port) == Some(payload@),
            None => udp_payload_of(frame@, port) is None,
        }),
{
    let eth = match read_ethernet(frame) {
        Some(eth) => eth,
        None => {
            return None;
        },
    };
    if eth.ethertype != ETHERTYPE_IPV4 {
        return None;
    }
    let ip = match read_ipv4(eth.payload.as_slice()) {
        Some(ip) => ip,
        None => {
            return None;
        },
    };
    if ip.protocol != PROTOCOL_UDP {
        return None;
    }
    let udp = match read_udp(ip.payload.as_slice()) {
        Some(udp) => udp,
        None => {
            return None;
        },
    };
    if udp.destination != port {
        return None;
    }
    Some(udp.payload)
}

/// Reading a frame that was built gives back its payload, at the port that it
/// was built for and at no other, and the link-layer address of its sender.
pub proof fn law_built_frame_reads_back(
    src_mac: MacAddr,
    dest_mac: MacAddr,
    src_ip: Ipv4Addr,
    dest_ip: Ipv4Addr,
    src_port: u16,
    dest_port: u16,
    payload: Seq<u8>,
    port: u16,
)
    requires
        payload.len() <= MAX_PAYLOAD,
    ensures
        ({
            let frame = frame_of(src_mac, dest_mac, src_ip, dest_ip, src_port, dest_port, payload);
            &&& frame.len() == HEADERS_LEN + payload.len()
            &&& read_mac(frame, 0) == dest_mac
            &&& read_mac(frame, 6) == src_mac
            &&& udp_payload_of(frame, port) == if port == dest_port {
                Some(payload)
            } else {
                None
            }
        }),
{
    let total = (28 + payload.len()) as u16;
    let checksum = header_checksum(ipv4_header(src_ip, dest_ip, total, 0));
    let eth = ethernet_header(src_mac, dest_mac);
    let ip = ipv4_header(src_ip, dest_ip, total, checksum);
    let udp = udp_header(src_port, dest_port, (8 + payload.len()) as u16);
    let frame = frame_of(src_mac, dest_mac, src_ip, dest_ip, src_port, dest_port, payload);
    assert(eth.len() == 14 && ip.len() == 20 && udp.len() == 8);
    assert(frame =~= eth + (ip + (udp + payload)));
    assert(frame.skip(14) =~= ip + (udp + payload));
    let packet = frame.skip(14);
    addr::law_octets_spell_half(total);
    addr::law_octets_spell_half(dest_port);
    assert(packet[0] == 0x45 && packet[9] == PROTOCOL_UDP);
    assert(addr::read16(packet, 2) == total) by {
        assert(packet[2] == addr::octets16(total)[0] && packet[3] == addr::octets16(total)[1]);
    }
    assert(ipv4_payload(packet) =~= udp + payload);
    let datagram = ipv4_payload(packet);
    assert(addr::read16(datagram, 2) == dest_port) by {
        assert(datagram[2] == addr::octets16(dest_port)[0] && datagram[3] == addr::octets16(
            dest_port,
        )[1]);
    }
    assert(datagram.skip(8) =~= payload);
}

proof fn lemma_fold(n: nat)
    ensures
        fold(n) <= 0xffff,
        n > 0 ==> fold(n) > 0,
        fold(n) % 0xffff == n % 0xffff,
    decreases n,
{
    if n > 0xffff {
        let m = n / 0x1_0000 + n % 0x1_0000;
        lemma_fold(m);
        assert(n == m + 0xffff * (n / 0x1_0000));
        assert((m + 0xffff * (n / 0x1_0000)) % 0xffff == m % 0xffff) by {
            vstd::arithmetic::div_mod::lemma_mod_multiples_vanish(
                (n / 0x1_0000) as int,
                m as int,
                0xffff,
            );
        }
    }
}

/// The checksum in the IPv4 header of a built frame is right: the ones'
/// complement sum over all words of the header is all ones, which is what a
/// receiver tests.
pub proof fn law_header_checksum_verifies(src: Ipv4Addr, dest: Ipv4Addr, total: u16)
    ensures
        ({
            let checksum = header_checksum(ipv4_header(src, dest, total, 0));
            let header = ipv4_header(src, dest, total, checksum);
            fold((header_sum(header) + addr::read16(header, 10)) as nat) == 0xffff
        }),
{
    let blank = ipv4_header(src, dest, total, 0);
    let checksum = header_checksum(blank);
    let header = ipv4_header(src, dest, total, checksum);
    assert(blank.len() == 20 && header.len() == 20);
    assert forall|i: int| 0 <= i < 20 && i != 10 && i != 11 implies #[trigger] header[i]
        == blank[i] by {}
    let n = header_sum(blank);
    assert(header_sum(header) == n);
    assert(addr::read16(blank, 0) == 0x4500);
    assert(n > 0);
    lemma_fold(n);
    addr::law_octets_spell_half(checksum);
    assert(addr::read16(header, 10) == checksum) by {
        assert(header[10] == addr::octets16(checksum)[0] && header[11] == addr::octets16(
            checksum,
        )[1]);
    }
    let all = (n + checksum) as nat;
    lemma_fold(all);
    assert(checksum == 0xffff - fold(n));
    assert(all % 0xffff == 0) by {
        assert(all == (n - fold(n)) + 0xffff);
        vstd::arithmetic::div_mod::lemma_fundamental_div_mod(n as int, 0xffff);
        vstd::arithmetic::div_mod::lemma_fundamental_div_mod(fold(n) as int, 0xffff);
        let q = n as int / 0xffff - fold(n) as int / 0xffff;
        assert(all == 0xffff * (q + 1));
        vstd::arithmetic::div_mod::lemma_mod_multiples_basic(q + 1, 0xffff);
    }
}

/// Where everything stands in a built frame: the two link-layer addresses, the
/// type of IPv4, an IPv4 header of twenty octets with a time to live of 64, the
/// number of UDP and the two addresses, a UDP header with the two ports and
/// without a checksum, then the payload. The ten words of the IPv4 header add up
/// to zero in ones' complement.
#[verifier::spinoff_prover]
#[verifier::rlimit(40)]
pub proof fn law_frame_fields_stand_in_place(
    src_mac: MacAddr,
    dest_mac: MacAddr,
    src_ip: Ipv4Addr,
    dest_ip: Ipv4Addr,
    src_port: u16,
    dest_port: u16,
    payload: Seq<u8>,
)
    requires
        payload.len() <= 65507,
    ensures
        ({
            let frame = frame_of(src_mac, dest_mac, src_ip, dest_ip, src_port, dest_port, payload);
            &&& frame.len() == 42 + payload.len()
            &&& MacAddr(frame[0], frame[1], frame[2], frame[3], frame[4], frame[5]) == dest_mac
            &&& MacAddr(frame[6], frame[7], frame[8], frame[9], frame[10], frame[11]) == src_mac
            &&& frame[12] == 8 && frame[13] == 0
            &&& frame[14] == 0x45 && frame[15] == 0
            &&& addr::read16(frame, 16) == 28 + payload.len()
            &&& addr::read32(frame, 18) == 0
            &&& frame[22] == 64 && frame[23] == 17
            &&& addr::read32(frame, 26) == src_ip.bits
            &&& addr::read32(frame, 30) == dest_ip.bits
            &&& addr::read16(frame, 34) == src_port
            &&& addr::read16(frame, 36) == dest_port
            &&& addr::read16(frame, 38) == 8 + payload.len()
            &&& addr::read16(frame, 40) == 0
            &&& frame.skip(42) == payload
            &&& (addr::read16(frame, 14) + addr::read16(frame, 16) + addr::read16(frame, 18)
                + addr::read16(frame, 20) + addr::read16(frame, 22) + addr::read16(frame, 24)
                + addr::read16(frame, 26) + addr::read16(frame, 28) + addr::read16(frame, 30)
                + addr::read16(frame, 32)) % 65535 == 0
        }),
{
    let total = (28 + payload.len()) as u16;
    let length = (8 + payload.len()) as u16;
    let checksum = header_checksum(ipv4_header(src_ip, dest_ip, total, 0));
    let eth = ethernet_header(src_mac, dest_mac);
    let ip = ipv4_header(src_ip, dest_ip, total, checksum);
    let udp = udp_header(src_port, dest_port, length);
    let frame = frame_of(src_mac, dest_mac, src_ip, dest_ip, src_port, dest_port, payload);
    assert(eth.len() == 14 && ip.len() == 20 && udp.len() == 8);
    assert(frame =~= eth + (ip + (udp + payload)));
    assert(frame.skip(42) =~= payload);
    assert forall|i: int| 0 <= i < 14 implies #[trigger] frame[i] == eth[i] by {}
    assert forall|i: int| 14 <= i < 34 implies #[trigger] frame[i] == ip[i - 14] by {}
    assert forall|i: int| 34 <= i < 42 implies #[trigger] frame[i] == udp[i - 34] by {}
    lemma_ipv4_header_fields(src_ip, dest_ip, total, checksum);
    lemma_udp_header_fields(src_port, dest_port, length);
    law_header_checksum_verifies(src_ip, dest_ip, total);
    lemma_fold((header_sum(ip) + addr::read16(ip, 10)) as nat);
}

proof fn lemma_ipv4_header_fields(src: Ipv4Addr, dest: Ipv4Addr, total: u16, checksum: u16)
    ensures
        ({
            let ip = ipv4_header(src, dest, total, checksum);
            &&& ip.len() == 20
            &&& ip[0] == 0x45 && ip[1] == 0
            &&& addr::read16(ip, 2) == total
            &&& addr::read32(ip, 4) == 0
            &&& ip[8] == 64 && ip[9] == 17
            &&& addr::read32(ip, 12) == src.bits
            &&& addr::read32(ip, 16) == dest.bits
        }),
{
    let ip = ipv4_header(src, dest, total, checksum);
    let (a, b) = (addr::octets32(src.bits), addr::octets32(dest.bits));
    let t = addr::octets16(total);
    addr::law_octets_spell_half(total);
    addr::law_octets_spell_address(src.bits);
    addr::law_octets_spell_address(dest.bits);
    assert(ip[2] == t[0] && ip[3] == t[1]);
    assert(ip[12] == a[0] && ip[13] == a[1] && ip[14] == a[2] && ip[15] == a[3]);
    assert(ip[16] == b[0] && ip[17] == b[1] && ip[18] == b[2] && ip[19] == b[3]);
}

proof fn lemma_udp_header_fields(src_port: u16, dest_port: u16, length: u16)
    ensures
        ({
            let udp = udp_header(src_port, dest_port, length);
            &&& udp.len() == 8
            &&& addr::read16(udp, 0) == src_port
            &&& addr::read16(udp, 2) == dest_port
            &&& addr::read16(udp, 4) == length
            &&& addr::read16(udp, 6) == 0
        }),
{
    let udp = udp_header(src_port, dest_port, length);
    let (a, b, c) = (addr::octets16(src_port), addr::octets16(dest_port), addr::octets16(length));
    addr::law_octets_spell_half(src_port);
    addr::law_octets_spell_half(dest_port);
    addr::law_octets_spell_half(length);
    assert(udp[0] == a[0] && udp[1] == a[1] && udp[2] == b[0] && udp[3] == b[1] && udp[4] == c[0]
        && udp[5] == c[1]);
}

/// Where the payload of a frame is found: behind an Ethernet header of fourteen
/// octets, an IPv4 header as long as it says it is, and a UDP header of eight
/// octets, up to the end that the IPv4 header gives. A frame that is not of IPv4,
/// not of UDP or not for the port has none.
pub proof fn law_payload_stands_behind_headers(frame: Seq<u8>, port: u16)
    ensures
        frame.len() < 42 ==> udp_payload_of(frame, port) is None,
        frame.len() >= 42 && !(frame[12] == 8 && frame[13] == 0 && frame[23] == 17)
            ==> udp_payload_of(frame, port) is None,
        ({
            let header = frame[14] % 16 * 4;
            let total = addr::read16(frame, 16);
            frame.len() >= 42 && 20 <= header && header + 8 <= total && 14 + total <= frame.len()
                && frame[12] == 8 && frame[13] == 0 && frame[23] == 17 ==> udp_payload_of(
                frame,
                port,
            ) == (if addr::read16(frame, 14 + header + 2) == port {
                Some(frame.subrange(14 + header + 8, 14 + total))
            } else {
                None
            })
        }),
{
    let packet = frame.skip(14);
    let datagram = ipv4_payload(packet);
    if frame.len() >= 42 {
        assert(packet[0] == frame[14] && packet[2] == frame[16] && packet[3] == frame[17]
            && packet[9] == frame[23]);
        let header = frame[14] % 16 * 4;
        let total = addr::read16(frame, 16);
        if 20 <= header && header + 8 <= total && 14 + total <= frame.len() {
            assert(datagram =~= frame.subrange(14 + header, 14 + total));
            assert(datagram[2] == frame[14 + header + 2] && datagram[3] == frame[14 + header + 3]);
            assert(datagram.skip(8) =~= frame.subrange(14 + header + 8, 14 + total));
        }
    } else if frame.len() >= 34 {
        assert(datagram.len() < 8);
    }
}

} // verus!
