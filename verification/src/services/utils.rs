//! What the services share.

use crate::addr::{Ipv4Addr, MacAddr};
use crate::packet;
use crate::services::dhcp_message;
use crate::services::dhcp_message::{DhcpMessage, FIXED_LEN};
use vstd::prelude::*;

verus! {

/// What the router knows of its own address on the outer network.
#[derive(Clone, Debug)]
pub struct WanLease {
    pub ip: Option<Ipv4Addr>,
    pub mask: Option<Ipv4Addr>,
    pub gateway: Option<Ipv4Addr>,
    pub dns_servers: Vec<Ipv4Addr>,
}

/// The content of a `WanLease`.
pub struct WanLeaseView {
    pub ip: Option<Ipv4Addr>,
    pub mask: Option<Ipv4Addr>,
    pub gateway: Option<Ipv4Addr>,
    pub dns_servers: Seq<Ipv4Addr>,
}

/// Nothing is known.
pub open spec fn no_lease() -> WanLeaseView {
    WanLeaseView { ip: None, mask: None, gateway: None, dns_servers: seq![] }
}

impl View for WanLease {
    type V = WanLeaseView;

    open spec fn view(&self) -> WanLeaseView {
        WanLeaseView {
            ip: self.ip,
            mask: self.mask,
            gateway: self.gateway,
            dns_servers: self.dns_servers@,
        }
    }
}

impl Default for WanLease {
    fn default() -> (r: WanLease)
        ensures
            r@ == no_lease(),
    {
        WanLease { ip: None, mask: None, gateway: None, dns_servers: Vec::new() }
    }
}

/// Whether the message in a frame, if one is addressed to the UDP port, can be
/// read.
pub open spec fn is_readable(frame: Seq<u8>, port: u16) -> bool {
    packet::udp_payload_of(frame, port) matches Some(payload) ==> dhcp_message::readable(payload)
}

/// Whether the message in a frame, if one is addressed to the UDP port, can be
/// read.
pub fn has_readable_options(frame: &[u8], port: u16) -> (r: bool)
    ensures
        r == is_readable(frame@, port),
{
    match packet::udp_payload(frame, port) {
        Some(payload) => dhcp_message::is_readable(payload.as_slice()),
        None => true,
    }
}

/// The message in a frame that is addressed to a UDP port, together with the
/// octets that it was read from.
pub(crate) fn receive(frame: &[u8], port: u16) -> (r: Option<(DhcpMessage, Vec<u8>)>)
    requires
        is_readable(frame@, port),
    ensures
        (match packet::udp_payload_of(frame@, port) {
            Some(payload) => if payload.len() >= FIXED_LEN {
                r matches Some((message, octets)) && message.is_read_from(payload) && octets@
                    == payload
            } else {
                r is None
            },
            None => r is None,
        }),
{
    match packet::udp_payload(frame, port) {
        Some(payload) => match dhcp_message::decode(payload.as_slice()) {
            Some(message) => Some((message, payload)),
            None => None,
        },
        None => None,
    }
}

/// The DHCP message in a frame that is addressed to a UDP port.
pub fn parse_dhcp_payload(frame: &[u8], expected_port: u16) -> (r: Option<DhcpMessage>)
    requires
        is_readable(frame@, expected_port),
    ensures
        (match packet::udp_payload_of(frame@, expected_port) {
            Some(payload) => if payload.len() >= FIXED_LEN {
                r matches Some(message) && message.is_read_from(payload)
            } else {
                r is None
            },
            None => r is None,
        }),
{
    match receive(frame, expected_port) {
        Some((message, _)) => Some(message),
        None => None,
    }
}

/// The DHCP message in a frame that is addressed to a UDP port, as
/// `parse_dhcp_payload` gives it; none where it cannot be read.
pub fn try_parse_dhcp_payload(frame: &[u8], expected_port: u16) -> (r: Option<DhcpMessage>)
    ensures
        (match packet::udp_payload_of(frame@, expected_port) {
            Some(payload) => if payload.len() >= FIXED_LEN && dhcp_message::readable(payload) {
                r matches Some(message) && message.is_read_from(payload)
            } else {
                r is None
            },
            None => r is None,
        }),
{
    if has_readable_options(frame, expected_port) {
        parse_dhcp_payload(frame, expected_port)
    } else {
        None
    }
}

/// The first of the hardware addresses that has six octets.
pub open spec fn first_mac(candidates: Seq<Seq<u8>>) -> Option<MacAddr>
    decreases candidates.len(),
{
    if candidates.len() == 0 {
        None
    } else if candidates[0].len() == 6 {
        Some(packet::read_mac(candidates[0], 0))
    } else {
        first_mac(candidates.skip(1))
    }
}

/// The link-layer address of an interface, out of the hardware addresses that
/// the kernel lists for it.
pub fn get_interface_mac(candidates: &Vec<Vec<u8>>) -> (r: Option<MacAddr>)
    ensures
        r == first_mac(candidates.deep_view()),
{
    let ghost all = candidates.deep_view();
    let mut i: usize = 0;
    assert(all.skip(0) =~= all);
    while i < candidates.len()
        invariant
            i <= candidates.len(),
            all == candidates.deep_view(),
            first_mac(all) == first_mac(all.skip(i as int)),
        decreases candidates.len() - i,
    {
        let mac = &candidates[i];
        proof {
            assert(all.skip(i as int)[0] =~= mac@);
            assert(all.skip(i as int).skip(1) =~= all.skip(i + 1));
        }
        if mac.len() == 6 {
            return Some(MacAddr(mac[0], mac[1], mac[2], mac[3], mac[4], mac[5]));
        }
        i += 1;
    }
    assert(all.skip(i as int).len() == 0);
    None
}

/// The link-layer address of an interface is the first that has six octets, octet
/// for octet; those before it, of any other length, are passed over, and those
/// behind it have no bearing on it.
pub proof fn law_first_address_of_six_octets_counts(
    before: Seq<Seq<u8>>,
    mac: Seq<u8>,
    after: Seq<Seq<u8>>,
)
    requires
        forall|i: int| 0 <= i < before.len() ==> (#[trigger] before[i]).len() != 6,
        mac.len() == 6,
    ensures
        first_mac(before) is None,
        first_mac(before.push(mac) + after) == Some(
            MacAddr(mac[0], mac[1], mac[2], mac[3], mac[4], mac[5]),
        ),
    decreases before.len(),
{
    let all = before.push(mac) + after;
    if before.len() > 0 {
        assert(before[0].len() != 6);
        law_first_address_of_six_octets_counts(before.skip(1), mac, after);
        assert(all[0] == before[0]);
        assert(all.skip(1) =~= before.skip(1).push(mac) + after);
    } else {
        assert(all[0] == mac);
    }
}

/// The content of a lease is what its fields hold.
pub proof fn law_content_is_of_lease(lease: WanLease)
    ensures
        lease@.ip == lease.ip,
        lease@.mask == lease.mask,
        lease@.gateway == lease.gateway,
        lease@.dns_servers == lease.dns_servers@,
{
}

} // verus!
