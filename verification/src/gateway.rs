//! Rules of the gateway between the TUN interface and SNDCP.

use crate::ipv4::{dotted_value, Ipv4Addr};
use crate::sndcp::pool::{size_of_subnet, subnet_size};
use vstd::prelude::*;
use vstd::string::StringExecFns;

verus! {

/// A packet from a terminal.
#[derive(Debug, Clone)]
pub struct UplinkFromSndcp {
    pub issi: u32,
    pub nsapi: u8,
    pub payload: Vec<u8>,
}

/// A packet for a terminal.
#[derive(Debug, Clone)]
pub struct DownlinkToSndcp {
    pub dest_ipv4: Ipv4Addr,
    pub payload: Vec<u8>,
}

/// Settings of the TUN interface.
#[derive(Debug, Clone)]
pub struct GatewayConfig {
    pub tun_name: String,
    /// Address of the gateway on the interface.
    pub tun_addr: Ipv4Addr,
    pub tun_prefix_len: u8,
    pub mtu: u16,
}

impl Default for GatewayConfig {
    fn default() -> (r: GatewayConfig)
        ensures
            r.tun_name@ == "flowstation-pd0"@,
            r.tun_addr.bits == dotted_value(192, 168, 100, 1),
            r.tun_prefix_len == 24,
            r.mtu == 1500,
    {
        GatewayConfig {
            tun_name: "flowstation-pd0".to_owned(),
            tun_addr: Ipv4Addr::new(192, 168, 100, 1),
            tun_prefix_len: 24,
            mtu: 1500,
        }
    }
}

/// What can go wrong in the gateway.
#[derive(Debug, Clone)]
pub enum GatewayError {
    ChannelClosed,
    TunOpen(String),
    IpTooSmall,
    IpNotV4,
}

/// An error in words.
pub open spec fn error_text(e: GatewayError) -> Seq<char> {
    match e {
        GatewayError::ChannelClosed => "gateway channel closed"@,
        GatewayError::TunOpen(cause) => "tun open failed: "@ + cause@,
        GatewayError::IpTooSmall => "ip packet too small"@,
        GatewayError::IpNotV4 => "ip packet is not ipv4"@,
    }
}

impl GatewayError {
    /// See [`error_text`].
    pub fn to_string(&self) -> (r: String)
        ensures
            r@ == error_text(*self),
    {
        match self {
            GatewayError::ChannelClosed => "gateway channel closed".to_owned(),
            GatewayError::TunOpen(cause) => {
                let mut r: String = "tun open failed: ".to_owned();
                r.append(cause.as_str());
                r
            },
            GatewayError::IpTooSmall => "ip packet too small".to_owned(),
            GatewayError::IpNotV4 => "ip packet is not ipv4".to_owned(),
        }
    }
}

/// The octets hold at least an IPv4 header: twenty of them, the first with version 4.
pub open spec fn is_ipv4(packet: Seq<u8>) -> bool {
    packet.len() >= 20 && packet[0] / 16 == 4
}

/// The destination of an IPv4 packet: octets 16 to 19.
pub open spec fn destination(packet: Seq<u8>) -> int {
    dotted_value(packet[16], packet[17], packet[18], packet[19])
}

/// Reads the destination of an IPv4 packet. Anything too short is refused, then anything
/// with another version.
pub fn parse_ipv4_dest(packet: &[u8]) -> (r: Result<Ipv4Addr, GatewayError>)
    ensures
        match r {
            Ok(a) => is_ipv4(packet@) && a.bits == destination(packet@),
            Err(e) => if packet@.len() < 20 {
                e == GatewayError::IpTooSmall
            } else {
                !is_ipv4(packet@) && e == GatewayError::IpNotV4
            },
        },
{
    if packet.len() < 20 {
        return Err(GatewayError::IpTooSmall);
    }
    if packet[0] / 16 != 4 {
        return Err(GatewayError::IpNotV4);
    }
    Ok(Ipv4Addr::new(packet[16], packet[17], packet[18], packet[19]))
}

/// See [`is_ipv4`].
pub fn ipv4_min_valid(packet: &[u8]) -> (r: bool)
    ensures
        r == is_ipv4(packet@),
{
    packet.len() >= 20 && packet[0] / 16 == 4
}

/// The netmask of a prefix length: as many ones, then zeros.
pub fn prefix_to_netmask(prefix_len: u8) -> (r: Ipv4Addr)
    requires
        prefix_len <= 32,
    ensures
        r.bits == 0x1_0000_0000 - subnet_size(prefix_len),
{
    let size: u64 = size_of_subnet(prefix_len);
    Ipv4Addr { bits: (0x1_0000_0000u64 - size) as u32 }
}

/// What happens to the gateway loop.
#[derive(Debug)]
pub enum TunEvent {
    /// Nobody is left who sends packets of terminals.
    UplinkClosed,
    /// A packet of a terminal.
    Uplink(UplinkFromSndcp),
    /// The interface could not be read, and why.
    ReadFailed(String),
    /// The interface delivered a frame.
    Frame(Vec<u8>),
}

/// What the gateway loop does next.
#[derive(Debug)]
pub enum TunAction {
    /// End the loop.
    Stop,
    /// Write the packet to the interface. A failure to write does not end the loop.
    Write(UplinkFromSndcp),
    /// End the loop with this error.
    Fail(GatewayError),
    /// Hand the packet to SNDCP.
    Deliver(DownlinkToSndcp),
    /// Ignore the frame, for this reason.
    Ignore(GatewayError),
}

/// The action is what the gateway loop does next after the event.
pub open spec fn is_next(event: TunEvent, action: TunAction) -> bool {
    match event {
        TunEvent::UplinkClosed => action == TunAction::Stop,
        TunEvent::Uplink(packet) => action == TunAction::Write(packet),
        TunEvent::ReadFailed(cause) => action matches TunAction::Fail(GatewayError::TunOpen(text))
            && text@ == "TUN read error: "@ + cause@,
        TunEvent::Frame(frame) => if is_ipv4(frame@) {
            action matches TunAction::Deliver(d) && d.payload@ == frame@ && d.dest_ipv4.bits
                == destination(frame@)
        } else if frame@.len() < 20 {
            action == TunAction::Ignore(GatewayError::IpTooSmall)
        } else {
            action == TunAction::Ignore(GatewayError::IpNotV4)
        },
    }
}

/// One step of the gateway loop. Packets of terminals go to the interface as they are; of
/// the frames from the interface, the IPv4 packets go to the terminal that they are
/// addressed to, and all others are ignored.
pub fn tun_step(event: TunEvent) -> (r: TunAction)
    ensures
        is_next(event, r),
{
    match event {
        TunEvent::UplinkClosed => TunAction::Stop,
        TunEvent::Uplink(packet) => TunAction::Write(packet),
        TunEvent::ReadFailed(cause) => {
            let mut text: String = "TUN read error: ".to_owned();
            text.append(cause.as_str());
            TunAction::Fail(GatewayError::TunOpen(text))
        },
        TunEvent::Frame(frame) => match parse_ipv4_dest(frame.as_slice()) {
            Ok(dest_ipv4) => TunAction::Deliver(DownlinkToSndcp { dest_ipv4, payload: frame }),
            Err(e) => TunAction::Ignore(e),
        },
    }
}

/// A packet counts as IPv4 exactly if it has room for a header and the upper half of its first
/// octet is 4. Its destination is the address that octets 16 to 19 spell, the first of them the
/// most significant.
pub proof fn law_ipv4_packet(packet: Seq<u8>)
    ensures
        is_ipv4(packet) <==> packet.len() > 19 && 64 <= packet[0] && packet[0] < 80,
        destination(packet) == ((packet[16] * 256 + packet[17]) * 256 + packet[18]) * 256
            + packet[19],
{
}

/// Each further bit of the prefix halves the subnet, down to a single address.
pub proof fn law_subnet_halves(prefix: u8)
    requires
        prefix < 32,
    ensures
        subnet_size(prefix) == 2 * subnet_size((prefix + 1) as u8),
        subnet_size(32) == 1,
{
    vstd::arithmetic::power2::lemma_pow2_unfold((32 - prefix) as nat);
    vstd::arithmetic::power2::lemma2_to64();
}

/// Every frame from the interface that is an IPv4 packet is delivered, whole, to the address in
/// its octets 16 to 19; every other is ignored, as too small if it has no room for a header and
/// as another version otherwise. No frame ends the loop.
pub proof fn law_frames_find_their_terminal(frame: Vec<u8>, action: TunAction)
    requires
        is_next(TunEvent::Frame(frame), action),
    ensures
        action is Deliver <==> frame@.len() >= 20 && 64 <= frame@[0] && frame@[0] <= 79,
        action matches TunAction::Deliver(d) ==> d.payload@ == frame@ && d.dest_ipv4.bits == ((
        frame@[16] * 256 + frame@[17]) * 256 + frame@[18]) * 256 + frame@[19],
        action is Deliver || action is Ignore,
        action matches TunAction::Ignore(e) ==> e == if frame@.len() < 20 {
            GatewayError::IpTooSmall
        } else {
            GatewayError::IpNotV4
        },
{
}

/// Every packet of a terminal is written to the interface as it is. The loop ends when nobody is
/// left who sends packets, and with an error when the interface cannot be read.
pub proof fn law_packets_reach_the_interface(event: TunEvent, action: TunAction)
    requires
        is_next(event, action),
    ensures
        event matches TunEvent::Uplink(packet) ==> (action matches TunAction::Write(w) && w
            == packet),
        action is Write ==> event is Uplink,
        event is UplinkClosed <==> action is Stop,
        event is ReadFailed <==> action is Fail,
{
}

} // verus!
