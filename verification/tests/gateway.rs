use tetra_pd::gateway::{
    ipv4_min_valid, parse_ipv4_dest, prefix_to_netmask, tun_step, GatewayConfig, GatewayError,
    TunAction, TunEvent, UplinkFromSndcp,
};
use tetra_pd::ipv4::Ipv4Addr;

fn make_ipv4_header(dest: [u8; 4]) -> Vec<u8> {
    let mut h = vec![0u8; 20];
    h[0] = 0x45;
    h[16] = dest[0];
    h[17] = dest[1];
    h[18] = dest[2];
    h[19] = dest[3];
    h
}

#[test]
fn parse_ipv4_dest_extracts_bytes_16_to_19() {
    let header = make_ipv4_header([10, 11, 12, 13]);
    let dest = parse_ipv4_dest(&header).expect("should parse");
    assert_eq!(dest, Ipv4Addr::new(10, 11, 12, 13));
}

#[test]
fn parse_ipv4_rejects_too_short_packet() {
    let short = vec![0x45u8; 19];
    assert!(matches!(parse_ipv4_dest(&short), Err(GatewayError::IpTooSmall)));
}

#[test]
fn parse_ipv4_rejects_ipv6_version_nibble() {
    let mut header = make_ipv4_header([10, 0, 0, 1]);
    header[0] = 0x60;
    assert!(matches!(parse_ipv4_dest(&header), Err(GatewayError::IpNotV4)));
}

#[test]
fn ipv4_min_valid_rejects_short_packet() {
    assert!(!ipv4_min_valid(&[0x45u8; 19]));
}

#[test]
fn ipv4_min_valid_rejects_non_ipv4_version() {
    let mut h = vec![0u8; 20];
    h[0] = 0x60;
    assert!(!ipv4_min_valid(&h));
}

#[test]
fn ipv4_min_valid_accepts_valid_ipv4_header() {
    let header = make_ipv4_header([192, 168, 1, 1]);
    assert!(ipv4_min_valid(&header));
}

#[test]
fn netmasks() {
    assert_eq!(prefix_to_netmask(0), Ipv4Addr::new(0, 0, 0, 0));
    assert_eq!(prefix_to_netmask(8), Ipv4Addr::new(255, 0, 0, 0));
    assert_eq!(prefix_to_netmask(24), Ipv4Addr::new(255, 255, 255, 0));
    assert_eq!(prefix_to_netmask(30), Ipv4Addr::new(255, 255, 255, 252));
    assert_eq!(prefix_to_netmask(32), Ipv4Addr::new(255, 255, 255, 255));
}

#[test]
fn gateway_defaults() {
    let c = GatewayConfig::default();
    assert_eq!(c.tun_name, "flowstation-pd0");
    assert_eq!(c.tun_addr, Ipv4Addr::new(192, 168, 100, 1));
    assert_eq!(c.tun_prefix_len, 24);
    assert_eq!(c.mtu, 1500);
}

#[test]
fn errors_in_words() {
    assert_eq!(GatewayError::ChannelClosed.to_string(), "gateway channel closed");
    assert_eq!(GatewayError::TunOpen("no device".into()).to_string(), "tun open failed: no device");
    assert_eq!(GatewayError::IpTooSmall.to_string(), "ip packet too small");
    assert_eq!(GatewayError::IpNotV4.to_string(), "ip packet is not ipv4");
}

#[test]
fn loop_delivers_ipv4_frames_only() {
    let header = make_ipv4_header([10, 11, 12, 13]);
    match tun_step(TunEvent::Frame(header.clone())) {
        TunAction::Deliver(d) => {
            assert_eq!(d.dest_ipv4, Ipv4Addr::new(10, 11, 12, 13));
            assert_eq!(d.payload, header);
        }
        other => panic!("unexpected {other:?}"),
    }
    let mut v6 = header.clone();
    v6[0] = 0x60;
    assert!(matches!(
        tun_step(TunEvent::Frame(v6)),
        TunAction::Ignore(GatewayError::IpNotV4)
    ));
    assert!(matches!(
        tun_step(TunEvent::Frame(vec![0x45; 19])),
        TunAction::Ignore(GatewayError::IpTooSmall)
    ));
}

#[test]
fn loop_writes_uplink_and_ends() {
    let packet = UplinkFromSndcp { issi: 42, nsapi: 1, payload: vec![1, 2, 3] };
    match tun_step(TunEvent::Uplink(packet)) {
        TunAction::Write(p) => {
            assert_eq!((p.issi, p.nsapi, p.payload), (42, 1, vec![1, 2, 3]));
        }
        other => panic!("unexpected {other:?}"),
    }
    assert!(matches!(tun_step(TunEvent::UplinkClosed), TunAction::Stop));
    match tun_step(TunEvent::ReadFailed("gone".into())) {
        TunAction::Fail(GatewayError::TunOpen(cause)) => assert_eq!(cause, "TUN read error: gone"),
        other => panic!("unexpected {other:?}"),
    }
}
