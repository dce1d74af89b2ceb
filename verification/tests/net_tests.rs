use oxide::net::{
    checksum16, handle_arp, handle_frame, ip_eq, ipv4_header, send_arp_reply, send_arp_request,
    send_udp, DemoProgress, NetState, GATEWAY_IP, OUR_IP,
};
use oxide::tcp::{handle, State, LISTEN_PORT};

const OUR_MAC: [u8; 6] = [0x52, 0x54, 0x00, 0x12, 0x34, 0x56];
const PEER_MAC: [u8; 6] = [0x52, 0x55, 0x0a, 0x00, 0x02, 0x02];

fn sum_ok(bytes: &[u8]) -> bool {
    let mut sum: u32 = 0;
    for pair in bytes.chunks(2) {
        let hi = pair[0] as u32;
        let lo = if pair.len() > 1 { pair[1] as u32 } else { 0 };
        sum += (hi << 8) | lo;
    }
    while sum >> 16 != 0 {
        sum = (sum & 0xffff) + (sum >> 16);
    }
    sum == 0xffff
}

#[test]
fn checksum_of_known_header() {
    let h: [u8; 20] = [
        0x45, 0x00, 0x00, 0x73, 0x00, 0x00, 0x40, 0x00, 0x40, 0x11, 0x00, 0x00, 0xc0, 0xa8, 0x00,
        0x01, 0xc0, 0xa8, 0x00, 0xc7,
    ];
    assert_eq!(checksum16(&h), 0xb861);
    assert_eq!(checksum16(&[]), 0xffff);
    assert_eq!(checksum16(&[0x01]), !0x0100u16);
}

#[test]
fn ipv4_header_checksum_verifies() {
    let h = ipv4_header(48, 6, OUR_IP, [10, 0, 2, 2]);
    assert_eq!(h[0], 0x45);
    assert_eq!(&h[2..4], &[0, 48]);
    assert_eq!(h[8], 64);
    assert_eq!(h[9], 6);
    assert_eq!(&h[12..16], &OUR_IP);
    assert!(sum_ok(&h));
}

#[test]
fn arp_request_asks_for_target() {
    let f = send_arp_request(OUR_MAC, GATEWAY_IP);
    assert_eq!(f.len(), 42);
    assert_eq!(&f[0..6], &[0xff; 6]);
    assert_eq!(&f[6..12], &OUR_MAC);
    assert_eq!(&f[12..14], &[0x08, 0x06]);
    assert_eq!(&f[20..22], &[0, 1]);
    assert_eq!(&f[38..42], &GATEWAY_IP);
}

fn arp_packet(op: u16, sender_mac: [u8; 6], sender_ip: [u8; 4], target_ip: [u8; 4]) -> Vec<u8> {
    let mut p = vec![0, 1, 0x08, 0x00, 6, 4];
    p.extend_from_slice(&op.to_be_bytes());
    p.extend_from_slice(&sender_mac);
    p.extend_from_slice(&sender_ip);
    p.extend_from_slice(&[0; 6]);
    p.extend_from_slice(&target_ip);
    p
}

#[test]
fn arp_request_for_us_is_answered() {
    let mut st = NetState { gateway_mac: None };
    let p = arp_packet(1, PEER_MAC, [10, 0, 2, 2], OUR_IP);
    let reply = handle_arp(&mut st, OUR_MAC, &p).expect("a reply");
    assert_eq!(reply, send_arp_reply(OUR_MAC, PEER_MAC, [10, 0, 2, 2]));
    assert_eq!(&reply[20..22], &[0, 2]);
    assert!(st.gateway_mac.is_none());
}

#[test]
fn arp_reply_from_gateway_is_learned() {
    let mut st = NetState { gateway_mac: None };
    let p = arp_packet(2, PEER_MAC, GATEWAY_IP, OUR_IP);
    assert!(handle_arp(&mut st, OUR_MAC, &p).is_none());
    assert_eq!(st.gateway_mac, Some(PEER_MAC));
    let short = [0u8; 27];
    assert!(handle_arp(&mut st, OUR_MAC, &short).is_none());
}

#[test]
fn udp_needs_gateway() {
    let st = NetState { gateway_mac: None };
    assert!(send_udp(&st, OUR_MAC, GATEWAY_IP, 9, 4444, b"hi").is_none());
    let st = NetState { gateway_mac: Some(PEER_MAC) };
    let f = send_udp(&st, OUR_MAC, GATEWAY_IP, 9, 4444, b"hi").unwrap();
    assert_eq!(f.len(), 14 + 20 + 8 + 2);
    assert_eq!(&f[0..6], &PEER_MAC);
    assert_eq!(f[23], 17);
    assert_eq!(&f[34..36], &4444u16.to_be_bytes());
    assert_eq!(&f[36..38], &9u16.to_be_bytes());
    assert_eq!(&f[38..40], &10u16.to_be_bytes());
    assert!(sum_ok(&f[14..34]));
}

#[test]
fn ip_equality() {
    assert!(ip_eq(OUR_IP, [10, 0, 2, 15]));
    assert!(!ip_eq(OUR_IP, GATEWAY_IP));
}

fn ping_frame(payload: &[u8]) -> Vec<u8> {
    let mut icmp = vec![8, 0, 0, 0, 0x12, 0x34, 0x00, 0x01];
    icmp.extend_from_slice(payload);
    let mut ip = vec![0x45, 0, 0, (20 + icmp.len()) as u8, 0, 0, 0x40, 0, 64, 1, 0, 0];
    ip.extend_from_slice(&[10, 0, 2, 2]);
    ip.extend_from_slice(&OUR_IP);
    let mut f = OUR_MAC.to_vec();
    f.extend_from_slice(&PEER_MAC);
    f.extend_from_slice(&[0x08, 0x00]);
    f.extend_from_slice(&ip);
    f.extend_from_slice(&icmp);
    f
}

#[test]
fn ping_is_answered() {
    let mut st = NetState { gateway_mac: None };
    let mut conn = None;
    let out = handle_frame(&mut st, &mut conn, OUR_MAC, &ping_frame(b"abcd"));
    assert_eq!(out.len(), 1);
    let r = &out[0];
    assert_eq!(&r[0..6], &PEER_MAC);
    assert_eq!(&r[6..12], &OUR_MAC);
    assert_eq!(&r[26..30], &OUR_IP);
    assert_eq!(&r[30..34], &[10, 0, 2, 2]);
    assert_eq!(r[34], 0);
    assert_eq!(&r[38..40], &[0x12, 0x34]);
    assert_eq!(&r[42..], b"abcd");
    assert!(sum_ok(&r[14..34]));
    assert!(sum_ok(&r[34..]));
}

#[test]
fn short_and_foreign_frames_are_dropped() {
    let mut st = NetState { gateway_mac: None };
    let mut conn = None;
    assert!(handle_frame(&mut st, &mut conn, OUR_MAC, &[0u8; 13]).is_empty());
    let mut f = ping_frame(b"");
    f[12] = 0x86;
    f[13] = 0xdd;
    assert!(handle_frame(&mut st, &mut conn, OUR_MAC, &f).is_empty());
}

fn tcp_segment(src_port: u16, seq: u32, flags: u8, data: &[u8]) -> Vec<u8> {
    let mut t = Vec::new();
    t.extend_from_slice(&src_port.to_be_bytes());
    t.extend_from_slice(&LISTEN_PORT.to_be_bytes());
    t.extend_from_slice(&seq.to_be_bytes());
    t.extend_from_slice(&0u32.to_be_bytes());
    t.push(0x50);
    t.push(flags);
    t.extend_from_slice(&[0xff, 0xff, 0, 0, 0, 0]);
    t.extend_from_slice(data);
    t
}

#[test]
fn tcp_handshake_request_and_close() {
    let peer_ip = [10, 0, 2, 2];
    let mut conn = None;
    let out = handle(&mut conn, OUR_MAC, PEER_MAC, peer_ip, &tcp_segment(5555, 100, 0x02, b""));
    assert_eq!(out.len(), 1);
    let c = conn.unwrap();
    assert!(c.state == State::SynReceived);
    assert_eq!(c.their_seq, 101);
    assert_eq!(c.our_seq, 0x1000_0001);
    let synack = &out[0];
    assert_eq!(synack[47], 0x12);
    assert_eq!(&synack[38..42], &0x1000_0000u32.to_be_bytes());
    assert_eq!(&synack[42..46], &101u32.to_be_bytes());

    let out = handle(&mut conn, OUR_MAC, PEER_MAC, peer_ip, &tcp_segment(5555, 101, 0x10, b""));
    assert!(out.is_empty());
    assert!(conn.unwrap().state == State::Established);

    let out = handle(&mut conn, OUR_MAC, PEER_MAC, peer_ip, &tcp_segment(5555, 101, 0x18, b"GET /\r\n"));
    assert_eq!(out.len(), 3);
    assert_eq!(out[0][47], 0x10);
    assert_eq!(out[1][47], 0x18);
    assert_eq!(out[2][47], 0x11);
    assert!(out[1][54..].starts_with(b"HTTP/1.0 200 OK"));
    assert!(conn.unwrap().state == State::FinWait);

    let out = handle(&mut conn, OUR_MAC, PEER_MAC, peer_ip, &tcp_segment(5555, 108, 0x10, b""));
    assert!(out.is_empty());
    assert!(conn.is_none());
}

#[test]
fn tcp_other_port_is_ignored() {
    let mut conn = None;
    let mut seg = tcp_segment(5555, 1, 0x02, b"");
    seg[2] = 0;
    seg[3] = 80;
    assert!(handle(&mut conn, OUR_MAC, PEER_MAC, [10, 0, 2, 2], &seg).is_empty());
    assert!(conn.is_none());
}

#[test]
fn demo_greeting_is_sent_once_after_gateway() {
    let mut p = DemoProgress::new();
    let none = NetState { gateway_mac: None };
    assert_eq!(p.step(&none), (None, false));
    let known = NetState { gateway_mac: Some(PEER_MAC) };
    assert_eq!(p.step(&known), (Some(PEER_MAC), true));
    assert_eq!(p.step(&known), (None, false));
}

#[test]
fn tcp_segments_checksum_verifies() {
    let peer_ip = [10, 0, 2, 2];
    let mut conn = None;
    let out = handle(&mut conn, OUR_MAC, PEER_MAC, peer_ip, &tcp_segment(5555, 100, 0x02, b""));
    let synack = &out[0];
    let seg = &synack[34..];
    let mut pseudo = OUR_IP.to_vec();
    pseudo.extend_from_slice(&peer_ip);
    pseudo.extend_from_slice(&[0, 6]);
    pseudo.extend_from_slice(&(seg.len() as u16).to_be_bytes());
    pseudo.extend_from_slice(seg);
    assert_eq!(checksum16(&pseudo), 0);
    assert!(sum_ok(&synack[14..34]));
}

#[test]
fn appended_checksum_verifies() {
    let data = [0x45u8, 0x00, 0x00, 0x1c, 0xab, 0xcd, 0x40, 0x00, 0x40, 0x11];
    let mut with = data.to_vec();
    with.extend_from_slice(&checksum16(&data).to_be_bytes());
    assert_eq!(checksum16(&with), 0);
    let mut empty = Vec::new();
    empty.extend_from_slice(&checksum16(&[]).to_be_bytes());
    assert_eq!(checksum16(&empty), 0);
}
