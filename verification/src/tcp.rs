//! The kernel's one-connection TCP server: it answers a connection on
//! `LISTEN_PORT` with a fixed HTTP response and closes it.
use vstd::prelude::*;
use crate::bytes::{
    u16_be, u32_be, be_u16, be_u32, push_be_u16, push_be_u32, push_all, read_be_u16, read_be_u32,
    group_encoded_lengths,
};
use crate::net::{
    OUR_IP, ETHERTYPE_IPV4, checksum16, checksum16_spec, words_sum, lemma_words_sum_bound,
    eth_header_bytes, ipv4_header_bytes, ipv4_header, length_field, ip_eq, with_checksum,
    lemma_checksum_verifies,
};

verus! {

broadcast use group_encoded_lengths;

pub const LISTEN_PORT: u16 = 7878;

pub const FLAG_FIN: u8 = 0x01;

pub const FLAG_SYN: u8 = 0x02;

pub const FLAG_RST: u8 = 0x04;

pub const FLAG_PSH: u8 = 0x08;

pub const FLAG_ACK: u8 = 0x10;

/// The sequence number the server starts its side of a connection with.
pub const INITIAL_SEQ: u32 = 0x1000_0000;

/// Where the connection stands.
#[derive(Clone, Copy, PartialEq, Eq, Debug, Structural)]
pub enum State {
    SynReceived,
    Established,
    FinWait,
}

/// The one connection the server keeps.
#[derive(Clone, Copy)]
pub struct Connection {
    pub state: State,
    pub peer_mac: [u8; 6],
    pub peer_ip: [u8; 4],
    pub peer_port: u16,
    pub our_seq: u32,
    pub their_seq: u32,
}

/// The HTTP response the server sends.
#[verifier::opaque]
pub open spec fn response() -> Seq<u8> {
    seq![
        0x48u8, 0x54u8, 0x54u8, 0x50u8, 0x2fu8, 0x31u8, 0x2eu8, 0x30u8, 0x20u8, 0x32u8, 0x30u8, 0x30u8,
        0x20u8, 0x4fu8, 0x4bu8, 0x0du8, 0x0au8, 0x43u8, 0x6fu8, 0x6eu8, 0x74u8, 0x65u8, 0x6eu8, 0x74u8,
        0x2du8, 0x54u8, 0x79u8, 0x70u8, 0x65u8, 0x3au8, 0x20u8, 0x74u8, 0x65u8, 0x78u8, 0x74u8, 0x2fu8,
        0x70u8, 0x6cu8, 0x61u8, 0x69u8, 0x6eu8, 0x0du8, 0x0au8, 0x0du8, 0x0au8, 0x48u8, 0x65u8, 0x6cu8,
        0x6cu8, 0x6fu8, 0x20u8, 0x66u8, 0x72u8, 0x6fu8, 0x6du8, 0x20u8, 0x4fu8, 0x78u8, 0x69u8, 0x64u8,
        0x65u8, 0x27u8, 0x73u8, 0x20u8, 0x66u8, 0x72u8, 0x6fu8, 0x6du8, 0x2du8, 0x73u8, 0x63u8, 0x72u8,
        0x61u8, 0x74u8, 0x63u8, 0x68u8, 0x20u8, 0x54u8, 0x43u8, 0x50u8, 0x2fu8, 0x49u8, 0x50u8, 0x20u8,
        0x73u8, 0x74u8, 0x61u8, 0x63u8, 0x6bu8, 0x21u8, 0x0au8,
    ]
}

fn response_bytes() -> (r: Vec<u8>)
    ensures
        r@ == response(),
        r@.len() == 91,
{
    reveal(response);
    vec![
        0x48u8, 0x54u8, 0x54u8, 0x50u8, 0x2fu8, 0x31u8, 0x2eu8, 0x30u8, 0x20u8, 0x32u8, 0x30u8, 0x30u8,
        0x20u8, 0x4fu8, 0x4bu8, 0x0du8, 0x0au8, 0x43u8, 0x6fu8, 0x6eu8, 0x74u8, 0x65u8, 0x6eu8, 0x74u8,
        0x2du8, 0x54u8, 0x79u8, 0x70u8, 0x65u8, 0x3au8, 0x20u8, 0x74u8, 0x65u8, 0x78u8, 0x74u8, 0x2fu8,
        0x70u8, 0x6cu8, 0x61u8, 0x69u8, 0x6eu8, 0x0du8, 0x0au8, 0x0du8, 0x0au8, 0x48u8, 0x65u8, 0x6cu8,
        0x6cu8, 0x6fu8, 0x20u8, 0x66u8, 0x72u8, 0x6fu8, 0x6du8, 0x20u8, 0x4fu8, 0x78u8, 0x69u8, 0x64u8,
        0x65u8, 0x27u8, 0x73u8, 0x20u8, 0x66u8, 0x72u8, 0x6fu8, 0x6du8, 0x2du8, 0x73u8, 0x63u8, 0x72u8,
        0x61u8, 0x74u8, 0x63u8, 0x68u8, 0x20u8, 0x54u8, 0x43u8, 0x50u8, 0x2fu8, 0x49u8, 0x50u8, 0x20u8,
        0x73u8, 0x74u8, 0x61u8, 0x63u8, 0x6bu8, 0x21u8, 0x0au8,
    ]
}

/// A segment the server sends: to whom, with which numbers, flags and data.
pub ghost struct Reply {
    pub peer_mac: Seq<u8>,
    pub peer_ip: Seq<u8>,
    pub peer_port: u16,
    pub seq: u32,
    pub ack: u32,
    pub flags: u8,
    pub payload: Seq<u8>,
}

/// A TCP header (20 bytes, window 4096) and data, with the checksum field zero.
pub open spec fn tcp_unsummed(
    our_port: u16,
    peer_port: u16,
    seq: u32,
    ack: u32,
    flags: u8,
    payload: Seq<u8>,
) -> Seq<u8> {
    u16_be(our_port) + u16_be(peer_port) + u32_be(seq) + u32_be(ack) + seq![0x50u8, flags]
        + u16_be(4096) + u16_be(0) + u16_be(0) + payload
}

/// The pseudo-header the TCP checksum covers, followed by the segment.
pub open spec fn pseudo_header(src_ip: Seq<u8>, dst_ip: Seq<u8>, segment: Seq<u8>) -> Seq<u8> {
    src_ip + dst_ip + seq![0u8, 6u8] + u16_be(segment.len() as u16) + segment
}

/// The TCP checksum of `segment` sent from `src_ip` to `dst_ip`.
pub open spec fn tcp_checksum_spec(src_ip: Seq<u8>, dst_ip: Seq<u8>, segment: Seq<u8>) -> u16 {
    checksum16_spec(pseudo_header(src_ip, dst_ip, segment))
}

/// The segment with its checksum.
pub open spec fn tcp_segment(
    our_ip: Seq<u8>,
    peer_ip: Seq<u8>,
    our_port: u16,
    peer_port: u16,
    seq: u32,
    ack: u32,
    flags: u8,
    payload: Seq<u8>,
) -> Seq<u8> {
    let t = tcp_unsummed(our_port, peer_port, seq, ack, flags, payload);
    t.subrange(0, 16) + u16_be(tcp_checksum_spec(our_ip, peer_ip, t)) + t.subrange(18, t.len() as int)
}

/// A segment checks out at its receiver: its checksum over the pseudo-header
/// and the whole segment, checksum field included, is 0.
pub proof fn lemma_tcp_segment_verifies(
    our_ip: Seq<u8>,
    peer_ip: Seq<u8>,
    our_port: u16,
    peer_port: u16,
    seq: u32,
    ack: u32,
    flags: u8,
    payload: Seq<u8>,
)
    requires
        our_ip.len() == 4,
        peer_ip.len() == 4,
    ensures
        tcp_checksum_spec(
            our_ip,
            peer_ip,
            tcp_segment(our_ip, peer_ip, our_port, peer_port, seq, ack, flags, payload),
        ) == 0,
{
    let t = tcp_unsummed(our_port, peer_port, seq, ack, flags, payload);
    let p = pseudo_header(our_ip, peer_ip, t);
    let seg = tcp_segment(our_ip, peer_ip, our_port, peer_port, seq, ack, flags, payload);
    assert(t.len() == 20 + payload.len());
    assert(seg.len() == t.len());
    reveal(u16_be);
    assert(((0u16 >> 8u16) as u8) == 0u8 && (0u16 as u8) == 0u8) by (bit_vector);
    assert(t[16] == u16_be(0)[0] && t[17] == u16_be(0)[1]);
    assert(p[28] == t[16] && p[29] == t[17]);
    assert(pseudo_header(our_ip, peer_ip, seg) =~= with_checksum(p, 28));
    lemma_checksum_verifies(p, 28);
}

/// The whole frame carrying a segment.
pub open spec fn segment_frame(
    our_mac: Seq<u8>,
    peer_mac: Seq<u8>,
    our_ip: Seq<u8>,
    peer_ip: Seq<u8>,
    our_port: u16,
    peer_port: u16,
    seq: u32,
    ack: u32,
    flags: u8,
    payload: Seq<u8>,
) -> Seq<u8> {
    let t = tcp_segment(our_ip, peer_ip, our_port, peer_port, seq, ack, flags, payload);
    eth_header_bytes(peer_mac, our_mac, ETHERTYPE_IPV4) + ipv4_header_bytes(
        (20 + t.len()) as u16,
        6,
        our_ip,
        peer_ip,
    ) + t
}

/// The frame the server sends for `r`.
pub open spec fn reply_frame(our_mac: Seq<u8>, r: Reply) -> Seq<u8> {
    segment_frame(
        our_mac,
        r.peer_mac,
        OUR_IP@,
        r.peer_ip,
        LISTEN_PORT,
        r.peer_port,
        r.seq,
        r.ack,
        r.flags,
        r.payload,
    )
}

/// The sum behind a segment's checksum fits the 32 bits it is added up in.
pub open spec fn segment_sum_fits(
    our_ip: Seq<u8>,
    peer_ip: Seq<u8>,
    our_port: u16,
    peer_port: u16,
    seq: u32,
    ack: u32,
    flags: u8,
    payload: Seq<u8>,
) -> bool {
    words_sum(
        pseudo_header(our_ip, peer_ip, tcp_unsummed(our_port, peer_port, seq, ack, flags, payload)),
    ) <= u32::MAX
}

/// Any payload an IPv4 datagram can carry after the two headers (65495
/// bytes) keeps the checksum's sum within 32 bits.
pub broadcast proof fn lemma_segment_sum_fits(
    our_ip: Seq<u8>,
    peer_ip: Seq<u8>,
    our_port: u16,
    peer_port: u16,
    seq: u32,
    ack: u32,
    flags: u8,
    payload: Seq<u8>,
)
    requires
        our_ip.len() == 4,
        peer_ip.len() == 4,
        payload.len() <= 65495,
    ensures
        #[trigger] segment_sum_fits(our_ip, peer_ip, our_port, peer_port, seq, ack, flags, payload),
{
    let p = pseudo_header(
        our_ip,
        peer_ip,
        tcp_unsummed(our_port, peer_port, seq, ack, flags, payload),
    );
    let n = p.len() as int;
    assert(n == 32 + payload.len());
    lemma_words_sum_bound(p);
    assert(65535 * n <= 65535 * 65527) by (nonlinear_arith)
        requires
            0 <= n <= 65527,
    ;
}

/// The TCP checksum of `segment` sent from `src_ip` to `dst_ip`.
fn tcp_checksum(src_ip: [u8; 4], dst_ip: [u8; 4], segment: &[u8]) -> (r: u16)
    requires
        words_sum(pseudo_header(src_ip@, dst_ip@, segment@)) <= u32::MAX,
    ensures
        r == tcp_checksum_spec(src_ip@, dst_ip@, segment@),
{
    let mut pseudo: Vec<u8> = Vec::new();
    push_all(&mut pseudo, src_ip.as_slice());
    push_all(&mut pseudo, dst_ip.as_slice());
    pseudo.push(0);
    pseudo.push(6);
    push_be_u16(&mut pseudo, length_field(segment.len(), 0));
    push_all(&mut pseudo, segment);
    assert(pseudo@ =~= pseudo_header(src_ip@, dst_ip@, segment@));
    checksum16(pseudo.as_slice())
}

/// The frame carrying one segment from `our_ip:our_port` to `peer_ip:peer_port`.
fn build_segment(
    our_mac: [u8; 6],
    peer_mac: [u8; 6],
    our_ip: [u8; 4],
    peer_ip: [u8; 4],
    our_port: u16,
    peer_port: u16,
    seq: u32,
    ack: u32,
    flags: u8,
    payload: &[u8],
) -> (r: Vec<u8>)
    requires
        segment_sum_fits(our_ip@, peer_ip@, our_port, peer_port, seq, ack, flags, payload@),
    ensures
        r@ == segment_frame(
            our_mac@,
            peer_mac@,
            our_ip@,
            peer_ip@,
            our_port,
            peer_port,
            seq,
            ack,
            flags,
            payload@,
        ),
{
    let mut tcp: Vec<u8> = Vec::new();
    push_be_u16(&mut tcp, our_port);
    push_be_u16(&mut tcp, peer_port);
    push_be_u32(&mut tcp, seq);
    push_be_u32(&mut tcp, ack);
    tcp.push(0x50);
    tcp.push(flags);
    push_be_u16(&mut tcp, 4096);
    push_be_u16(&mut tcp, 0);
    push_be_u16(&mut tcp, 0);
    push_all(&mut tcp, payload);
    let ghost unsummed = tcp@;
    assert(unsummed =~= tcp_unsummed(our_port, peer_port, seq, ack, flags, payload@));
    let sum = tcp_checksum(our_ip, peer_ip, tcp.as_slice());
    tcp.set(16, (sum >> 8u16) as u8);
    tcp.set(17, sum as u8);
    proof {
        reveal(u16_be);
        assert(tcp@ =~= tcp_segment(our_ip@, peer_ip@, our_port, peer_port, seq, ack, flags, payload@));
    }
    let ip_header = ipv4_header(length_field(tcp.len(), 20), 6, our_ip, peer_ip);
    let mut frame: Vec<u8> = Vec::new();
    push_all(&mut frame, peer_mac.as_slice());
    push_all(&mut frame, our_mac.as_slice());
    push_be_u16(&mut frame, ETHERTYPE_IPV4);
    push_all(&mut frame, ip_header.as_slice());
    push_all(&mut frame, tcp.as_slice());
    assert(frame@ =~= segment_frame(
        our_mac@,
        peer_mac@,
        our_ip@,
        peer_ip@,
        our_port,
        peer_port,
        seq,
        ack,
        flags,
        payload@,
    ));
    frame
}

/// The data of a segment: what follows the header, or nothing when the
/// header claims to be longer than the segment.
pub open spec fn segment_data(p: Seq<u8>) -> Seq<u8> {
    let off = ((p[12] >> 4u8) as int) * 4;
    if off <= p.len() {
        p.subrange(off, p.len() as int)
    } else {
        Seq::empty()
    }
}

/// What the server does with segment `p` from `src_ip` (at `src_mac`): the
/// connection afterwards and the segments it sends, in order.
///
/// A SYN without ACK (re)starts the connection with that peer and is answered
/// with SYN+ACK. Other segments count only when they come from the peer of
/// the current connection: RST drops it; in `SynReceived` an ACK establishes
/// it; in `Established` data is acknowledged and answered with the response
/// and a FIN, moving to `FinWait`, while a FIN without data is acknowledged
/// and ends the connection; in `FinWait` an ACK ends it.
pub open spec fn handle_spec(
    conn: Option<Connection>,
    src_mac: [u8; 6],
    src_ip: [u8; 4],
    p: Seq<u8>,
) -> (Option<Connection>, Seq<Reply>) {
    if p.len() < 20 || be_u16(p, 2) != LISTEN_PORT {
        (conn, Seq::empty())
    } else {
        let src_port = be_u16(p, 0);
        let seq = be_u32(p, 4);
        let flags = p[13];
        let data = segment_data(p);
        if flags & FLAG_SYN != 0 && flags & FLAG_ACK == 0 {
            (
                Some(
                    Connection {
                        state: State::SynReceived,
                        peer_mac: src_mac,
                        peer_ip: src_ip,
                        peer_port: src_port,
                        our_seq: INITIAL_SEQ.wrapping_add(1),
                        their_seq: seq.wrapping_add(1),
                    },
                ),
                seq![
                    Reply {
                        peer_mac: src_mac@,
                        peer_ip: src_ip@,
                        peer_port: src_port,
                        seq: INITIAL_SEQ,
                        ack: seq.wrapping_add(1),
                        flags: FLAG_SYN | FLAG_ACK,
                        payload: Seq::empty(),
                    },
                ],
            )
        } else {
            match conn {
                None => (conn, Seq::empty()),
                Some(c) => if c.peer_ip@ != src_ip@ || c.peer_port != src_port {
                    (conn, Seq::empty())
                } else if flags & FLAG_RST != 0 {
                    (None, Seq::empty())
                } else {
                    match c.state {
                        State::SynReceived => if flags & FLAG_ACK != 0 {
                            (Some(Connection { state: State::Established, ..c }), Seq::empty())
                        } else {
                            (conn, Seq::empty())
                        },
                        State::Established => if data.len() > 0 {
                            let their = c.their_seq.wrapping_add(data.len() as u32);
                            let ours_after = c.our_seq.wrapping_add(91);
                            let to = |s: u32, a: u32, f: u8, d: Seq<u8>|
                                Reply {
                                    peer_mac: c.peer_mac@,
                                    peer_ip: c.peer_ip@,
                                    peer_port: c.peer_port,
                                    seq: s,
                                    ack: a,
                                    flags: f,
                                    payload: d,
                                };
                            (
                                Some(
                                    Connection {
                                        state: State::FinWait,
                                        our_seq: ours_after,
                                        their_seq: their,
                                        ..c
                                    },
                                ),
                                seq![
                                    to(c.our_seq, their, FLAG_ACK, Seq::empty()),
                                    to(c.our_seq, their, FLAG_PSH | FLAG_ACK, response()),
                                    to(ours_after, their, FLAG_FIN | FLAG_ACK, Seq::empty()),
                                ],
                            )
                        } else if flags & FLAG_FIN != 0 {
                            let their = c.their_seq.wrapping_add(1);
                            (
                                None,
                                seq![
                                    Reply {
                                        peer_mac: c.peer_mac@,
                                        peer_ip: c.peer_ip@,
                                        peer_port: c.peer_port,
                                        seq: c.our_seq,
                                        ack: their,
                                        flags: FLAG_ACK,
                                        payload: Seq::empty(),
                                    },
                                ],
                            )
                        } else {
                            (conn, Seq::empty())
                        },
                        State::FinWait => if flags & FLAG_ACK != 0 {
                            (None, Seq::empty())
                        } else {
                            (conn, Seq::empty())
                        },
                    }
                },
            }
        }
    }
}

/// The frames for a run of replies.
pub open spec fn reply_frames(our_mac: Seq<u8>, replies: Seq<Reply>) -> Seq<Seq<u8>> {
    replies.map_values(|r: Reply| reply_frame(our_mac, r))
}

pub open spec fn frames_view(frames: Seq<Vec<u8>>) -> Seq<Seq<u8>> {
    frames.map_values(|f: Vec<u8>| f@)
}

/// Takes in one TCP segment from `src_ip` (at `src_mac`) and updates the
/// connection; returns the frames to send, in order (see `handle_spec`).
pub fn handle(
    conn: &mut Option<Connection>,
    our_mac: [u8; 6],
    src_mac: [u8; 6],
    src_ip: [u8; 4],
    packet: &[u8],
) -> (frames: Vec<Vec<u8>>)
    ensures
        *final(conn) == handle_spec(*old(conn), src_mac, src_ip, packet@).0,
        frames_view(frames@) == reply_frames(
            our_mac@,
            handle_spec(*old(conn), src_mac, src_ip, packet@).1,
        ),
{
    broadcast use lemma_segment_sum_fits;

    let mut frames: Vec<Vec<u8>> = Vec::new();
    let ghost out = handle_spec(*old(conn), src_mac, src_ip, packet@);
    if packet.len() < 20 {
        assert(frames_view(frames@) =~= reply_frames(our_mac@, out.1));
        return frames;
    }
    let src_port = read_be_u16(packet, 0);
    let dst_port = read_be_u16(packet, 2);
    if dst_port != LISTEN_PORT {
        assert(frames_view(frames@) =~= reply_frames(our_mac@, out.1));
        return frames;
    }
    let seq = read_be_u32(packet, 4);
    let data_offset = ((packet[12] >> 4u8) as usize) * 4;
    let flags = packet[13];
    let data_len: usize = if data_offset <= packet.len() {
        packet.len() - data_offset
    } else {
        0
    };
    assert(data_len == segment_data(packet@).len());
    let empty: Vec<u8> = Vec::new();
    if flags & FLAG_SYN != 0 && flags & FLAG_ACK == 0 {
        *conn = Some(
            Connection {
                state: State::SynReceived,
                peer_mac: src_mac,
                peer_ip: src_ip,
                peer_port: src_port,
                our_seq: INITIAL_SEQ.wrapping_add(1),
                their_seq: seq.wrapping_add(1),
            },
        );
        frames.push(
            build_segment(
                our_mac,
                src_mac,
                OUR_IP,
                src_ip,
                LISTEN_PORT,
                src_port,
                INITIAL_SEQ,
                seq.wrapping_add(1),
                FLAG_SYN | FLAG_ACK,
                empty.as_slice(),
            ),
        );
        assert(frames_view(frames@) =~= reply_frames(our_mac@, out.1));
        return frames;
    }
    let c = match *conn {
        Some(c) => c,
        None => {
            assert(frames_view(frames@) =~= reply_frames(our_mac@, out.1));
            return frames;
        },
    };
    if !ip_eq(c.peer_ip, src_ip) || c.peer_port != src_port {
        assert(frames_view(frames@) =~= reply_frames(our_mac@, out.1));
        return frames;
    }
    if flags & FLAG_RST != 0 {
        *conn = None;
        assert(frames_view(frames@) =~= reply_frames(our_mac@, out.1));
        return frames;
    }
    match c.state {
        State::SynReceived => {
            if flags & FLAG_ACK != 0 {
                *conn = Some(Connection { state: State::Established, ..c });
            }
        },
        State::Established => {
            if data_len > 0 {
                let their_seq = c.their_seq.wrapping_add(data_len as u32);
                let response = response_bytes();
                let our_seq_after = c.our_seq.wrapping_add(response.len() as u32);
                *conn = Some(
                    Connection {
                        state: State::FinWait,
                        our_seq: our_seq_after,
                        their_seq,
                        ..c
                    },
                );
                frames.push(
                    build_segment(
                        our_mac,
                        c.peer_mac,
                        OUR_IP,
                        c.peer_ip,
                        LISTEN_PORT,
                        c.peer_port,
                        c.our_seq,
                        their_seq,
                        FLAG_ACK,
                        empty.as_slice(),
                    ),
                );
                frames.push(
                    build_segment(
                        our_mac,
                        c.peer_mac,
                        OUR_IP,
                        c.peer_ip,
                        LISTEN_PORT,
                        c.peer_port,
                        c.our_seq,
                        their_seq,
                        FLAG_PSH | FLAG_ACK,
                        response.as_slice(),
                    ),
                );
                frames.push(
                    build_segment(
                        our_mac,
                        c.peer_mac,
                        OUR_IP,
                        c.peer_ip,
                        LISTEN_PORT,
                        c.peer_port,
                        our_seq_after,
                        their_seq,
                        FLAG_FIN | FLAG_ACK,
                        empty.as_slice(),
                    ),
                );
            } else if flags & FLAG_FIN != 0 {
                let their_seq = c.their_seq.wrapping_add(1);
                *conn = None;
                frames.push(
                    build_segment(
                        our_mac,
                        c.peer_mac,
                        OUR_IP,
                        c.peer_ip,
                        LISTEN_PORT,
                        c.peer_port,
                        c.our_seq,
                        their_seq,
                        FLAG_ACK,
                        empty.as_slice(),
                    ),
                );
            }
        },
        State::FinWait => {
            if flags & FLAG_ACK != 0 {
                *conn = None;
            }
        },
    }
    assert(frames_view(frames@) =~= reply_frames(our_mac@, out.1));
    frames
}

/// Where a reply's fields sit in the frame that carries it: the IPv4
/// destination in bytes 30..34 and the acknowledgement number in bytes
/// 42..46, most significant byte first.
pub proof fn lemma_reply_frame_fields(our_mac: Seq<u8>, r: Reply)
    requires
        our_mac.len() == 6,
        r.peer_mac.len() == 6,
        r.peer_ip.len() == 4,
    ensures
        reply_frame(our_mac, r).subrange(30, 34) == r.peer_ip,
        reply_frame(our_mac, r).subrange(42, 46) == u32_be(r.ack),
{
    let t = tcp_segment(OUR_IP@, r.peer_ip, LISTEN_PORT, r.peer_port, r.seq, r.ack, r.flags, r.payload);
    let tu = tcp_unsummed(LISTEN_PORT, r.peer_port, r.seq, r.ack, r.flags, r.payload);
    let e = eth_header_bytes(r.peer_mac, our_mac, ETHERTYPE_IPV4);
    let u = crate::net::ipv4_unsummed((20 + t.len()) as u16, 6, OUR_IP@, r.peer_ip);
    let h = ipv4_header_bytes((20 + t.len()) as u16, 6, OUR_IP@, r.peer_ip);
    assert(e.len() == 14);
    assert(u.len() == 20);
    assert(u.subrange(16, 20) =~= r.peer_ip);
    assert(h =~= u.subrange(0, 10) + u16_be(checksum16_spec(u)) + u.subrange(12, 20));
    assert(h.len() == 20);
    assert(h.subrange(16, 20) =~= u.subrange(16, 20));
    assert(tu.subrange(8, 12) =~= u32_be(r.ack));
    assert(t.subrange(8, 12) =~= tu.subrange(8, 12));
    let f = reply_frame(our_mac, r);
    assert(f == e + h + t);
    assert(f.subrange(30, 34) =~= h.subrange(16, 20));
    assert(f.subrange(42, 46) =~= t.subrange(8, 12));
}

/// Every segment the server sends in answer to a segment from `src_ip` goes
/// back to `src_ip`, and a connection it starts or moves on is with
/// `src_ip`.
pub proof fn lemma_replies_go_to_sender(
    conn: Option<Connection>,
    src_mac: [u8; 6],
    src_ip: [u8; 4],
    p: Seq<u8>,
)
    ensures
        forall|i: int|
            0 <= i < handle_spec(conn, src_mac, src_ip, p).1.len() ==> (#[trigger] handle_spec(
                conn,
                src_mac,
                src_ip,
                p,
            ).1[i]).peer_ip == src_ip@,
        handle_spec(conn, src_mac, src_ip, p).0 != conn ==> match handle_spec(
            conn,
            src_mac,
            src_ip,
            p,
        ).0 {
            Some(n) => n.peer_ip@ == src_ip@,
            None => true,
        },
{
}

/// Data from the connection's peer in `Established` is acknowledged
/// exactly: a segment with `d > 0` bytes after its header moves the
/// connection to `FinWait` expecting `their_seq + d` (mod 2^32) next, and
/// each of the three segments sent back, in its frame too, carries that
/// number as its acknowledgement.
pub proof fn lemma_data_acknowledged(
    c: Connection,
    our_mac: Seq<u8>,
    src_mac: [u8; 6],
    src_ip: [u8; 4],
    p: Seq<u8>,
)
    requires
        our_mac.len() == 6,
        20 <= p.len() <= u32::MAX,
        be_u16(p, 2) == LISTEN_PORT,
        c.state == State::Established,
        c.peer_ip@ == src_ip@,
        c.peer_port == be_u16(p, 0),
        p[13] & FLAG_RST == 0,
        p[13] & FLAG_SYN == 0 || p[13] & FLAG_ACK != 0,
        ((p[12] >> 4u8) as int) * 4 < p.len(),
    ensures
        ({
            let d = p.len() - ((p[12] >> 4u8) as int) * 4;
            let acked = ((c.their_seq + d) % 0x1_0000_0000) as u32;
            let out = handle_spec(Some(c), src_mac, src_ip, p);
            &&& out.0 matches Some(n) && n.state == State::FinWait && n.their_seq == acked
            &&& out.1.len() == 3
            &&& forall|i: int| 0 <= i < 3 ==> (#[trigger] out.1[i]).ack == acked
            &&& forall|i: int|
                0 <= i < 3 ==> (#[trigger] reply_frames(our_mac, out.1)[i]).subrange(42, 46)
                    == u32_be(acked)
        }),
        ({
            let out = handle_spec(Some(c), src_mac, src_ip, p);
            let after = ((c.our_seq + response().len()) % 0x1_0000_0000) as u32;
            &&& out.1[0].seq == c.our_seq && out.1[0].flags == FLAG_ACK && out.1[0].payload.len()
                == 0
            &&& out.1[1].seq == c.our_seq && out.1[1].flags == FLAG_PSH | FLAG_ACK
                && out.1[1].payload == response()
            &&& out.1[2].seq == after && out.1[2].flags == FLAG_FIN | FLAG_ACK
                && out.1[2].payload.len() == 0
            &&& out.0 matches Some(n) && n.our_seq == after
        }),
{
    assert(response().len() == 91) by {
        reveal(response);
    }
    let d = p.len() - ((p[12] >> 4u8) as int) * 4;
    let acked = ((c.their_seq + d) % 0x1_0000_0000) as u32;
    let out = handle_spec(Some(c), src_mac, src_ip, p);
    assert(segment_data(p).len() == d);
    assert((d as u32) as int == d);
    assert(c.their_seq.wrapping_add(d as u32) == acked);
    assert forall|i: int| 0 <= i < 3 implies (#[trigger] reply_frames(our_mac, out.1)[i]).subrange(
        42,
        46,
    ) == u32_be(acked) by {
        lemma_reply_frame_fields(our_mac, out.1[i]);
    }
}

/// A SYN (without ACK) to the server's port starts a connection with its
/// sender, whatever came before: it is answered with one SYN+ACK that
/// acknowledges the SYN (its sequence number plus one) and starts the
/// server's numbers at `INITIAL_SEQ`, which the connection then counts from
/// one past.
pub proof fn lemma_syn_answered(
    conn: Option<Connection>,
    src_mac: [u8; 6],
    src_ip: [u8; 4],
    p: Seq<u8>,
)
    requires
        p.len() >= 20,
        be_u16(p, 2) == LISTEN_PORT,
        p[13] & FLAG_SYN != 0,
        p[13] & FLAG_ACK == 0,
    ensures
        ({
            let out = handle_spec(conn, src_mac, src_ip, p);
            let acked = ((be_u32(p, 4) + 1) % 0x1_0000_0000) as u32;
            &&& out.1.len() == 1
            &&& out.1[0].peer_ip == src_ip@ && out.1[0].peer_mac == src_mac@
            &&& out.1[0].peer_port == be_u16(p, 0)
            &&& out.1[0].seq == INITIAL_SEQ && out.1[0].ack == acked
            &&& out.1[0].flags == FLAG_SYN | FLAG_ACK && out.1[0].payload.len() == 0
            &&& out.0 matches Some(n) && n.state == State::SynReceived && n.peer_ip == src_ip
                && n.peer_port == be_u16(p, 0) && n.their_seq == acked && n.our_seq == INITIAL_SEQ
                + 1
        }),
{
}

} // verus!
