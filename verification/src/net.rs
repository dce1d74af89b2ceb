//! The link, network and ICMP/ARP/UDP layers of the kernel's network stack:
//! the frames it sends and the decisions it takes on the frames it receives.
use vstd::prelude::*;
use crate::tcp::{
    Connection, handle_spec, reply_frames, frames_view, lemma_replies_go_to_sender,
    lemma_reply_frame_fields,
};
use crate::bytes::{
    be_u16, u16_be, push_be_u16, push_all, read_be_u16, group_encoded_lengths, lemma_u16_be_roundtrip,
};

verus! {

broadcast use group_encoded_lengths;

pub const ETHERTYPE_ARP: u16 = 0x0806;

pub const ETHERTYPE_IPV4: u16 = 0x0800;

pub const BROADCAST_MAC: [u8; 6] = [0xff, 0xff, 0xff, 0xff, 0xff, 0xff];

pub const OUR_IP: [u8; 4] = [10, 0, 2, 15];

pub const GATEWAY_IP: [u8; 4] = [10, 0, 2, 2];

/// What the stack has learned: the gateway's MAC address, once it answered ARP.
pub struct NetState {
    pub gateway_mac: Option<[u8; 6]>,
}

/// The sum of the big-endian 16-bit words of `d[..n]`, for even `n`.
pub open spec fn pair_sum(d: Seq<u8>, n: int) -> int
    decreases n,
{
    if n <= 1 {
        0
    } else {
        pair_sum(d, n - 2) + d[n - 2] * 256 + d[n - 1]
    }
}

/// The sum of the big-endian 16-bit words of `d`, an odd last byte counting
/// as the high byte of a word.
pub open spec fn words_sum(d: Seq<u8>) -> int {
    if d.len() % 2 == 1 {
        pair_sum(d, d.len() - 1) + d[d.len() - 1] * 256
    } else {
        pair_sum(d, d.len() as int)
    }
}

/// Folds the carries of a ones'-complement sum back into the low 16 bits
/// until none are left.
pub open spec fn fold16(s: int) -> int
    decreases s,
{
    if s < 0x10000 {
        s
    } else {
        proof {
            lemma_fold_step(s);
        }
        fold16(s % 0x10000 + s / 0x10000)
    }
}

pub proof fn lemma_fold_step(s: int)
    requires
        s >= 0x10000,
    ensures
        0 <= s % 0x10000 + s / 0x10000 < s,
{
    assert(s == 0x10000 * (s / 0x10000) + s % 0x10000) by (nonlinear_arith)
        requires
            s >= 0,
    ;
    assert(s / 0x10000 >= 1) by (nonlinear_arith)
        requires
            s >= 0x10000,
    ;
}

/// The Internet checksum of `d`: the complement of its folded ones'-complement sum.
pub open spec fn checksum16_spec(d: Seq<u8>) -> u16 {
    !(fold16(words_sum(d)) as u16)
}

proof fn lemma_pair_sum_monotone(d: Seq<u8>, i: int, n: int)
    requires
        0 <= i <= n,
        i % 2 == 0,
        n % 2 == 0,
        n <= d.len(),
    ensures
        0 <= pair_sum(d, i) <= pair_sum(d, n),
    decreases n - i,
{
    if i < n {
        lemma_pair_sum_monotone(d, i, n - 2);
    } else {
        lemma_pair_sum_nonneg(d, n);
    }
}

proof fn lemma_pair_sum_nonneg(d: Seq<u8>, n: int)
    ensures
        0 <= pair_sum(d, n),
    decreases n,
{
    if n > 1 {
        lemma_pair_sum_nonneg(d, n - 2);
    }
}

/// The Internet checksum of `data`.
pub fn checksum16(data: &[u8]) -> (r: u16)
    requires
        words_sum(data@) <= u32::MAX,
    ensures
        r == checksum16_spec(data@),
{
    let len = data.len();
    let even = len - len % 2;
    let mut sum: u32 = 0;
    let mut i: usize = 0;
    proof {
        lemma_pair_sum_monotone(data@, 0, even as int);
    }
    while i < even
        invariant
            even == data@.len() - data@.len() % 2,
            i <= even,
            i % 2 == 0,
            sum == pair_sum(data@, i as int),
            words_sum(data@) <= u32::MAX,
        decreases even - i,
    {
        proof {
            lemma_pair_sum_monotone(data@, i + 2, even as int);
            lemma_pair_sum_nonneg(data@, i as int);
        }
        sum = sum + (data[i] as u32) * 256 + data[i + 1] as u32;
        i = i + 2;
    }
    if len % 2 == 1 {
        let last = data[len - 1];
        proof {
            assert(((last as u32) << 8u32) == (last as u32) * 256) by (bit_vector);
        }
        sum = sum + ((last as u32) << 8u32);
    }
    assert(sum == words_sum(data@));
    while sum >> 16u32 != 0
        invariant
            fold16(sum as int) == fold16(words_sum(data@)),
        decreases sum,
    {
        proof {
            let s = sum;
            assert(s >> 16u32 != 0 ==> s >= 0x10000) by (bit_vector);
            assert((s & 0xFFFFu32) == s % 0x10000 && (s >> 16u32) == s / 0x10000) by (bit_vector);
            lemma_fold_step(sum as int);
        }
        sum = (sum & 0xFFFF) + (sum >> 16u32);
    }
    proof {
        let s = sum;
        assert(s >> 16u32 == 0 ==> s < 0x10000) by (bit_vector);
    }
    !(sum as u16)
}

proof fn lemma_pair_sum_bound(d: Seq<u8>, n: int)
    requires
        0 <= n <= d.len(),
    ensures
        pair_sum(d, n) <= 65535 * (n / 2),
    decreases n,
{
    if n > 1 {
        lemma_pair_sum_bound(d, n - 2);
        assert((n - 2) / 2 + 1 == n / 2);
    }
}

/// `(len + k) as u16`, the 16-bit length field of a header of `k` bytes
/// in front of `len` more.
pub fn length_field(len: usize, k: u16) -> (r: u16)
    ensures
        r == (len + k) as u16,
{
    let l = len as u64;
    let t = (l as u16) as u32 + k as u32;
    let r = t as u16;
    proof {
        assert(r == (l + k) as u16) by (bit_vector)
            requires
                t == (l as u16) as u32 + k as u32,
                r == t as u16,
        ;
    }
    r
}

/// Each 16-bit word adds at most 65535.
pub proof fn lemma_words_sum_bound(d: Seq<u8>)
    ensures
        words_sum(d) <= 65535 * ((d.len() + 1) / 2),
        words_sum(d) <= 65535 * d.len(),
{
    let n = d.len() as int;
    if n % 2 == 1 {
        lemma_pair_sum_bound(d, n - 1);
        assert((n - 1) / 2 + 1 == (n + 1) / 2);
    } else {
        lemma_pair_sum_bound(d, n);
        assert(n / 2 == (n + 1) / 2);
    }
    assert(65535 * ((n + 1) / 2) <= 65535 * n) by (nonlinear_arith)
        requires
            0 <= n,
    ;
}

/// Folding keeps a sum's residue modulo 65535, lands in `0..=0xFFFF`, and
/// leaves a positive sum positive.
proof fn lemma_fold16(s: int)
    requires
        s >= 0,
    ensures
        0 <= fold16(s) <= 0xFFFF,
        fold16(s) % 65535 == s % 65535,
        s > 0 ==> fold16(s) > 0,
    decreases s,
{
    if s >= 0x10000 {
        lemma_fold_step(s);
        let q = s / 0x10000;
        let t = s % 0x10000 + q;
        lemma_fold16(t);
        assert(s == 0x10000 * q + s % 0x10000) by (nonlinear_arith)
            requires
                s >= 0,
                q == s / 0x10000,
        ;
        assert(s == 65535 * q + t);
        vstd::arithmetic::div_mod::lemma_mod_multiples_vanish(q, t, 65535);
        assert(q >= 1) by (nonlinear_arith)
            requires
                s >= 0x10000,
                q == s / 0x10000,
        ;
    }
}

/// Replacing the word at the even offset `at` changes the sum of the words by
/// the difference of the two words.
proof fn lemma_pair_sum_replace(s: Seq<u8>, t: Seq<u8>, at: int, n: int)
    requires
        0 <= at,
        at % 2 == 0,
        at + 2 <= s.len(),
        t.len() == s.len(),
        forall|i: int| 0 <= i < s.len() && i != at && i != at + 1 ==> t[i] == s[i],
        0 <= n <= s.len(),
        n % 2 == 0,
    ensures
        pair_sum(t, n) == pair_sum(s, n) + (if at + 2 <= n {
            (t[at] * 256 + t[at + 1]) - (s[at] * 256 + s[at + 1])
        } else {
            0
        }),
    decreases n,
{
    if n > 1 {
        lemma_pair_sum_replace(s, t, at, n - 2);
        if n - 2 != at {
            assert(t[n - 2] == s[n - 2] && t[n - 1] == s[n - 1]);
        }
    }
}

/// The big-endian bytes of `v` read back as the word `v`.
proof fn lemma_u16_be_word(v: u16)
    ensures
        u16_be(v)[0] * 256 + u16_be(v)[1] == v,
{
    reveal(u16_be);
    let hi = (v >> 8u16) as u8;
    let lo = v as u8;
    assert((hi as u32) * 256 + (lo as u32) == v as u32) by (bit_vector)
        requires
            hi == (v >> 8u16) as u8,
            lo == v as u8,
    ;
}

/// The sum of the words of a message is never negative.
proof fn lemma_words_sum_nonneg(d: Seq<u8>)
    ensures
        words_sum(d) >= 0,
{
    if d.len() % 2 == 1 {
        lemma_pair_sum_nonneg(d, d.len() - 1);
    } else {
        lemma_pair_sum_nonneg(d, d.len() as int);
    }
}

/// A message whose zeroed checksum field (at an even offset) was filled in by
/// `with_checksum` sums, folded, to `0xFFFF`: its own checksum is 0, which is
/// how a receiver checks it.
pub proof fn lemma_checksum_verifies(s: Seq<u8>, at: int)
    requires
        0 <= at,
        at % 2 == 0,
        at + 2 <= s.len(),
        s[at] == 0,
        s[at + 1] == 0,
    ensures
        with_checksum(s, at).len() == s.len(),
        fold16(words_sum(with_checksum(s, at))) == 0xFFFF,
        checksum16_spec(with_checksum(s, at)) == 0,
{
    let c = checksum16_spec(s);
    let t = with_checksum(s, at);
    let big = words_sum(s);
    let f = fold16(big);
    lemma_words_sum_nonneg(s);
    lemma_fold16(big);
    lemma_u16_be_word(c);
    assert(t.len() == s.len());
    assert(t[at] == u16_be(c)[0] && t[at + 1] == u16_be(c)[1]);
    assert forall|i: int| 0 <= i < s.len() && i != at && i != at + 1 implies t[i] == s[i] by {
        if i < at {
            assert(t[i] == s.subrange(0, at)[i]);
        } else {
            assert(t[i] == s.subrange(at + 2, s.len() as int)[i - at - 2]);
        }
    }
    if s.len() % 2 == 1 {
        lemma_pair_sum_replace(s, t, at, s.len() - 1);
        assert(t[s.len() - 1] == s[s.len() - 1]);
    } else {
        lemma_pair_sum_replace(s, t, at, s.len() as int);
    }
    let fu = f as u16;
    assert(fu == f);
    assert((!fu) as int == 0xFFFF - fu) by (bit_vector);
    assert(c == 0xFFFF - f);
    let sum2 = words_sum(t);
    assert(sum2 == big + 0xFFFF - f);
    let a = big / 65535;
    let b = f / 65535;
    assert(big == 65535 * a + big % 65535 && f == 65535 * b + f % 65535) by (nonlinear_arith)
        requires
            a == big / 65535,
            b == f / 65535,
    ;
    assert(sum2 == (a - b + 1) * 65535);
    vstd::arithmetic::div_mod::lemma_mod_multiples_basic(a - b + 1, 65535);
    if f == 0xFFFF {
        assert(big != 0);
    }
    assert(sum2 > 0);
    lemma_fold16(sum2);
    let g = fold16(sum2);
    assert(g == 0xFFFF);
    let gu = g as u16;
    assert(!gu == 0u16) by (bit_vector)
        requires
            gu == 0xFFFFu16,
    ;
}

/// The words of a prefix do not see what follows it.
proof fn lemma_pair_sum_prefix(d: Seq<u8>, e: Seq<u8>, n: int)
    requires
        0 <= n <= d.len(),
    ensures
        pair_sum(d + e, n) == pair_sum(d, n),
    decreases n,
{
    if n > 1 {
        lemma_pair_sum_prefix(d, e, n - 2);
        assert((d + e)[n - 2] == d[n - 2] && (d + e)[n - 1] == d[n - 1]);
    }
}

/// Data of even length followed by its own checksum, most significant byte
/// first, checks out: its checksum is 0.
pub proof fn lemma_appended_checksum_verifies(d: Seq<u8>)
    requires
        d.len() % 2 == 0,
    ensures
        checksum16_spec(d + u16_be(checksum16_spec(d))) == 0,
{
    let z = seq![0u8, 0u8];
    let s = d + z;
    let n = d.len() as int;
    lemma_pair_sum_prefix(d, z, n);
    assert(s.len() == n + 2);
    assert(s[n] == 0 && s[n + 1] == 0);
    assert(words_sum(s) == words_sum(d));
    lemma_checksum_verifies(s, n);
    assert(with_checksum(s, n) =~= d + u16_be(checksum16_spec(d)));
}

/// An Ethernet header.
pub open spec fn eth_header_bytes(dst: Seq<u8>, src: Seq<u8>, ethertype: u16) -> Seq<u8> {
    dst + src + u16_be(ethertype)
}

/// Appends an Ethernet header.
fn eth_header(out: &mut Vec<u8>, dst: [u8; 6], src: [u8; 6], ethertype: u16)
    ensures
        final(out)@ == old(out)@ + eth_header_bytes(dst@, src@, ethertype),
{
    push_all(out, dst.as_slice());
    push_all(out, src.as_slice());
    push_be_u16(out, ethertype);
    assert(out@ =~= old(out)@ + eth_header_bytes(dst@, src@, ethertype));
}

/// An IPv4 ARP message for Ethernet addresses.
pub open spec fn arp_bytes(
    op: u16,
    sender_mac: Seq<u8>,
    sender_ip: Seq<u8>,
    target_mac: Seq<u8>,
    target_ip: Seq<u8>,
) -> Seq<u8> {
    u16_be(1) + u16_be(ETHERTYPE_IPV4) + seq![6u8, 4u8] + u16_be(op) + sender_mac + sender_ip
        + target_mac + target_ip
}

/// The broadcast frame asking who has `target_ip`.
pub fn send_arp_request(our_mac: [u8; 6], target_ip: [u8; 4]) -> (r: Vec<u8>)
    ensures
        r@ == eth_header_bytes(BROADCAST_MAC@, our_mac@, ETHERTYPE_ARP) + arp_bytes(
            1,
            our_mac@,
            OUR_IP@,
            seq![0u8, 0u8, 0u8, 0u8, 0u8, 0u8],
            target_ip@,
        ),
{
    let mut frame: Vec<u8> = Vec::new();
    eth_header(&mut frame, BROADCAST_MAC, our_mac, ETHERTYPE_ARP);
    let ghost eth = frame@;
    push_be_u16(&mut frame, 1);
    push_be_u16(&mut frame, ETHERTYPE_IPV4);
    frame.push(6);
    frame.push(4);
    push_be_u16(&mut frame, 1);
    push_all(&mut frame, our_mac.as_slice());
    let ip = OUR_IP;
    push_all(&mut frame, ip.as_slice());
    let zeros: [u8; 6] = [0u8; 6];
    push_all(&mut frame, zeros.as_slice());
    push_all(&mut frame, target_ip.as_slice());
    assert(zeros@ =~= seq![0u8, 0u8, 0u8, 0u8, 0u8, 0u8]);
    assert(frame@ =~= eth + arp_bytes(
        1,
        our_mac@,
        OUR_IP@,
        seq![0u8, 0u8, 0u8, 0u8, 0u8, 0u8],
        target_ip@,
    ));
    frame
}

/// The frame telling `requester` that `OUR_IP` is at `our_mac`.
pub fn send_arp_reply(our_mac: [u8; 6], requester_mac: [u8; 6], requester_ip: [u8; 4]) -> (r:
    Vec<u8>)
    ensures
        r@ == eth_header_bytes(requester_mac@, our_mac@, ETHERTYPE_ARP) + arp_bytes(
            2,
            our_mac@,
            OUR_IP@,
            requester_mac@,
            requester_ip@,
        ),
{
    let mut frame: Vec<u8> = Vec::new();
    eth_header(&mut frame, requester_mac, our_mac, ETHERTYPE_ARP);
    let ghost eth = frame@;
    push_be_u16(&mut frame, 1);
    push_be_u16(&mut frame, ETHERTYPE_IPV4);
    frame.push(6);
    frame.push(4);
    push_be_u16(&mut frame, 2);
    push_all(&mut frame, our_mac.as_slice());
    let ip = OUR_IP;
    push_all(&mut frame, ip.as_slice());
    push_all(&mut frame, requester_mac.as_slice());
    push_all(&mut frame, requester_ip.as_slice());
    assert(frame@ =~= eth + arp_bytes(2, our_mac@, OUR_IP@, requester_mac@, requester_ip@));
    frame
}

/// An IPv4 header with the checksum field still zero.
pub open spec fn ipv4_unsummed(total_len: u16, protocol: u8, src: Seq<u8>, dst: Seq<u8>) -> Seq<
    u8,
> {
    seq![0x45u8, 0u8] + u16_be(total_len) + seq![0u8, 0u8, 0x40u8, 0u8, 64u8, protocol, 0u8, 0u8]
        + src + dst
}

/// `s` with its 16-bit checksum field at `at` set to the checksum of `s`.
pub open spec fn with_checksum(s: Seq<u8>, at: int) -> Seq<u8> {
    s.subrange(0, at) + u16_be(checksum16_spec(s)) + s.subrange(at + 2, s.len() as int)
}

/// An IPv4 header (version 4, 20 bytes, don't-fragment, TTL 64) with its checksum.
pub open spec fn ipv4_header_bytes(total_len: u16, protocol: u8, src: Seq<u8>, dst: Seq<u8>) -> Seq<
    u8,
> {
    with_checksum(ipv4_unsummed(total_len, protocol, src, dst), 10)
}

/// An IPv4 header for a datagram of `total_len` bytes.
pub fn ipv4_header(total_len: u16, protocol: u8, src: [u8; 4], dst: [u8; 4]) -> (r: [u8; 20])
    ensures
        r@ == ipv4_header_bytes(total_len, protocol, src@, dst@),
        checksum16_spec(r@) == 0,
{
    let mut h = [0u8; 20];
    h[0] = 0x45;
    h[2] = (total_len >> 8u16) as u8;
    h[3] = total_len as u8;
    h[6] = 0x40;
    h[8] = 64;
    h[9] = protocol;
    h[12] = src[0];
    h[13] = src[1];
    h[14] = src[2];
    h[15] = src[3];
    h[16] = dst[0];
    h[17] = dst[1];
    h[18] = dst[2];
    h[19] = dst[3];
    proof {
        reveal(u16_be);
        assert(h@ =~= ipv4_unsummed(total_len, protocol, src@, dst@));
        lemma_words_sum_bound(h@);
    }
    let sum = checksum16(h.as_slice());
    let ghost unsummed = h@;
    h[10] = (sum >> 8u16) as u8;
    h[11] = sum as u8;
    proof {
        reveal(u16_be);
        assert(h@ =~= with_checksum(unsummed, 10));
        lemma_checksum_verifies(unsummed, 10);
    }
    h
}

/// An ICMP echo reply with the checksum field still zero.
pub open spec fn echo_unsummed(identifier: u16, sequence: u16, payload: Seq<u8>) -> Seq<u8> {
    seq![0u8, 0u8] + u16_be(0) + u16_be(identifier) + u16_be(sequence) + payload
}

/// An ICMP echo reply with its checksum.
pub open spec fn echo_reply_message(identifier: u16, sequence: u16, payload: Seq<u8>) -> Seq<
    u8,
> {
    with_checksum(echo_unsummed(identifier, sequence, payload), 2)
}

/// An echo reply checks out at its receiver: its checksum over the whole
/// message, checksum field included, is 0.
pub proof fn lemma_echo_reply_verifies(identifier: u16, sequence: u16, payload: Seq<u8>)
    ensures
        checksum16_spec(echo_reply_message(identifier, sequence, payload)) == 0,
{
    reveal(u16_be);
    let m = echo_unsummed(identifier, sequence, payload);
    assert(((0u16 >> 8u16) as u8) == 0u8 && (0u16 as u8) == 0u8) by (bit_vector);
    assert(m[2] == u16_be(0)[0] && m[3] == u16_be(0)[1]);
    lemma_checksum_verifies(m, 2);
}

/// The frame answering a ping from `dst_ip` (at `dst_mac`).
pub open spec fn echo_reply_bytes(
    our_mac: Seq<u8>,
    dst_mac: Seq<u8>,
    dst_ip: Seq<u8>,
    identifier: u16,
    sequence: u16,
    payload: Seq<u8>,
) -> Seq<u8> {
    let msg = echo_reply_message(identifier, sequence, payload);
    eth_header_bytes(dst_mac, our_mac, ETHERTYPE_IPV4) + ipv4_header_bytes(
        (20 + msg.len()) as u16,
        1,
        OUR_IP@,
        dst_ip,
    ) + msg
}

/// The echo reply to a ping from `dst_ip`, carrying back `payload`.
pub fn send_echo_reply(
    our_mac: [u8; 6],
    dst_mac: [u8; 6],
    dst_ip: [u8; 4],
    identifier: u16,
    sequence: u16,
    payload: &[u8],
) -> (r: Vec<u8>)
    requires
        words_sum(echo_unsummed(identifier, sequence, payload@)) <= u32::MAX,
    ensures
        r@ == echo_reply_bytes(our_mac@, dst_mac@, dst_ip@, identifier, sequence, payload@),
{
    let mut msg: Vec<u8> = Vec::new();
    msg.push(0);
    msg.push(0);
    push_be_u16(&mut msg, 0);
    push_be_u16(&mut msg, identifier);
    push_be_u16(&mut msg, sequence);
    push_all(&mut msg, payload);
    assert(msg@ =~= echo_unsummed(identifier, sequence, payload@));
    let sum = checksum16(msg.as_slice());
    let ghost unsummed = msg@;
    msg.set(2, (sum >> 8u16) as u8);
    msg.set(3, sum as u8);
    proof {
        reveal(u16_be);
        assert(msg@ =~= with_checksum(unsummed, 2));
    }
    let ip_header = ipv4_header(length_field(msg.len(), 20), 1, OUR_IP, dst_ip);
    let mut frame: Vec<u8> = Vec::new();
    eth_header(&mut frame, dst_mac, our_mac, ETHERTYPE_IPV4);
    push_all(&mut frame, ip_header.as_slice());
    push_all(&mut frame, msg.as_slice());
    frame
}

/// A UDP datagram without a checksum.
pub open spec fn udp_bytes(src_port: u16, dst_port: u16, payload: Seq<u8>) -> Seq<u8> {
    u16_be(src_port) + u16_be(dst_port) + u16_be((8 + payload.len()) as u16) + u16_be(0) + payload
}

/// The frame carrying a UDP datagram from `OUR_IP` to `dst_ip` through the
/// gateway, or `None` while the gateway's address is unknown.
pub fn send_udp(
    state: &NetState,
    our_mac: [u8; 6],
    dst_ip: [u8; 4],
    dst_port: u16,
    src_port: u16,
    payload: &[u8],
) -> (r: Option<Vec<u8>>)
    ensures
        match state.gateway_mac {
            None => r is None,
            Some(gw) => r matches Some(f) && f@ == eth_header_bytes(gw@, our_mac@, ETHERTYPE_IPV4)
                + ipv4_header_bytes(
                (20 + udp_bytes(src_port, dst_port, payload@).len()) as u16,
                17,
                OUR_IP@,
                dst_ip@,
            ) + udp_bytes(src_port, dst_port, payload@),
        },
{
    let gateway_mac = match state.gateway_mac {
        Some(m) => m,
        None => return None,
    };
    let mut udp: Vec<u8> = Vec::new();
    push_be_u16(&mut udp, src_port);
    push_be_u16(&mut udp, dst_port);
    push_be_u16(&mut udp, length_field(payload.len(), 8));
    push_be_u16(&mut udp, 0);
    push_all(&mut udp, payload);
    assert(udp@ =~= udp_bytes(src_port, dst_port, payload@));
    let ip_header = ipv4_header(length_field(udp.len(), 20), 17, OUR_IP, dst_ip);
    let mut frame: Vec<u8> = Vec::new();
    eth_header(&mut frame, gateway_mac, our_mac, ETHERTYPE_IPV4);
    push_all(&mut frame, ip_header.as_slice());
    push_all(&mut frame, udp.as_slice());
    Some(frame)
}

/// Bytes `off..off + 6` of `p`.
fn mac_at(p: &[u8], off: usize) -> (r: [u8; 6])
    requires
        off + 6 <= p@.len(),
    ensures
        r@ == p@.subrange(off as int, off + 6),
{
    let r = [p[off], p[off + 1], p[off + 2], p[off + 3], p[off + 4], p[off + 5]];
    assert(r@ =~= p@.subrange(off as int, off + 6));
    r
}

/// Bytes `off..off + 4` of `p`.
fn ip_at(p: &[u8], off: usize) -> (r: [u8; 4])
    requires
        off + 4 <= p@.len(),
    ensures
        r@ == p@.subrange(off as int, off + 4),
{
    let r = [p[off], p[off + 1], p[off + 2], p[off + 3]];
    assert(r@ =~= p@.subrange(off as int, off + 4));
    r
}

/// Whether two IPv4 addresses are equal.
pub fn ip_eq(a: [u8; 4], b: [u8; 4]) -> (r: bool)
    ensures
        r == (a@ == b@),
{
    let r = a[0] == b[0] && a[1] == b[1] && a[2] == b[2] && a[3] == b[3];
    proof {
        if r {
            assert(a@ =~= b@);
        }
    }
    r
}

/// Takes in an ARP message: answers requests for `OUR_IP` and learns the
/// gateway's address from its replies. Returns the frame to send, if any.
pub fn handle_arp(state: &mut NetState, our_mac: [u8; 6], packet: &[u8]) -> (r: Option<Vec<u8>>)
    ensures
        ({
            let p = packet@;
            if p.len() < 28 {
                r is None && *final(state) == *old(state)
            } else if be_u16(p, 6) == 1 && p.subrange(24, 28) == OUR_IP@ {
                &&& r matches Some(f) && f@ == eth_header_bytes(
                    p.subrange(8, 14),
                    our_mac@,
                    ETHERTYPE_ARP,
                ) + arp_bytes(2, our_mac@, OUR_IP@, p.subrange(8, 14), p.subrange(14, 18))
                &&& *final(state) == *old(state)
            } else if be_u16(p, 6) == 2 && p.subrange(14, 18) == GATEWAY_IP@ {
                &&& r is None
                &&& final(state).gateway_mac matches Some(m) && m@ == p.subrange(8, 14)
            } else {
                r is None && *final(state) == *old(state)
            }
        }),
{
    if packet.len() < 28 {
        return None;
    }
    let opcode = read_be_u16(packet, 6);
    let sender_mac = mac_at(packet, 8);
    let sender_ip = ip_at(packet, 14);
    let target_ip = ip_at(packet, 24);
    if opcode == 1 && ip_eq(target_ip, OUR_IP) {
        Some(send_arp_reply(our_mac, sender_mac, sender_ip))
    } else if opcode == 2 && ip_eq(sender_ip, GATEWAY_IP) {
        state.gateway_mac = Some(sender_mac);
        None
    } else {
        None
    }
}

/// The header length an IPv4 header claims, in bytes.
pub open spec fn ihl(p: Seq<u8>) -> int {
    ((p[0] & 0x0Fu8) as int) * 4
}

/// The IPv4 datagram `p` is a ping that gets answered: long enough, for
/// `OUR_IP`, protocol ICMP and an echo request with its 8-byte header.
pub open spec fn is_echo_request(p: Seq<u8>) -> bool {
    &&& p.len() >= 20
    &&& p.len() >= ihl(p)
    &&& p.subrange(16, 20) == OUR_IP@
    &&& p[9] == 1u8
    &&& p.len() - ihl(p) >= 8
    &&& p[ihl(p)] == 8u8
}

/// The echo reply to the ping `p` from `src_mac`.
pub open spec fn echo_reply_for(our_mac: Seq<u8>, src_mac: Seq<u8>, p: Seq<u8>) -> Seq<u8> {
    let payload = p.subrange(ihl(p), p.len() as int);
    echo_reply_bytes(
        our_mac,
        src_mac,
        p.subrange(12, 16),
        be_u16(payload, 4),
        be_u16(payload, 6),
        payload.subrange(8, payload.len() as int),
    )
}

/// The 32-bit checksum sum over the reply to ping `p` does not overflow.
pub open spec fn echo_sum_fits(p: Seq<u8>) -> bool {
    let payload = p.subrange(ihl(p), p.len() as int);
    is_echo_request(p) ==> words_sum(
        echo_unsummed(
            be_u16(payload, 4),
            be_u16(payload, 6),
            payload.subrange(8, payload.len() as int),
        ),
    ) <= u32::MAX
}

/// What the stack does with the IPv4 datagram `p` from `src_mac`: the TCP
/// connection afterwards and the frames it sends. Only datagrams for
/// `OUR_IP` count; pings are answered and TCP goes to the TCP server.
pub open spec fn ipv4_spec(
    conn: Option<Connection>,
    our_mac: Seq<u8>,
    src_mac: [u8; 6],
    p: Seq<u8>,
) -> (Option<Connection>, Seq<Seq<u8>>) {
    if p.len() < 20 || p.len() < ihl(p) || p.subrange(16, 20) != OUR_IP@ {
        (conn, Seq::empty())
    } else if is_echo_request(p) {
        (conn, seq![echo_reply_for(our_mac, src_mac@, p)])
    } else if p[9] == 6u8 {
        let src_ip = ip_array(p.subrange(12, 16));
        let t = handle_spec(conn, src_mac, src_ip, p.subrange(ihl(p), p.len() as int));
        (t.0, reply_frames(our_mac, t.1))
    } else {
        (conn, Seq::empty())
    }
}

/// The address whose bytes are `s`.
pub open spec fn ip_array(s: Seq<u8>) -> [u8; 4] {
    choose|a: [u8; 4]| a@ == s
}

/// Takes in an IPv4 datagram from `src_mac`; returns the frames to send.
pub fn handle_ipv4(
    conn: &mut Option<Connection>,
    our_mac: [u8; 6],
    src_mac: [u8; 6],
    packet: &[u8],
) -> (frames: Vec<Vec<u8>>)
    requires
        echo_sum_fits(packet@),
    ensures
        *final(conn) == ipv4_spec(*old(conn), our_mac@, src_mac, packet@).0,
        frames_view(frames@) == ipv4_spec(*old(conn), our_mac@, src_mac, packet@).1,
{
    let mut frames: Vec<Vec<u8>> = Vec::new();
    let ghost out = ipv4_spec(*old(conn), our_mac@, src_mac, packet@);
    if packet.len() < 20 {
        assert(frames_view(frames@) =~= out.1);
        return frames;
    }
    let ihl = ((packet[0] & 0x0F) as usize) * 4;
    if packet.len() < ihl {
        assert(frames_view(frames@) =~= out.1);
        return frames;
    }
    let protocol = packet[9];
    let dst_ip = ip_at(packet, 16);
    if !ip_eq(dst_ip, OUR_IP) {
        assert(frames_view(frames@) =~= out.1);
        return frames;
    }
    let payload = vstd::slice::slice_subrange(packet, ihl, packet.len());
    if protocol == 1 && payload.len() >= 8 && payload[0] == 8 {
        let src_ip = ip_at(packet, 12);
        let identifier = read_be_u16(payload, 4);
        let sequence = read_be_u16(payload, 6);
        let rest = vstd::slice::slice_subrange(payload, 8, payload.len());
        frames.push(send_echo_reply(our_mac, src_mac, src_ip, identifier, sequence, rest));
    }
    if protocol == 6 {
        let src_ip = ip_at(packet, 12);
        proof {
            assert(src_ip@ == packet@.subrange(12, 16));
            let a = ip_array(packet@.subrange(12, 16));
            assert(a@ == packet@.subrange(12, 16));
            assert(a@ =~= src_ip@);
            assert(a == src_ip);
        }
        frames = crate::tcp::handle(conn, our_mac, src_mac, src_ip, payload);
    }
    assert(frames_view(frames@) =~= out.1);
    frames
}

/// The address a sequence of four bytes names is those bytes.
proof fn lemma_ip_array(s: Seq<u8>)
    requires
        s.len() == 4,
    ensures
        ip_array(s)@ == s,
{
    let a: [u8; 4] = [s[0], s[1], s[2], s[3]];
    assert(a@ =~= s);
}

/// TCP is answered to whoever spoke: for a TCP datagram to `OUR_IP`, every
/// frame sent back carries as its IPv4 destination (bytes 30..34) the
/// datagram's source address (its bytes 12..16), and a connection started
/// or moved on by it is with that address.
pub proof fn lemma_tcp_replies_to_source(
    conn: Option<Connection>,
    our_mac: Seq<u8>,
    src_mac: [u8; 6],
    p: Seq<u8>,
)
    requires
        our_mac.len() == 6,
        p.len() >= 20,
        p.len() >= ihl(p),
        p.subrange(16, 20) == OUR_IP@,
        p[9] == 6u8,
    ensures
        forall|i: int|
            0 <= i < ipv4_spec(conn, our_mac, src_mac, p).1.len() ==> (#[trigger] ipv4_spec(
                conn,
                our_mac,
                src_mac,
                p,
            ).1[i]).subrange(30, 34) == p.subrange(12, 16),
        ipv4_spec(conn, our_mac, src_mac, p).0 != conn ==> match ipv4_spec(
            conn,
            our_mac,
            src_mac,
            p,
        ).0 {
            Some(n) => n.peer_ip@ == p.subrange(12, 16),
            None => true,
        },
{
    let src = p.subrange(12, 16);
    lemma_ip_array(src);
    let src_ip = ip_array(src);
    let seg = p.subrange(ihl(p), p.len() as int);
    let t = handle_spec(conn, src_mac, src_ip, seg);
    lemma_replies_go_to_sender(conn, src_mac, src_ip, seg);
    assert(!is_echo_request(p));
    assert forall|i: int| 0 <= i < ipv4_spec(conn, our_mac, src_mac, p).1.len() implies (
    #[trigger] ipv4_spec(conn, our_mac, src_mac, p).1[i]).subrange(30, 34) == src by {
        assert(t.1[i].peer_ip == src_ip@);
        assert(t.1[i].peer_mac.len() == 6);
        lemma_reply_frame_fields(our_mac, t.1[i]);
    }
}

/// Two bytes read as a big-endian number and written back are the same two bytes.
proof fn lemma_be_u16_written_back(q: Seq<u8>, k: int)
    requires
        0 <= k,
        k + 2 <= q.len(),
    ensures
        u16_be(be_u16(q, k)) == q.subrange(k, k + 2),
{
    reveal(u16_be);
    let (b0, b1) = (q[k], q[k + 1]);
    let v = be_u16(q, k);
    assert(((((b0 as u16) << 8u16) | (b1 as u16)) >> 8u16) as u8 == b0 && ((((b0 as u16) << 8u16)
        | (b1 as u16)) as u8) == b1) by (bit_vector);
    assert(u16_be(v) =~= q.subrange(k, k + 2));
}

/// A ping to `OUR_IP` is answered with one frame, to the pinging host and
/// its address: Ethernet destination the sender's MAC, IPv4 destination the
/// ping's source address (bytes 12..16), ICMP type 0 (echo reply), and the
/// request's identifier, sequence number and data echoed back unchanged;
/// the TCP connection is left alone.
pub proof fn lemma_ping_echoed(
    conn: Option<Connection>,
    our_mac: Seq<u8>,
    src_mac: [u8; 6],
    p: Seq<u8>,
)
    requires
        our_mac.len() == 6,
        is_echo_request(p),
    ensures
        ({
            let out = ipv4_spec(conn, our_mac, src_mac, p);
            let f = out.1[0];
            &&& out.0 == conn
            &&& out.1.len() == 1
            &&& f.subrange(0, 6) == src_mac@
            &&& f.subrange(30, 34) == p.subrange(12, 16)
            &&& f[34] == 0u8
            &&& f.subrange(38, f.len() as int) == p.subrange(ihl(p) + 4, p.len() as int)
        }),
{
    let q = p.subrange(ihl(p), p.len() as int);
    let id = be_u16(q, 4);
    let sq = be_u16(q, 6);
    let data = q.subrange(8, q.len() as int);
    let m = echo_unsummed(id, sq, data);
    let msg = echo_reply_message(id, sq, data);
    let src = p.subrange(12, 16);
    let e = eth_header_bytes(src_mac@, our_mac, ETHERTYPE_IPV4);
    let u = ipv4_unsummed((20 + msg.len()) as u16, 1, OUR_IP@, src);
    let h = ipv4_header_bytes((20 + msg.len()) as u16, 1, OUR_IP@, src);
    let f = echo_reply_bytes(our_mac, src_mac@, src, id, sq, data);
    assert(f == echo_reply_for(our_mac, src_mac@, p));
    assert(e.len() == 14);
    assert(u.len() == 20);
    assert(h =~= u.subrange(0, 10) + u16_be(checksum16_spec(u)) + u.subrange(12, 20));
    assert(msg =~= m.subrange(0, 2) + u16_be(checksum16_spec(m)) + m.subrange(4, m.len() as int));
    assert(f == e + h + msg);
    assert(f.subrange(0, 6) =~= src_mac@);
    assert(f.subrange(30, 34) =~= u.subrange(16, 20));
    assert(u.subrange(16, 20) =~= src);
    assert(f[34] == msg[0]);
    lemma_be_u16_written_back(q, 4);
    lemma_be_u16_written_back(q, 6);
    assert(q.subrange(4, q.len() as int) =~= q.subrange(4, 6) + q.subrange(6, 8) + data);
    assert(m.subrange(4, m.len() as int) =~= u16_be(id) + u16_be(sq) + data);
    assert(f.subrange(38, f.len() as int) =~= msg.subrange(4, msg.len() as int));
    assert(q.subrange(4, q.len() as int) =~= p.subrange(ihl(p) + 4, p.len() as int));
}

/// The size of the buffer that received frames are read into.
pub const FRAME_BUFFER_LEN: usize = 1600;

/// A datagram that fits in the receive buffer never overflows the 32-bit
/// checksum sum of its echo reply.
pub proof fn lemma_echo_sum_fits(p: Seq<u8>)
    requires
        p.len() <= FRAME_BUFFER_LEN,
    ensures
        echo_sum_fits(p),
{
    if is_echo_request(p) {
        let payload = p.subrange(ihl(p), p.len() as int);
        let m = echo_unsummed(
            be_u16(payload, 4),
            be_u16(payload, 6),
            payload.subrange(8, payload.len() as int),
        );
        lemma_words_sum_bound(m);
        assert(m.len() <= FRAME_BUFFER_LEN);
        assert(65535 * m.len() <= 65535 * 1600) by (nonlinear_arith)
            requires
                m.len() <= 1600,
        ;
    }
}

/// The address whose bytes are `s`.
pub open spec fn mac_array(s: Seq<u8>) -> [u8; 6] {
    choose|a: [u8; 6]| a@ == s
}

/// What the stack does with the ARP message `p`: the state afterwards and
/// the frames it sends.
pub open spec fn arp_spec(state: NetState, our_mac: Seq<u8>, p: Seq<u8>) -> (NetState, Seq<Seq<u8>>) {
    if p.len() < 28 {
        (state, Seq::empty())
    } else if be_u16(p, 6) == 1 && p.subrange(24, 28) == OUR_IP@ {
        (
            state,
            seq![
                eth_header_bytes(p.subrange(8, 14), our_mac, ETHERTYPE_ARP) + arp_bytes(
                    2,
                    our_mac,
                    OUR_IP@,
                    p.subrange(8, 14),
                    p.subrange(14, 18),
                ),
            ],
        )
    } else if be_u16(p, 6) == 2 && p.subrange(14, 18) == GATEWAY_IP@ {
        (NetState { gateway_mac: Some(mac_array(p.subrange(8, 14))) }, Seq::empty())
    } else {
        (state, Seq::empty())
    }
}

/// What the stack does with the received Ethernet frame `f`: the state and
/// TCP connection afterwards, and the frames it sends. Frames shorter than
/// an Ethernet header and other ethertypes are dropped.
pub open spec fn frame_spec(
    state: NetState,
    conn: Option<Connection>,
    our_mac: Seq<u8>,
    f: Seq<u8>,
) -> (NetState, Option<Connection>, Seq<Seq<u8>>) {
    let body = f.subrange(14, f.len() as int);
    if f.len() < 14 {
        (state, conn, Seq::empty())
    } else if be_u16(f, 12) == ETHERTYPE_ARP {
        let t = arp_spec(state, our_mac, body);
        (t.0, conn, t.1)
    } else if be_u16(f, 12) == ETHERTYPE_IPV4 {
        let t = ipv4_spec(conn, our_mac, mac_array(f.subrange(6, 12)), body);
        (state, t.0, t.1)
    } else {
        (state, conn, Seq::empty())
    }
}

/// Takes in one received Ethernet frame; returns the frames to send back.
pub fn handle_frame(
    state: &mut NetState,
    conn: &mut Option<Connection>,
    our_mac: [u8; 6],
    frame: &[u8],
) -> (out: Vec<Vec<u8>>)
    requires
        frame@.len() <= FRAME_BUFFER_LEN,
    ensures
        *final(state) == frame_spec(*old(state), *old(conn), our_mac@, frame@).0,
        *final(conn) == frame_spec(*old(state), *old(conn), our_mac@, frame@).1,
        frames_view(out@) == frame_spec(*old(state), *old(conn), our_mac@, frame@).2,
{
    let ghost spec = frame_spec(*old(state), *old(conn), our_mac@, frame@);
    let mut out: Vec<Vec<u8>> = Vec::new();
    if frame.len() < 14 {
        assert(frames_view(out@) =~= spec.2);
        return out;
    }
    let src_mac = mac_at(frame, 6);
    let ethertype = read_be_u16(frame, 12);
    let body = vstd::slice::slice_subrange(frame, 14, frame.len());
    if ethertype == ETHERTYPE_ARP {
        let reply = handle_arp(state, our_mac, body);
        match reply {
            Some(f) => out.push(f),
            None => {},
        }
        proof {
            let p = body@;
            if p.len() >= 28 && !(be_u16(p, 6) == 1 && p.subrange(24, 28) == OUR_IP@) && be_u16(p, 6)
                == 2 && p.subrange(14, 18) == GATEWAY_IP@ {
                let m = final(state).gateway_mac->0;
                let a = mac_array(p.subrange(8, 14));
                assert(a@ =~= m@);
                assert(a == m);
            }
        }
        assert(frames_view(out@) =~= spec.2);
        out
    } else if ethertype == ETHERTYPE_IPV4 {
        proof {
            lemma_echo_sum_fits(body@);
            let a = mac_array(frame@.subrange(6, 12));
            assert(a@ =~= src_mac@);
            assert(a == src_mac);
        }
        handle_ipv4(conn, our_mac, src_mac, body)
    } else {
        assert(frames_view(out@) =~= spec.2);
        out
    }
}

/// The UDP port (discard) the greeting datagram goes to on the gateway.
pub const DEMO_DST_PORT: u16 = 9;

/// The UDP port the greeting datagram comes from.
pub const DEMO_SRC_PORT: u16 = 4444;

/// The greeting: `"hello from oxide\n"` in ASCII.
pub const DEMO_PAYLOAD: [u8; 17] = [
    104, 101, 108, 108, 111, 32, 102, 114, 111, 109, 32, 111, 120, 105, 100, 101, 10,
];

/// How far the receive loop is with its one-time work: logging the
/// gateway's address, then greeting the gateway with one UDP datagram.
pub struct DemoProgress {
    pub announced_gateway: bool,
    pub sent_demo_udp: bool,
}

impl DemoProgress {
    /// Nothing done yet.
    pub fn new() -> (r: Self)
        ensures
            !r.announced_gateway,
            !r.sent_demo_udp,
    {
        DemoProgress { announced_gateway: false, sent_demo_udp: false }
    }

    /// The loop's decision after each received frame. Returns the gateway
    /// address to log, the first time it is known, and whether to send the
    /// greeting now: once, right after the gateway became known. The greeting
    /// is never sent before the gateway is announced, and never twice.
    pub fn step(&mut self, state: &NetState) -> (r: (Option<[u8; 6]>, bool))
        requires
            old(self).sent_demo_udp ==> old(self).announced_gateway,
        ensures
            r.0 == (if !old(self).announced_gateway { state.gateway_mac } else { None }),
            final(self).announced_gateway == (old(self).announced_gateway
                || state.gateway_mac is Some),
            r.1 == (final(self).announced_gateway && !old(self).sent_demo_udp),
            final(self).sent_demo_udp == (old(self).sent_demo_udp || r.1),
            final(self).sent_demo_udp ==> final(self).announced_gateway,
    {
        let mut announce: Option<[u8; 6]> = None;
        if !self.announced_gateway {
            match state.gateway_mac {
                Some(mac) => {
                    self.announced_gateway = true;
                    announce = Some(mac);
                },
                None => {},
            }
        }
        let mut send = false;
        if self.announced_gateway && !self.sent_demo_udp {
            self.sent_demo_udp = true;
            send = true;
        }
        (announce, send)
    }
}

/// The greeting datagram to the gateway, once its address is known.
pub fn demo_datagram(state: &NetState, our_mac: [u8; 6]) -> (r: Option<Vec<u8>>)
    ensures
        match state.gateway_mac {
            None => r is None,
            Some(gw) => r matches Some(f) && f@ == eth_header_bytes(gw@, our_mac@, ETHERTYPE_IPV4)
                + ipv4_header_bytes(
                (20 + udp_bytes(DEMO_SRC_PORT, DEMO_DST_PORT, DEMO_PAYLOAD@).len()) as u16,
                17,
                OUR_IP@,
                GATEWAY_IP@,
            ) + udp_bytes(DEMO_SRC_PORT, DEMO_DST_PORT, DEMO_PAYLOAD@),
        },
{
    send_udp(state, our_mac, GATEWAY_IP, DEMO_DST_PORT, DEMO_SRC_PORT, DEMO_PAYLOAD.as_slice())
}

} // verus!
