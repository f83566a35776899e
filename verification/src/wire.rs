//! IPv4 and TCP framing.
//!
//! Inbound datagrams are split into the fields the engine reads; outbound
//! segments are framed as a 20-byte IPv4 header, a TCP header and the
//! payload. Header parsing, serialisation and checksums are done by
//! `etherparse`; the functions in this module decide what is handed to it
//! and what is made of its answers.

use crate::conn_id::TcpConnectionId;
use etherparse::IpNumber;
use etherparse::Ipv4Header;
use etherparse::TcpHeader;
use vstd::prelude::*;
use vstd::slice::slice_to_vec;

verus! {

/// TCP flag: the sender has finished sending.
pub const FLAG_FIN: u8 = 0x01;

/// TCP flag: synchronise sequence numbers.
pub const FLAG_SYN: u8 = 0x02;

/// TCP flag: reset the connection.
pub const FLAG_RST: u8 = 0x04;

/// TCP flag: push the data to the application.
pub const FLAG_PSH: u8 = 0x08;

/// TCP flag: the acknowledgment number is valid.
pub const FLAG_ACK: u8 = 0x10;

/// Maximum segment size announced in the SYN and used to cut outbound data.
pub const MSS: u16 = 1360;

/// Window-scale shift announced in the SYN.
pub const TCP_WINDOW_SCALE_SHIFT: u8 = 7;

/// Window field of every outbound segment.
pub const ADVERTISED_WINDOW: u16 = 65535;

/// Time-to-live of every outbound datagram.
pub const DEFAULT_TTL: u8 = 64;

/// IP protocol number of TCP.
pub const PROTOCOL_TCP: u8 = 6;

/// Largest IPv4 payload (TCP header and data) that fits one datagram.
pub const MAX_IP_PAYLOAD: usize = 65515;

/// The 16-bit value whose big-endian bytes are `hi`, `lo`.
pub open spec fn be16(hi: u8, lo: u8) -> u16 {
    (hi as int * 0x100 + lo as int) as u16
}

/// The 32-bit value whose big-endian bytes are `b0` to `b3`.
pub open spec fn be32(b0: u8, b1: u8, b2: u8, b3: u8) -> u32 {
    (b0 as int * 0x100_0000 + b1 as int * 0x1_0000 + b2 as int * 0x100 + b3 as int) as u32
}

/// The two big-endian bytes of `x`.
pub open spec fn u16_be(x: u16) -> Seq<u8> {
    seq![(x as int / 0x100) as u8, (x as int % 0x100) as u8]
}

/// The four big-endian bytes of `x`.
pub open spec fn u32_be(x: u32) -> Seq<u8> {
    seq![
        (x as int / 0x100_0000) as u8,
        (x as int / 0x1_0000 % 0x100) as u8,
        (x as int / 0x100 % 0x100) as u8,
        (x as int % 0x100) as u8,
    ]
}

/// Whether the bit of weight `weight` (a power of two) is set in `byte`.
pub open spec fn bit_set(byte: u8, weight: int) -> bool {
    byte as int / weight % 2 == 1
}

/// What the engine reads from an IPv4 header.
#[derive(Debug, Clone, Copy)]
pub struct Ipv4Info {
    pub protocol: u8,
    pub source: u32,
    pub destination: u32,
}

/// Header length in bytes that the first byte of an IPv4 header announces.
pub open spec fn ipv4_header_len(b: Seq<u8>) -> int {
    (b[0] as int % 16) * 4
}

/// Whether `b` starts with a complete IPv4 header: at least 20 bytes,
/// version 4, a header length of at least five words, all of it present.
pub open spec fn ipv4_header_ok(b: Seq<u8>) -> bool {
    &&& b.len() >= 20
    &&& b[0] as int / 16 == 4
    &&& b[0] as int % 16 >= 5
    &&& b.len() >= ipv4_header_len(b)
}

/// Protocol and addresses of the IPv4 header at the start of `b`.
pub open spec fn ipv4_info(b: Seq<u8>) -> Ipv4Info {
    Ipv4Info {
        protocol: b[9],
        source: be32(b[12], b[13], b[14], b[15]),
        destination: be32(b[16], b[17], b[18], b[19]),
    }
}

/// `etherparse::Ipv4Header::from_slice`: succeeds exactly on a slice that
/// starts with a complete version-4 header, and then hands back the
/// protocol number, the two addresses and everything after the header
/// (not cut to the header's total length).
#[verifier::external_body]
fn ipv4_from_slice<'a>(packet: &'a [u8]) -> (r: Option<(Ipv4Info, &'a [u8])>)
    ensures
        r is Some <==> ipv4_header_ok(packet@),
        r matches Some((info, rest)) ==> info == ipv4_info(packet@) && rest@
            == packet@.subrange(ipv4_header_len(packet@), packet@.len() as int),
{
    let (h, rest) = Ipv4Header::from_slice(packet).ok()?;
    let source = u32::from_be_bytes(h.source);
    let destination = u32::from_be_bytes(h.destination);
    Some((Ipv4Info { protocol: h.protocol.0, source, destination }, rest))
}

/// What the engine reads from a TCP header.
#[derive(Debug, Clone, Copy)]
pub struct TcpInfo {
    pub source_port: u16,
    pub destination_port: u16,
    pub sequence_number: u32,
    pub acknowledgment_number: u32,
    pub syn: bool,
    pub ack: bool,
    pub fin: bool,
    pub rst: bool,
    pub psh: bool,
}

/// Header length in bytes that the data-offset field of a TCP header
/// announces.
pub open spec fn tcp_header_len(b: Seq<u8>) -> int {
    (b[12] as int / 16) * 4
}

/// Whether `b` starts with a complete TCP header: at least 20 bytes, a data
/// offset of at least five words, all of it present.
pub open spec fn tcp_header_ok(b: Seq<u8>) -> bool {
    &&& b.len() >= 20
    &&& tcp_header_len(b) >= 20
    &&& b.len() >= tcp_header_len(b)
}

/// Ports, sequence numbers and flags of the TCP header at the start of `b`.
pub open spec fn tcp_info(b: Seq<u8>) -> TcpInfo {
    TcpInfo {
        source_port: be16(b[0], b[1]),
        destination_port: be16(b[2], b[3]),
        sequence_number: be32(b[4], b[5], b[6], b[7]),
        acknowledgment_number: be32(b[8], b[9], b[10], b[11]),
        syn: bit_set(b[13], 2),
        ack: bit_set(b[13], 16),
        fin: bit_set(b[13], 1),
        rst: bit_set(b[13], 4),
        psh: bit_set(b[13], 8),
    }
}

/// `etherparse::TcpHeader::from_slice`: succeeds exactly on a slice that
/// starts with a complete TCP header, and then hands back its ports,
/// sequence and acknowledgment numbers, the five flags the engine reads,
/// and everything after the header and its options.
#[verifier::external_body]
fn tcp_from_slice<'a>(segment: &'a [u8]) -> (r: Option<(TcpInfo, &'a [u8])>)
    ensures
        r is Some <==> tcp_header_ok(segment@),
        r matches Some((info, rest)) ==> info == tcp_info(segment@) && rest@
            == segment@.subrange(tcp_header_len(segment@), segment@.len() as int),
{
    let (h, rest) = TcpHeader::from_slice(segment).ok()?;
    let info = TcpInfo {
        source_port: h.source_port,
        destination_port: h.destination_port,
        sequence_number: h.sequence_number,
        acknowledgment_number: h.acknowledgment_number,
        syn: h.syn,
        ack: h.ack,
        fin: h.fin,
        rst: h.rst,
        psh: h.psh,
    };
    Some((info, rest))
}

/// The fields of an outbound TCP header. Flags the stack never sets are not
/// listed; the urgent pointer is always zero.
#[derive(Debug, Clone, Copy)]
pub struct TcpHeaderFields {
    pub source_port: u16,
    pub destination_port: u16,
    pub sequence_number: u32,
    pub acknowledgment_number: u32,
    pub syn: bool,
    pub ack: bool,
    pub fin: bool,
    pub rst: bool,
    pub psh: bool,
    pub window_size: u16,
    pub checksum: u16,
}

/// The flags byte of a TCP header with the given fields.
pub open spec fn flags_byte(h: TcpHeaderFields) -> u8 {
    ((if h.fin { 1int } else { 0 }) + (if h.syn { 2int } else { 0 }) + (if h.rst { 4int } else { 0 })
        + (if h.psh { 8int } else { 0 }) + (if h.ack { 16int } else { 0 })) as u8
}

/// A TCP header on the wire: the fixed 20 bytes, then the options. The data
/// offset counts the options, whose length is a multiple of four.
pub open spec fn tcp_header_wire(h: TcpHeaderFields, options: Seq<u8>) -> Seq<u8> {
    u16_be(h.source_port) + u16_be(h.destination_port) + u32_be(h.sequence_number) + u32_be(
        h.acknowledgment_number,
    ) + seq![((5 + options.len() as int / 4) * 16) as u8, flags_byte(h)] + u16_be(h.window_size)
        + u16_be(h.checksum) + seq![0u8, 0u8] + options
}

/// `etherparse::TcpHeader::write` on a header made by `TcpHeader::new` with
/// the given fields and raw options: the serialised header, with the
/// checksum field as given (it is not computed here).
#[verifier::external_body]
fn tcp_header_bytes(h: &TcpHeaderFields, options: &[u8]) -> (out: Vec<u8>)
    requires
        options@.len() <= 40,
        options@.len() % 4 == 0,
    ensures
        out@ == tcp_header_wire(*h, options@),
{
    let mut t = TcpHeader::new(h.source_port, h.destination_port, h.sequence_number, h.window_size);
    t.acknowledgment_number = h.acknowledgment_number;
    t.syn = h.syn;
    t.ack = h.ack;
    t.fin = h.fin;
    t.rst = h.rst;
    t.psh = h.psh;
    t.checksum = h.checksum;
    let _ = t.set_options_raw(options);
    let mut out = Vec::new();
    let _ = t.write(&mut out);
    out
}

/// The TCP checksum that `etherparse` computes for a header with the given
/// fields and options, between the two IPv4 addresses, over `payload`. The
/// `checksum` field of `h` does not enter.
pub uninterp spec fn tcp_checksum_ipv4(
    h: TcpHeaderFields,
    options: Seq<u8>,
    source: u32,
    destination: u32,
    payload: Seq<u8>,
) -> u16;

/// `etherparse::TcpHeader::calc_checksum_ipv4`: fails exactly when header
/// and payload together exceed 65535 bytes; otherwise the checksum over the
/// IPv4 pseudo-header, the header and the payload.
#[verifier::external_body]
fn tcp_checksum(
    h: &TcpHeaderFields,
    options: &[u8],
    source: u32,
    destination: u32,
    payload: &[u8],
) -> (r: Option<u16>)
    requires
        options@.len() <= 40,
        options@.len() % 4 == 0,
    ensures
        r is Some <==> 20 + options@.len() + payload@.len() <= 65535,
        r matches Some(c) ==> c == tcp_checksum_ipv4(*h, options@, source, destination, payload@),
{
    let mut t = TcpHeader::new(h.source_port, h.destination_port, h.sequence_number, h.window_size);
    t.acknowledgment_number = h.acknowledgment_number;
    t.syn = h.syn;
    t.ack = h.ack;
    t.fin = h.fin;
    t.rst = h.rst;
    t.psh = h.psh;
    let _ = t.set_options_raw(options);
    let ip = Ipv4Header {
        source: source.to_be_bytes(),
        destination: destination.to_be_bytes(),
        ..Default::default()
    };
    t.calc_checksum_ipv4(&ip, payload).ok()
}

/// The header checksum that `etherparse` computes for the option-less IPv4
/// header it makes from these values.
pub uninterp spec fn ipv4_header_checksum(
    payload_len: u16,
    time_to_live: u8,
    protocol: u8,
    source: u32,
    destination: u32,
) -> u16;

/// An option-less IPv4 header on the wire: version 4, five words, no
/// service bits, identification zero, "don't fragment" set, offset zero.
pub open spec fn ipv4_header_wire(
    payload_len: u16,
    time_to_live: u8,
    protocol: u8,
    source: u32,
    destination: u32,
    checksum: u16,
) -> Seq<u8> {
    seq![0x45u8, 0u8] + u16_be((payload_len + 20) as u16) + seq![
        0u8,
        0u8,
        0x40u8,
        0u8,
        time_to_live,
        protocol,
    ] + u16_be(checksum) + u32_be(source) + u32_be(destination)
}

/// `etherparse::Ipv4Header::new` followed by `Ipv4Header::write`: fails
/// exactly when the payload length exceeds 65515; otherwise the 20 header
/// bytes, with the header checksum that `write` computes.
#[verifier::external_body]
fn ipv4_header_bytes(
    payload_len: u16,
    time_to_live: u8,
    protocol: u8,
    source: u32,
    destination: u32,
) -> (r: Option<Vec<u8>>)
    ensures
        r is Some <==> payload_len <= 65515,
        r matches Some(out) ==> out@ == ipv4_header_wire(
            payload_len,
            time_to_live,
            protocol,
            source,
            destination,
            ipv4_header_checksum(payload_len, time_to_live, protocol, source, destination),
        ),
{
    let src = source.to_be_bytes();
    let dst = destination.to_be_bytes();
    let h = Ipv4Header::new(payload_len, time_to_live, IpNumber(protocol), src, dst).ok()?;
    let mut out = Vec::new();
    h.write(&mut out).ok()?;
    Some(out)
}

/// The option block of every SYN: MSS, one no-op, window scale.
pub open spec fn syn_options() -> Seq<u8> {
    seq![
        2u8,
        4u8,
        (MSS as int / 0x100) as u8,
        (MSS as int % 0x100) as u8,
        1u8,
        3u8,
        3u8,
        TCP_WINDOW_SCALE_SHIFT,
    ]
}

/// Whether `flag` (one of the `FLAG_` constants) is set in `flags`.
pub open spec fn has_flag(flags: u8, flag: u8) -> bool {
    flags & flag != 0
}

/// The options that go with a flags byte: the SYN block on a SYN, none
/// otherwise.
pub open spec fn options_for(flags: u8) -> Seq<u8> {
    if has_flag(flags, FLAG_SYN) {
        syn_options()
    } else {
        Seq::empty()
    }
}

/// The header fields of an outbound segment of connection `id`.
pub open spec fn header_fields(id: TcpConnectionId, seq: u32, ack: u32, flags: u8, checksum: u16)
    -> TcpHeaderFields {
    TcpHeaderFields {
        source_port: id.local_port,
        destination_port: id.remote_port,
        sequence_number: seq,
        acknowledgment_number: ack,
        syn: has_flag(flags, FLAG_SYN),
        ack: has_flag(flags, FLAG_ACK),
        fin: has_flag(flags, FLAG_FIN),
        rst: has_flag(flags, FLAG_RST),
        psh: has_flag(flags, FLAG_PSH),
        window_size: ADVERTISED_WINDOW,
        checksum,
    }
}

/// Length of the TCP header and payload of a segment.
pub open spec fn ip_payload_len(flags: u8, payload: Seq<u8>) -> int {
    20 + options_for(flags).len() as int + payload.len() as int
}

/// The checksum field of the segment: computed over the header with that
/// field zero.
pub open spec fn segment_checksum(
    id: TcpConnectionId,
    seq: u32,
    ack: u32,
    flags: u8,
    payload: Seq<u8>,
) -> u16 {
    tcp_checksum_ipv4(
        header_fields(id, seq, ack, flags, 0),
        options_for(flags),
        id.local_addr,
        id.remote_addr,
        payload,
    )
}

/// The datagram that carries a segment: IPv4 header, TCP header, payload.
pub open spec fn packet_wire(id: TcpConnectionId, seq: u32, ack: u32, flags: u8, payload: Seq<u8>)
    -> Seq<u8> {
    let len = ip_payload_len(flags, payload) as u16;
    ipv4_header_wire(
        len,
        DEFAULT_TTL,
        PROTOCOL_TCP,
        id.local_addr,
        id.remote_addr,
        ipv4_header_checksum(len, DEFAULT_TTL, PROTOCOL_TCP, id.local_addr, id.remote_addr),
    ) + tcp_header_wire(
        header_fields(id, seq, ack, flags, segment_checksum(id, seq, ack, flags, payload)),
        options_for(flags),
    ) + payload
}

/// The datagram for a segment, if it fits one: TCP header and payload may
/// take at most 65515 bytes.
pub open spec fn build_spec(id: TcpConnectionId, seq: u32, ack: u32, flags: u8, payload: Seq<u8>)
    -> Option<Seq<u8>> {
    if ip_payload_len(flags, payload) <= MAX_IP_PAYLOAD {
        Some(packet_wire(id, seq, ack, flags, payload))
    } else {
        None
    }
}

/// The SYN option block.
pub fn syn_option_block() -> (options: Vec<u8>)
    ensures
        options@ == syn_options(),
        options@.len() == 8,
{
    let hi: u8 = (MSS / 0x100) as u8;
    let lo: u8 = (MSS % 0x100) as u8;
    let options: Vec<u8> = vec![2u8, 4u8, hi, lo, 1u8, 3u8, 3u8, TCP_WINDOW_SCALE_SHIFT];
    assert(options@ =~= syn_options());
    options
}

/// Frames one TCP segment of connection `conn_id` as an IPv4 datagram.
///
/// The window field is 65535 and the time-to-live 64. A SYN carries the
/// option block. Returns `None`, and nothing is to be sent, when header and
/// payload exceed what one datagram holds.
pub fn build_tcp_packet(conn_id: &TcpConnectionId, seq: u32, ack: u32, flags: u8, payload: &[u8])
    -> (packet: Option<Vec<u8>>)
    ensures
        packet is Some <==> build_spec(*conn_id, seq, ack, flags, payload@) is Some,
        packet matches Some(p) ==> build_spec(*conn_id, seq, ack, flags, payload@) == Some(p@),
{
    let mut fields = TcpHeaderFields {
        source_port: conn_id.local_port,
        destination_port: conn_id.remote_port,
        sequence_number: seq,
        acknowledgment_number: ack,
        syn: (flags & FLAG_SYN) != 0,
        ack: (flags & FLAG_ACK) != 0,
        fin: (flags & FLAG_FIN) != 0,
        rst: (flags & FLAG_RST) != 0,
        psh: (flags & FLAG_PSH) != 0,
        window_size: ADVERTISED_WINDOW,
        checksum: 0,
    };
    let options: Vec<u8> = if fields.syn {
        syn_option_block()
    } else {
        Vec::new()
    };
    assert(options@ =~= options_for(flags));
    if payload.len() > MAX_IP_PAYLOAD - 20 - options.len() {
        return None;
    }
    let ip_payload_len: usize = 20 + options.len() + payload.len();
    let ip_header = match ipv4_header_bytes(
        ip_payload_len as u16,
        DEFAULT_TTL,
        PROTOCOL_TCP,
        conn_id.local_addr,
        conn_id.remote_addr,
    ) {
        Some(h) => h,
        None => {
            return None;
        },
    };
    let checksum = match tcp_checksum(
        &fields,
        options.as_slice(),
        conn_id.local_addr,
        conn_id.remote_addr,
        payload,
    ) {
        Some(c) => c,
        None => {
            return None;
        },
    };
    fields.checksum = checksum;
    let tcp_header = tcp_header_bytes(&fields, options.as_slice());
    let mut packet: Vec<u8> = ip_header;
    packet.extend_from_slice(tcp_header.as_slice());
    packet.extend_from_slice(payload);
    assert(packet@ =~= packet_wire(*conn_id, seq, ack, flags, payload@));
    Some(packet)
}

/// An inbound TCP segment as the engine sees it.
#[derive(Debug)]
pub struct TcpSegment {
    pub seq: u32,
    pub ack_num: u32,
    pub syn: bool,
    pub ack: bool,
    pub fin: bool,
    pub rst: bool,
    pub psh: bool,
    pub payload: Vec<u8>,
}

/// The mathematical content of a [`TcpSegment`].
pub struct SegmentView {
    pub seq: u32,
    pub ack_num: u32,
    pub syn: bool,
    pub ack: bool,
    pub fin: bool,
    pub rst: bool,
    pub psh: bool,
    pub payload: Seq<u8>,
}

impl View for TcpSegment {
    type V = SegmentView;

    open spec fn view(&self) -> SegmentView {
        SegmentView {
            seq: self.seq,
            ack_num: self.ack_num,
            syn: self.syn,
            ack: self.ack,
            fin: self.fin,
            rst: self.rst,
            psh: self.psh,
            payload: self.payload@,
        }
    }
}

/// The TCP part of a datagram: what follows the IPv4 header.
pub open spec fn ip_payload(packet: Seq<u8>) -> Seq<u8> {
    packet.subrange(ipv4_header_len(packet), packet.len() as int)
}

/// Whether `packet` is an IPv4 datagram that carries a complete TCP header.
pub open spec fn is_tcp_datagram(packet: Seq<u8>) -> bool {
    &&& ipv4_header_ok(packet)
    &&& ipv4_info(packet).protocol == PROTOCOL_TCP
    &&& tcp_header_ok(ip_payload(packet))
}

/// The connection an inbound datagram belongs to: its destination is our
/// local end, its source the remote end.
pub open spec fn datagram_conn_id(packet: Seq<u8>) -> TcpConnectionId {
    let ip = ipv4_info(packet);
    let tcp = tcp_info(ip_payload(packet));
    TcpConnectionId {
        local_addr: ip.destination,
        local_port: tcp.destination_port,
        remote_addr: ip.source,
        remote_port: tcp.source_port,
    }
}

/// The segment an inbound datagram carries. The payload is everything
/// after the TCP header and its options.
pub open spec fn datagram_segment(packet: Seq<u8>) -> SegmentView {
    let seg = ip_payload(packet);
    let tcp = tcp_info(seg);
    SegmentView {
        seq: tcp.sequence_number,
        ack_num: tcp.acknowledgment_number,
        syn: tcp.syn,
        ack: tcp.ack,
        fin: tcp.fin,
        rst: tcp.rst,
        psh: tcp.psh,
        payload: seg.subrange(tcp_header_len(seg), seg.len() as int),
    }
}

/// What parsing makes of an inbound datagram.
pub open spec fn parse_spec(packet: Seq<u8>) -> Option<(TcpConnectionId, SegmentView)> {
    if is_tcp_datagram(packet) {
        Some((datagram_conn_id(packet), datagram_segment(packet)))
    } else {
        None
    }
}

/// Splits an inbound datagram into connection identifier and segment.
///
/// Returns `None` for anything that is not IPv4 carrying TCP: a datagram
/// shorter than 20 bytes, another IP version, a truncated or malformed
/// header, another protocol. Checksums are not verified.
pub fn parse_packet(packet: &[u8]) -> (r: Option<(TcpConnectionId, TcpSegment)>)
    ensures
        r is Some <==> parse_spec(packet@) is Some,
        r matches Some((id, seg)) ==> parse_spec(packet@) == Some((id, seg@)),
{
    if packet.len() < 20 {
        return None;
    }
    let first: u8 = packet[0];
    let version: u8 = (first >> 4) & 0x0F;
    assert(version == first / 16) by (bit_vector)
        requires
            version == (first >> 4) & 0x0F,
    ;
    if version != 4 {
        return None;
    }
    let (ip, payload) = match ipv4_from_slice(packet) {
        Some(r) => r,
        None => {
            return None;
        },
    };
    if ip.protocol != PROTOCOL_TCP {
        return None;
    }
    let (tcp, tcp_payload) = match tcp_from_slice(payload) {
        Some(r) => r,
        None => {
            return None;
        },
    };
    let conn_id = TcpConnectionId {
        local_addr: ip.destination,
        local_port: tcp.destination_port,
        remote_addr: ip.source,
        remote_port: tcp.source_port,
    };
    let segment = TcpSegment {
        seq: tcp.sequence_number,
        ack_num: tcp.acknowledgment_number,
        syn: tcp.syn,
        ack: tcp.ack,
        fin: tcp.fin,
        rst: tcp.rst,
        psh: tcp.psh,
        payload: slice_to_vec(tcp_payload),
    };
    Some((conn_id, segment))
}

/// The contents of a list of byte vectors.
pub open spec fn payloads(v: Seq<Vec<u8>>) -> Seq<Seq<u8>> {
    v.map_values(|d: Vec<u8>| d@)
}

/// The outbound queue after a segment was handed to it: the datagram is
/// appended, or, if the segment fits no datagram, nothing changes.
pub open spec fn emit(
    out: Seq<Seq<u8>>,
    id: TcpConnectionId,
    seq: u32,
    ack: u32,
    flags: u8,
    payload: Seq<u8>,
) -> Seq<Seq<u8>> {
    match build_spec(id, seq, ack, flags, payload) {
        Some(p) => out.push(p),
        None => out,
    }
}

/// Builds a TCP segment and queues it for sending. A segment that fits no
/// datagram is dropped.
pub fn send_tcp_packet(
    outgoing: &mut Vec<Vec<u8>>,
    conn_id: &TcpConnectionId,
    seq: u32,
    ack: u32,
    flags: u8,
    payload: &[u8],
)
    ensures
        payloads(final(outgoing)@) == emit(
            payloads(old(outgoing)@),
            *conn_id,
            seq,
            ack,
            flags,
            payload@,
        ),
{
    let ghost before = payloads(outgoing@);
    match build_tcp_packet(conn_id, seq, ack, flags, payload) {
        Some(packet) => {
            outgoing.push(packet);
            assert(payloads(outgoing@) =~= before.push(packet@));
        },
        None => {},
    }
}

} // verus!
