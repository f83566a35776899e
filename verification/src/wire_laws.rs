//! Laws of the framing: what the stack builds, a receiver parses back.

use crate::conn_id::TcpConnectionId;
use crate::wire::be16;
use crate::wire::be32;
use crate::wire::bit_set;
use crate::wire::build_spec;
use crate::wire::flags_byte;
use crate::wire::has_flag;
use crate::wire::header_fields;
use crate::wire::ip_payload;
use crate::wire::ip_payload_len;
use crate::wire::ipv4_header_checksum;
use crate::wire::ipv4_header_wire;
use crate::wire::options_for;
use crate::wire::packet_wire;
use crate::wire::parse_spec;
use crate::wire::segment_checksum;
use crate::wire::syn_options;
use crate::wire::tcp_header_wire;
use crate::wire::u16_be;
use crate::wire::u32_be;
use crate::wire::SegmentView;
use crate::wire::TcpHeaderFields;
use crate::wire::DEFAULT_TTL;
use crate::wire::FLAG_ACK;
use crate::wire::FLAG_FIN;
use crate::wire::FLAG_PSH;
use crate::wire::FLAG_RST;
use crate::wire::FLAG_SYN;
use crate::wire::MSS;
use crate::wire::PROTOCOL_TCP;
use vstd::prelude::*;

verus! {

/// The same connection as seen from the other end.
pub open spec fn seen_by_peer(id: TcpConnectionId) -> TcpConnectionId {
    TcpConnectionId {
        local_addr: id.remote_addr,
        local_port: id.remote_port,
        remote_addr: id.local_addr,
        remote_port: id.local_port,
    }
}

/// The segment that a datagram built from these values carries.
pub open spec fn segment_of(seq: u32, ack: u32, flags: u8, payload: Seq<u8>) -> SegmentView {
    SegmentView {
        seq,
        ack_num: ack,
        syn: has_flag(flags, FLAG_SYN),
        ack: has_flag(flags, FLAG_ACK),
        fin: has_flag(flags, FLAG_FIN),
        rst: has_flag(flags, FLAG_RST),
        psh: has_flag(flags, FLAG_PSH),
        payload,
    }
}

/// Big-endian bytes read back give the number.
proof fn lemma_big_endian(x: u32, y: u16)
    ensures
        be32(u32_be(x)[0], u32_be(x)[1], u32_be(x)[2], u32_be(x)[3]) == x,
        be16(u16_be(y)[0], u16_be(y)[1]) == y,
{
    let v: int = x as int;
    let b0: int = v / 0x100_0000;
    let b1: int = v / 0x1_0000 % 0x100;
    let b2: int = v / 0x100 % 0x100;
    let b3: int = v % 0x100;
    assert(v == (v / 0x100) * 0x100 + b3);
    assert(v / 0x100 == (v / 0x1_0000) * 0x100 + b2);
    assert(v / 0x1_0000 == b0 * 0x100 + b1);
}

/// Each flag can be read off the flags byte.
proof fn lemma_flags_byte(h: TcpHeaderFields)
    ensures
        bit_set(flags_byte(h), 1) == h.fin,
        bit_set(flags_byte(h), 2) == h.syn,
        bit_set(flags_byte(h), 4) == h.rst,
        bit_set(flags_byte(h), 8) == h.psh,
        bit_set(flags_byte(h), 16) == h.ack,
{
}

/// A datagram that the stack builds is parsed by its receiver into the
/// segment it was built from, on the connection as the receiver sees it.
pub proof fn law_built_packet_parses_back(
    id: TcpConnectionId,
    seq: u32,
    ack: u32,
    flags: u8,
    payload: Seq<u8>,
)
    requires
        build_spec(id, seq, ack, flags, payload) is Some,
    ensures
        parse_spec(packet_wire(id, seq, ack, flags, payload)) == Some(
            (seen_by_peer(id), segment_of(seq, ack, flags, payload)),
        ),
        packet_wire(id, seq, ack, flags, payload).len() == 20 + ip_payload_len(flags, payload),
{
    let p = packet_wire(id, seq, ack, flags, payload);
    let opts = options_for(flags);
    let len = ip_payload_len(flags, payload) as u16;
    let h = header_fields(id, seq, ack, flags, segment_checksum(id, seq, ack, flags, payload));
    let ip = ipv4_header_wire(
        len,
        DEFAULT_TTL,
        PROTOCOL_TCP,
        id.local_addr,
        id.remote_addr,
        ipv4_header_checksum(len, DEFAULT_TTL, PROTOCOL_TCP, id.local_addr, id.remote_addr),
    );
    let tcp = tcp_header_wire(h, opts);
    assert(opts.len() == 0 || opts.len() == 8);
    assert(ip.len() == 20);
    assert(tcp.len() == 20 + opts.len());
    assert(p =~= ip + tcp + payload);
    assert(p[0] == 0x45u8);
    assert(p[9] == PROTOCOL_TCP);
    let seg = ip_payload(p);
    assert(seg =~= tcp + payload);
    assert(seg[12] == ((5 + opts.len() as int / 4) * 16) as u8);
    assert(seg[13] == flags_byte(h));
    lemma_flags_byte(h);
    lemma_big_endian(id.local_addr, id.local_port);
    lemma_big_endian(id.remote_addr, id.remote_port);
    lemma_big_endian(seq, 0);
    lemma_big_endian(ack, 0);
    assert(p.subrange(12, 16) =~= u32_be(id.local_addr));
    assert(p.subrange(16, 20) =~= u32_be(id.remote_addr));
    assert(seg.subrange(0, 2) =~= u16_be(id.local_port));
    assert(seg.subrange(2, 4) =~= u16_be(id.remote_port));
    assert(seg.subrange(4, 8) =~= u32_be(seq));
    assert(seg.subrange(8, 12) =~= u32_be(ack));
    assert(seg.subrange(20 + opts.len() as int, seg.len() as int) =~= payload);
    assert(p[12] == u32_be(id.local_addr)[0] && p[13] == u32_be(id.local_addr)[1] && p[14]
        == u32_be(id.local_addr)[2] && p[15] == u32_be(id.local_addr)[3]);
    assert(p[16] == u32_be(id.remote_addr)[0] && p[17] == u32_be(id.remote_addr)[1] && p[18]
        == u32_be(id.remote_addr)[2] && p[19] == u32_be(id.remote_addr)[3]);
    assert(seg[0] == u16_be(id.local_port)[0] && seg[1] == u16_be(id.local_port)[1]);
    assert(seg[2] == u16_be(id.remote_port)[0] && seg[3] == u16_be(id.remote_port)[1]);
    assert(seg[4] == u32_be(seq)[0] && seg[5] == u32_be(seq)[1] && seg[6] == u32_be(seq)[2]
        && seg[7] == u32_be(seq)[3]);
    assert(seg[8] == u32_be(ack)[0] && seg[9] == u32_be(ack)[1] && seg[10] == u32_be(ack)[2]
        && seg[11] == u32_be(ack)[3]);
}

/// What the flag combinations of the engine hold: a SYN carries the SYN
/// bit alone, and no other segment of the engine carries it.
pub proof fn law_engine_flags()
    ensures
        has_flag(FLAG_SYN, FLAG_SYN),
        !has_flag(FLAG_ACK, FLAG_SYN),
        !has_flag(FLAG_ACK | FLAG_PSH, FLAG_SYN),
        !has_flag(FLAG_FIN | FLAG_ACK, FLAG_SYN),
        !has_flag(FLAG_RST, FLAG_SYN),
        !has_flag(FLAG_RST | FLAG_ACK, FLAG_SYN),
        has_flag(FLAG_ACK | FLAG_PSH, FLAG_ACK) && has_flag(FLAG_ACK | FLAG_PSH, FLAG_PSH),
        has_flag(FLAG_FIN | FLAG_ACK, FLAG_FIN) && has_flag(FLAG_FIN | FLAG_ACK, FLAG_ACK),
        has_flag(FLAG_RST | FLAG_ACK, FLAG_RST) && has_flag(FLAG_RST | FLAG_ACK, FLAG_ACK),
{
    assert(0x02u8 & 0x02u8 != 0) by (bit_vector);
    assert(0x10u8 & 0x02u8 == 0) by (bit_vector);
    assert((0x10u8 | 0x08u8) & 0x02u8 == 0) by (bit_vector);
    assert((0x01u8 | 0x10u8) & 0x02u8 == 0) by (bit_vector);
    assert(0x04u8 & 0x02u8 == 0) by (bit_vector);
    assert((0x04u8 | 0x10u8) & 0x02u8 == 0) by (bit_vector);
    assert((0x10u8 | 0x08u8) & 0x10u8 != 0) by (bit_vector);
    assert((0x10u8 | 0x08u8) & 0x08u8 != 0) by (bit_vector);
    assert((0x01u8 | 0x10u8) & 0x01u8 != 0) by (bit_vector);
    assert((0x01u8 | 0x10u8) & 0x10u8 != 0) by (bit_vector);
    assert((0x04u8 | 0x10u8) & 0x04u8 != 0) by (bit_vector);
    assert((0x04u8 | 0x10u8) & 0x10u8 != 0) by (bit_vector);
}

/// No segment of the engine is ever dropped for its size: with a payload
/// of at most one segment size, a datagram is built whatever the flags.
pub proof fn law_engine_segments_fit(
    id: TcpConnectionId,
    seq: u32,
    ack: u32,
    flags: u8,
    payload: Seq<u8>,
)
    requires
        payload.len() <= MSS,
    ensures
        build_spec(id, seq, ack, flags, payload) is Some,
{
    assert(syn_options().len() == 8);
}

} // verus!
