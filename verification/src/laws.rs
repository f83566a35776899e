//! Laws of the stack: what holds of every connection and of every
//! sequence of operations, proved from the model.

use crate::conn_id::TcpConnectionId;
use crate::model::fresh_tcb;
use crate::model::ActionView;
use crate::model::SentView;
use crate::model::TcbView;
use crate::model::TcpState;
use crate::reorder::drain;
use crate::reorder::lemma_drain;
use crate::reorder::lemma_total_empty;
use crate::reorder::lemma_total_insert;
use crate::reorder::total_bytes;
use crate::seqnum::lemma_seq_diff_zero;
use crate::seqnum::seq_add;
use crate::seqnum::seq_diff;
use crate::stack_model::emit_retransmits;
use crate::stack_model::next_port;
use crate::stack_model::orphan_reply;
use crate::stack_model::reply_emit;
use crate::stack_model::stack_close_spec;
use crate::stack_model::take_outgoing_spec;
use crate::stack_model::StackView;
use crate::transitions::acks_new_data;
use crate::transitions::backed_off;
use crate::transitions::can_send;
use crate::transitions::close_spec;
use crate::transitions::data_step;
use crate::transitions::emit_all;
use crate::transitions::fin_step;
use crate::transitions::head_due;
use crate::transitions::is_stale;
use crate::transitions::on_segment_spec;
use crate::transitions::process_ack;
use crate::transitions::receiver_gone_spec;
use crate::transitions::send_spec;
use crate::transitions::sweep_spec;
use crate::wire::build_spec;
use crate::wire::emit;
use crate::wire::has_flag;
use crate::wire::header_fields;
use crate::wire::options_for;
use crate::wire::packet_wire;
use crate::wire::syn_options;
use crate::wire::tcp_checksum_ipv4;
use crate::wire::u16_be;
use crate::wire::u32_be;
use crate::wire::SegmentView;
use crate::wire::FLAG_SYN;
use vstd::prelude::*;

verus! {

/// Handling a FIN or a data segment keeps the connection invariant.
proof fn lemma_receive_inv(t: TcbView, seq: u32, payload: Seq<u8>)
    requires
        t.inv(),
        t.state == TcpState::Established,
    ensures
        fin_step(t, seq, payload).0.inv(),
        payload.len() > 0 ==> data_step(t, seq, payload).0.inv(),
{
    let gap = seq_diff(seq, t.local_ack);
    lemma_total_empty();
    lemma_seq_diff_zero(seq, t.local_ack);
    lemma_total_insert(t.reorder_buffer, seq, payload);
    lemma_drain(t.reorder_buffer, t.local_ack);
    lemma_drain(t.reorder_buffer, seq_add(t.local_ack, payload.len() as int));
    lemma_drain(t.reorder_buffer, seq_add(seq, payload.len() as int));
}

/// Every operation on a connection keeps the connection invariant: a new
/// connection satisfies it, and handling an inbound segment, sending in
/// a state that allows it, closing, a retransmission sweep and the loss of
/// the receiver preserve it. In particular, at every step the byte count of the reorder buffer
/// is the sum of the lengths of the buffered payloads and within budget.
pub proof fn law_invariant_preserved(
    t: TcbView,
    s: SegmentView,
    data: Seq<u8>,
    now: u64,
    id: TcpConnectionId,
    initial_seq: u32,
)
    requires
        t.inv(),
    ensures
        fresh_tcb(id, initial_seq, now).inv(),
        on_segment_spec(t, s, now).0.inv(),
        can_send(t.state) ==> send_spec(t, data, now).inv(),
        close_spec(t).inv(),
        sweep_spec(t, now).inv(),
        receiver_gone_spec(t, now).inv(),
{
    lemma_total_empty();
    if t.state == TcpState::Established {
        let t1 = process_ack(TcbView { last_activity: now, ..t }, s);
        assert(t1.inv());
        lemma_receive_inv(t1, s.seq, s.payload);
    }
}

/// At every step the byte count of the reorder buffer equals the sum of
/// the lengths of the buffered payloads and does not exceed the budget.
pub proof fn law_reorder_accounting(t: TcbView, s: SegmentView, now: u64)
    requires
        t.inv(),
    ensures
        on_segment_spec(t, s, now).0.reorder_buffer_bytes == total_bytes(
            on_segment_spec(t, s, now).0.reorder_buffer,
        ),
        on_segment_spec(t, s, now).0.reorder_buffer_bytes <= on_segment_spec(
            t,
            s,
            now,
        ).0.max_reorder_buffer_bytes,
        on_segment_spec(t, s, now).0.max_reorder_buffer_bytes == t.max_reorder_buffer_bytes,
{
    law_invariant_preserved(t, s, Seq::empty(), now, t.id, 0);
}

/// After handling any inbound segment, no buffered segment starts at the
/// next expected sequence number: whatever followed on from the data
/// received has been taken out of the buffer and delivered, and once the
/// peer's FIN is accepted nothing stays buffered.
pub proof fn law_nothing_buffered_at_ack(t: TcbView, s: SegmentView, now: u64)
    requires
        t.inv(),
    ensures
        !on_segment_spec(t, s, now).0.reorder_buffer.contains_key(
            on_segment_spec(t, s, now).0.local_ack,
        ),
{
    law_invariant_preserved(t, s, Seq::empty(), now, t.id, 0);
}

/// Every datagram the stack queues carries, in the checksum field of its
/// TCP header, the TCP checksum over its own IPv4 pseudo-header, header and
/// payload: the addresses that enter are the ones in its IPv4 header.
pub proof fn law_checksum_of_emitted_packet(
    out: Seq<Seq<u8>>,
    id: TcpConnectionId,
    seq: u32,
    ack: u32,
    flags: u8,
    payload: Seq<u8>,
)
    requires
        build_spec(id, seq, ack, flags, payload) is Some,
    ensures
        emit(out, id, seq, ack, flags, payload) == out.push(packet_wire(id, seq, ack, flags, payload)),
        packet_wire(id, seq, ack, flags, payload).subrange(36, 38) == u16_be(
            tcp_checksum_ipv4(
                header_fields(id, seq, ack, flags, 0),
                options_for(flags),
                id.local_addr,
                id.remote_addr,
                payload,
            ),
        ),
        packet_wire(id, seq, ack, flags, payload).subrange(12, 16) == u32_be(id.local_addr),
        packet_wire(id, seq, ack, flags, payload).subrange(16, 20) == u32_be(id.remote_addr),
        packet_wire(id, seq, ack, flags, payload).subrange(
            20 + 20 + options_for(flags).len() as int,
            packet_wire(id, seq, ack, flags, payload).len() as int,
        ) == payload,
{
    let p = packet_wire(id, seq, ack, flags, payload);
    assert(p.subrange(36, 38) =~= u16_be(
        tcp_checksum_ipv4(
            header_fields(id, seq, ack, flags, 0),
            options_for(flags),
            id.local_addr,
            id.remote_addr,
            payload,
        ),
    ));
    assert(p.subrange(12, 16) =~= u32_be(id.local_addr));
    assert(p.subrange(16, 20) =~= u32_be(id.remote_addr));
    assert(p.subrange(20 + 20 + options_for(flags).len() as int, p.len() as int) =~= payload);
}

/// Calling close twice is the same as calling it once.
pub proof fn law_close_is_idempotent(s: StackView, id: TcpConnectionId)
    ensures
        stack_close_spec(stack_close_spec(s, id), id) == stack_close_spec(s, id),
{
    let once = stack_close_spec(s, id);
    let twice = stack_close_spec(once, id);
    if s.has(id) {
        assert(close_spec(close_spec(s.tcb(id))).retransmit_queue =~= close_spec(
            s.tcb(id),
        ).retransmit_queue);
        assert(twice.connections =~= once.connections);
    }
}

/// Taking the outbound queue right after taking it returns an empty list.
pub proof fn law_take_twice_is_empty(s: StackView)
    ensures
        take_outgoing_spec(take_outgoing_spec(s).0).1 == Seq::<Seq<u8>>::empty(),
        take_outgoing_spec(take_outgoing_spec(s).0).0 == take_outgoing_spec(s).0,
{
}

/// The SYN option block is exactly 8 bytes and encodes MSS 1360 and a
/// window scale of 7; every SYN datagram carries it right after the fixed
/// TCP header, which announces seven words.
pub proof fn law_syn_options(id: TcpConnectionId, seq: u32, ack: u32, flags: u8, payload: Seq<u8>)
    requires
        has_flag(flags, FLAG_SYN),
    ensures
        syn_options() == seq![0x02u8, 0x04u8, 0x05u8, 0x50u8, 0x01u8, 0x03u8, 0x03u8, 0x07u8],
        syn_options().len() == 8,
        0x05 * 0x100 + 0x50 == 1360,
        options_for(flags) == syn_options(),
        packet_wire(id, seq, ack, flags, payload).subrange(40, 48) == syn_options(),
        packet_wire(id, seq, ack, flags, payload)[32] == 0x70,
{
    assert(syn_options() =~= seq![0x02u8, 0x04u8, 0x05u8, 0x50u8, 0x01u8, 0x03u8, 0x03u8, 0x07u8]);
    let p = packet_wire(id, seq, ack, flags, payload);
    assert(p.subrange(40, 48) =~= syn_options());
}

/// A segment that lies before the next expected sequence number (one that
/// was delivered already) is answered with a bare ACK at the current
/// numbers; nothing is delivered and the receive side does not change.
pub proof fn law_duplicate_is_only_acknowledged(t: TcbView, s: SegmentView, now: u64)
    requires
        t.inv(),
        t.state == TcpState::Established,
        !s.rst,
        !s.fin,
        s.payload.len() > 0,
        seq_diff(s.seq, t.local_ack) < 0,
    ensures
        on_segment_spec(t, s, now).1 == (ActionView::SendAck { seq: t.local_seq, ack: t.local_ack }),
        on_segment_spec(t, s, now).1.deliveries() == Seq::<Seq<u8>>::empty(),
        !on_segment_spec(t, s, now).1.signals_eof(),
        on_segment_spec(t, s, now).0.local_ack == t.local_ack,
        on_segment_spec(t, s, now).0.reorder_buffer == t.reorder_buffer,
        on_segment_spec(t, s, now).0.state == TcpState::Established,
{
}

/// Delivering the same data segment twice: the second time it is answered
/// with a bare ACK and nothing is delivered.
pub proof fn law_redelivery_is_only_acknowledged(t: TcbView, s: SegmentView, now: u64, later: u64)
    requires
        t.inv(),
        t.state == TcpState::Established,
        !s.rst,
        !s.fin,
        s.payload.len() > 0,
        seq_diff(s.seq, t.local_ack) == 0,
        s.payload.len() + t.reorder_buffer_bytes < 0x8000_0000,
        on_segment_spec(t, s, now).0.state == TcpState::Established,
    ensures
        ({
            let first = on_segment_spec(t, s, now).0;
            let second = on_segment_spec(first, s, later);
            &&& second.1 == (ActionView::SendAck { seq: first.local_seq, ack: first.local_ack })
            &&& second.1.deliveries() == Seq::<Seq<u8>>::empty()
            &&& second.0.local_ack == first.local_ack
            &&& second.0.reorder_buffer == first.reorder_buffer
        }),
{
    let t1 = process_ack(TcbView { last_activity: now, ..t }, s);
    let start = seq_add(s.seq, s.payload.len() as int);
    let d = drain(t1.reorder_buffer, start);
    lemma_drain(t1.reorder_buffer, start);
    let first = on_segment_spec(t, s, now).0;
    law_invariant_preserved(t, s, Seq::empty(), now, t.id, 0);
    let n = s.payload.len() + crate::reorder::total_len(d.segments);
    crate::seqnum::lemma_seq_add_add(
        s.seq,
        s.payload.len() as int,
        crate::reorder::total_len(d.segments) as int,
    );
    assert(first.local_ack == seq_add(s.seq, n as int));
    lemma_seq_diff_back(s.seq, n as int);
}

/// A sequence number is behind the one `n` steps after it, for `n` from 1
/// to 2^31.
proof fn lemma_seq_diff_back(a: u32, n: int)
    requires
        0 < n <= 0x8000_0000,
    ensures
        seq_diff(a, seq_add(a, n)) == -n,
{
    let m: int = 0x1_0000_0000;
    let s: int = a as int + n;
    let b: int = if s < m {
        s
    } else {
        s - m
    };
    if s < m {
        assert(s % m == s);
    } else {
        assert(s % m == s - m) by {
            vstd::arithmetic::div_mod::lemma_fundamental_div_mod_converse(s, m, 1, s - m);
        }
    }
    let x: int = a as int - b;
    if x >= 0 {
        assert(x % m == x);
    } else {
        assert(x % m == x + m) by {
            vstd::arithmetic::div_mod::lemma_fundamental_div_mod_converse(x, m, -1, x + m);
        }
    }
}

/// A FIN that arrives before its preceding data is held: nothing is
/// delivered, no end of stream is signalled, the connection stays
/// established, the next expected sequence number does not move, and the
/// place of the FIN is remembered.
pub proof fn law_premature_fin_is_held(t: TcbView, s: SegmentView, now: u64)
    requires
        t.inv(),
        t.state == TcpState::Established,
        s.fin,
        !s.rst,
        seq_diff(s.seq, t.local_ack) > 0,
    ensures
        ({
            let (after, action) = on_segment_spec(t, s, now);
            &&& after.state == TcpState::Established
            &&& after.pending_fin_seq == Some(seq_add(s.seq, s.payload.len() as int))
            &&& after.local_ack == t.local_ack
            &&& action == (ActionView::BufferedOutOfOrder { seq: t.local_seq, ack: t.local_ack })
            &&& action.deliveries() == Seq::<Seq<u8>>::empty()
            &&& !action.signals_eof()
        }),
{
}

/// While a FIN is held, in-order data is delivered as usual. The moment
/// the data received reaches the place of the FIN, the FIN is processed
/// together with that last delivery: the payloads are delivered, end of
/// stream is signalled, one ACK covers data and FIN, and the connection is
/// in `CloseWait`. Until then the FIN stays held.
pub proof fn law_held_fin_completes_with_data(t: TcbView, s: SegmentView, now: u64, fin_seq: u32)
    requires
        t.inv(),
        t.state == TcpState::Established,
        t.pending_fin_seq == Some(fin_seq),
        !s.fin,
        !s.rst,
        s.payload.len() > 0,
        seq_diff(s.seq, t.local_ack) == 0,
    ensures
        ({
            let (after, action) = on_segment_spec(t, s, now);
            let d = drain(t.reorder_buffer, seq_add(s.seq, s.payload.len() as int));
            &&& action.deliveries() == seq![s.payload] + d.segments
            &&& d.ack == fin_seq ==> {
                &&& after.state == TcpState::CloseWait
                &&& after.pending_fin_seq == None::<u32>
                &&& after.local_ack == seq_add(fin_seq, 1)
                &&& action == (ActionView::SendDataThenFinAck {
                    seq: t.local_seq,
                    ack: seq_add(fin_seq, 1),
                    data_segments: seq![s.payload] + d.segments,
                })
                &&& action.signals_eof()
            }
            &&& d.ack != fin_seq ==> {
                &&& after.state == TcpState::Established
                &&& after.pending_fin_seq == Some(fin_seq)
                &&& after.local_ack == d.ack
                &&& !action.signals_eof()
            }
        }),
{
    let d = drain(t.reorder_buffer, seq_add(s.seq, s.payload.len() as int));
    if (seq![s.payload] + d.segments).len() == 1 {
        assert(seq![s.payload] + d.segments =~= seq![s.payload]);
    }
}

/// A FIN right behind one missing segment: the FIN is held, and when the
/// segment arrives it is delivered, end of stream is signalled, one ACK
/// covers both, and the connection is in `CloseWait`.
pub proof fn law_fin_before_data(t: TcbView, fin: SegmentView, data: SegmentView, now: u64, later: u64)
    requires
        t.inv(),
        t.state == TcpState::Established,
        t.reorder_buffer == Map::<u32, Seq<u8>>::empty(),
        fin.fin && !fin.rst && fin.payload.len() == 0,
        !data.fin && !data.rst,
        data.seq == t.local_ack,
        0 < data.payload.len() < 0x8000_0000,
        fin.seq == seq_add(data.seq, data.payload.len() as int),
    ensures
        ({
            let held = on_segment_spec(t, fin, now);
            let done = on_segment_spec(held.0, data, later);
            &&& held.0.state == TcpState::Established
            &&& held.0.pending_fin_seq == Some(fin.seq)
            &&& held.0.local_ack == t.local_ack
            &&& held.1 == (ActionView::BufferedOutOfOrder { seq: held.0.local_seq, ack: t.local_ack })
            &&& held.1.deliveries() == Seq::<Seq<u8>>::empty()
            &&& !held.1.signals_eof()
            &&& done.0.state == TcpState::CloseWait
            &&& done.0.pending_fin_seq == None::<u32>
            &&& done.0.local_ack == seq_add(fin.seq, 1)
            &&& done.1 == (ActionView::SendDataThenFinAck {
                seq: done.0.local_seq,
                ack: seq_add(fin.seq, 1),
                data_segments: seq![data.payload],
            })
            &&& done.1.deliveries() == seq![data.payload]
            &&& done.1.signals_eof()
        }),
{
    crate::seqnum::lemma_seq_diff_add(data.seq, data.payload.len() as int);
    crate::seqnum::lemma_seq_diff_zero(data.seq, t.local_ack);
    crate::seqnum::lemma_seq_add_zero(fin.seq);
    let held = on_segment_spec(t, fin, now);
    let t1 = process_ack(TcbView { last_activity: now, ..t }, fin);
    assert(held.0.reorder_buffer =~= Map::<u32, Seq<u8>>::empty());
    let t2 = process_ack(TcbView { last_activity: later, ..held.0 }, data);
    let d = drain(t2.reorder_buffer, fin.seq);
    assert(d.segments =~= Seq::<Seq<u8>>::empty());
    assert(seq![data.payload] + d.segments =~= seq![data.payload]);
}

/// The retransmission timeout doubles with every retransmission, up to
/// eight seconds, and an acknowledgment that makes progress puts it back
/// to 500 ms.
pub proof fn law_rto_backoff(t: TcbView, s: SegmentView, now: u64)
    requires
        t.inv(),
    ensures
        head_due(t, now) ==> sweep_spec(t, now).rto == backed_off(t.rto),
        !head_due(t, now) ==> sweep_spec(t, now).rto == t.rto,
        backed_off(t.rto) == if 2 * t.rto <= 8000 {
            2 * t.rto
        } else {
            8000
        },
        backed_off(500) == 1000 && backed_off(1000) == 2000 && backed_off(2000) == 4000,
        backed_off(4000) == 8000 && backed_off(8000) == 8000,
        t.state == TcpState::Established && acks_new_data(t, s) ==> on_segment_spec(t, s, now).0.rto
            == 500,
        t.state == TcpState::Established && !acks_new_data(t, s) ==> on_segment_spec(
            t,
            s,
            now,
        ).0.rto == t.rto,
{
}

/// The cleanup sweep removes a connection exactly when its age exceeds
/// what its state allows: 30 s, counted from creation, while its SYN is
/// unanswered; 600 s without activity while established; 120 s while
/// closing; 60 s in `TimeWait`; 5 s once closed.
pub proof fn law_stale_thresholds(t: TcbView, now: u64)
    ensures
        t.state == TcpState::SynSent ==> (is_stale(t, now) <==> now > t.created_at + 30_000),
        t.state == TcpState::Established ==> (is_stale(t, now) <==> now > t.last_activity
            + 600_000),
        t.state == TcpState::FinWait1 || t.state == TcpState::FinWait2 || t.state
            == TcpState::CloseWait || t.state == TcpState::LastAck ==> (is_stale(t, now) <==> now
            > t.last_activity + 120_000),
        t.state == TcpState::TimeWait ==> (is_stale(t, now) <==> now > t.last_activity + 60_000),
        t.state == TcpState::Closed ==> (is_stale(t, now) <==> now > t.last_activity + 5_000),
{
}

/// The port allocator counts up by one and, after 64999, starts over at
/// 49152: every port it hands out lies in [49152, 65000).
pub proof fn law_port_allocator_wraps(port: u16)
    ensures
        next_port(64999) == 49152,
        49152 <= port < 64999 ==> next_port(port) == port + 1,
        49152 <= port < 65000 ==> 49152 <= next_port(port) < 65000,
{
}

/// Queueing a batch of segments leaves what was queued before in place.
proof fn lemma_emit_all_extends(
    out: Seq<Seq<u8>>,
    id: TcpConnectionId,
    ack: u32,
    segments: Seq<SentView>,
)
    ensures
        out.is_prefix_of(emit_all(out, id, ack, segments)),
        emit_all(out, id, ack, segments).len() <= out.len() + segments.len(),
    decreases segments.len(),
{
    if segments.len() > 0 {
        let next = emit(out, id, segments[0].seq, ack, segments[0].flags, segments[0].data);
        lemma_emit_all_extends(next, id, ack, segments.drop_first());
    }
}

/// Queueing retransmissions leaves what was queued before in place.
proof fn lemma_emit_retransmits_extends(
    out: Seq<Seq<u8>>,
    connections: Map<u128, TcbView>,
    order: Seq<u128>,
)
    ensures
        out.is_prefix_of(emit_retransmits(out, connections, order)),
        emit_retransmits(out, connections, order).len() <= out.len() + order.len(),
    decreases order.len(),
{
    if order.len() > 0 {
        lemma_emit_retransmits_extends(out, connections, order.drop_last());
    }
}

/// The outbound queue only grows at its end: whatever an operation queues
/// comes after what was queued before, one datagram per segment at most.
/// So datagrams leave in the order in which the engine made them.
pub proof fn law_outbound_queue_only_grows(
    out: Seq<Seq<u8>>,
    id: TcpConnectionId,
    seq: u32,
    ack: u32,
    flags: u8,
    payload: Seq<u8>,
    segments: Seq<SentView>,
    connections: Map<u128, TcbView>,
    order: Seq<u128>,
    action: ActionView,
    segment: SegmentView,
)
    ensures
        out.is_prefix_of(emit(out, id, seq, ack, flags, payload)),
        emit(out, id, seq, ack, flags, payload).len() <= out.len() + 1,
        out.is_prefix_of(emit_all(out, id, ack, segments)),
        emit_all(out, id, ack, segments).len() <= out.len() + segments.len(),
        out.is_prefix_of(emit_retransmits(out, connections, order)),
        emit_retransmits(out, connections, order).len() <= out.len() + order.len(),
        out.is_prefix_of(reply_emit(out, id, action)),
        out.is_prefix_of(orphan_reply(out, id, segment)),
{
    lemma_emit_all_extends(out, id, ack, segments);
    lemma_emit_retransmits_extends(out, connections, order);
}

} // verus!
