//! The TCP state machine as functions on the model: what each operation
//! makes of a control block.

use crate::model::ActionView;
use crate::model::SentView;
use crate::model::TcbView;
use crate::model::TcpState;
use crate::model::INITIAL_RTO_MS;
use crate::model::MAX_RETRANSMITS;
use crate::model::MAX_RTO_MS;
use crate::reorder::drain;
use crate::reorder::total_bytes;
use crate::seqnum::seq_add;
use crate::seqnum::seq_diff;
use crate::conn_id::TcpConnectionId;
use crate::wire::emit;
use crate::wire::SegmentView;
use crate::wire::FLAG_ACK;
use crate::wire::FLAG_PSH;
use crate::wire::MSS;
use vstd::prelude::*;

verus! {

/// Milliseconds from `then` to `now`; zero if `then` is not in the past.
pub open spec fn elapsed(now: u64, then: u64) -> u64 {
    if now >= then {
        (now - then) as u64
    } else {
        0
    }
}

/// The sequence number after the last byte of a sent segment.
pub open spec fn sent_end(s: SentView) -> u32 {
    seq_add(s.seq, s.data.len() as int)
}

/// The retransmit queue without the leading segments that end at or before
/// `una`.
pub open spec fn drop_acked(q: Seq<SentView>, una: u32) -> Seq<SentView>
    decreases q.len(),
{
    if q.len() > 0 && seq_diff(sent_end(q[0]), una) <= 0 {
        drop_acked(q.drop_first(), una)
    } else {
        q
    }
}

/// Whether the segment acknowledges bytes not acknowledged before.
pub open spec fn acks_new_data(t: TcbView, s: SegmentView) -> bool {
    s.ack && seq_diff(s.ack_num, t.snd_una) > 0
}

/// The acknowledgment field of a segment applied to an established
/// connection: on progress the unacknowledged mark moves up, acknowledged
/// segments leave the retransmit queue and the timeout starts over.
pub open spec fn process_ack(t: TcbView, s: SegmentView) -> TcbView {
    if acks_new_data(t, s) {
        TcbView {
            snd_una: s.ack_num,
            retransmit_queue: drop_acked(t.retransmit_queue, s.ack_num),
            rto: INITIAL_RTO_MS,
            ..t
        }
    } else {
        t
    }
}

/// The control block with `buffer` as its reorder buffer, accounted for.
pub open spec fn with_buffer(t: TcbView, buffer: Map<u32, Seq<u8>>) -> TcbView {
    TcbView { reorder_buffer: buffer, reorder_buffer_bytes: total_bytes(buffer) as usize, ..t }
}

/// The control block once the peer's FIN has been accepted: the next
/// expected sequence number moves past the FIN, and what is still
/// buffered, which can never be delivered, is dropped.
pub open spec fn past_fin(t: TcbView, ack: u32) -> TcbView {
    TcbView { local_ack: ack, ..with_buffer(t, Map::empty()) }
}

/// Whether the budget lets `payload` into the reorder buffer.
pub open spec fn budget_permits(t: TcbView, payload: Seq<u8>) -> bool {
    t.reorder_buffer_bytes + payload.len() <= t.max_reorder_buffer_bytes
}

/// A segment before the handshake has completed.
pub open spec fn syn_sent_step(t: TcbView, s: SegmentView, now: u64) -> (TcbView, ActionView) {
    if s.syn && s.ack {
        (
            TcbView {
                local_ack: seq_add(s.seq, 1),
                local_seq: s.ack_num,
                snd_una: s.ack_num,
                state: TcpState::Established,
                last_activity: now,
                ..t
            },
            ActionView::ConnectionEstablished { seq: s.ack_num, ack: seq_add(s.seq, 1) },
        )
    } else if s.rst {
        (TcbView { state: TcpState::Closed, last_activity: now, ..t }, ActionView::ConnectionReset)
    } else {
        (t, ActionView::Nothing)
    }
}

/// A FIN on an established connection, after its acknowledgment field has
/// been applied.
pub open spec fn fin_step(t: TcbView, seq: u32, payload: Seq<u8>) -> (TcbView, ActionView) {
    let fin_seq = seq_add(seq, payload.len() as int);
    let gap = seq_diff(seq, t.local_ack);
    if gap <= 0 {
        let takes_payload = payload.len() > 0 && gap == 0;
        let own = if takes_payload {
            seq![payload]
        } else {
            Seq::empty()
        };
        let start = if takes_payload {
            seq_add(t.local_ack, payload.len() as int)
        } else {
            t.local_ack
        };
        let d = drain(t.reorder_buffer, start);
        let segments = own + d.segments;
        let ack = seq_add(fin_seq, 1);
        let t2 = TcbView { state: TcpState::CloseWait, ..past_fin(t, ack) };
        if segments.len() > 0 {
            (t2, ActionView::SendDataThenFinAck { seq: t.local_seq, ack, data_segments: segments })
        } else {
            (t2, ActionView::SendFinAck { seq: t.local_seq, ack })
        }
    } else {
        let buffer = if payload.len() > 0 && budget_permits(t, payload) {
            t.reorder_buffer.insert(seq, payload)
        } else {
            t.reorder_buffer
        };
        (
            TcbView { pending_fin_seq: Some(fin_seq), ..with_buffer(t, buffer) },
            ActionView::BufferedOutOfOrder { seq: t.local_seq, ack: t.local_ack },
        )
    }
}

/// A data segment without FIN or RST on an established connection, after
/// its acknowledgment field has been applied.
pub open spec fn data_step(t: TcbView, seq: u32, payload: Seq<u8>) -> (TcbView, ActionView) {
    let gap = seq_diff(seq, t.local_ack);
    if gap < 0 {
        (t, ActionView::SendAck { seq: t.local_seq, ack: t.local_ack })
    } else if gap == 0 {
        let d = drain(t.reorder_buffer, seq_add(seq, payload.len() as int));
        let segments = seq![payload] + d.segments;
        let t1 = TcbView { local_ack: d.ack, ..with_buffer(t, d.buffer) };
        if t.pending_fin_seq == Some(d.ack) {
            let ack = seq_add(d.ack, 1);
            (
                TcbView { pending_fin_seq: None, state: TcpState::CloseWait, ..past_fin(t, ack) },
                ActionView::SendDataThenFinAck { seq: t.local_seq, ack, data_segments: segments },
            )
        } else if segments.len() == 1 {
            (t1, ActionView::SendData { seq: t.local_seq, ack: d.ack, data: payload })
        } else {
            (
                t1,
                ActionView::SendMultipleData { seq: t.local_seq, ack: d.ack, data_segments: segments },
            )
        }
    } else if budget_permits(t, payload) {
        (
            with_buffer(t, t.reorder_buffer.insert(seq, payload)),
            ActionView::BufferedOutOfOrder { seq: t.local_seq, ack: t.local_ack },
        )
    } else {
        (t, ActionView::DroppedOutOfOrder { seq: t.local_seq, ack: t.local_ack })
    }
}

/// A segment on an established connection.
pub open spec fn established_step(t: TcbView, s: SegmentView, now: u64) -> (TcbView, ActionView) {
    let t1 = process_ack(TcbView { last_activity: now, ..t }, s);
    if s.rst {
        (
            TcbView { state: TcpState::Closed, retransmit_queue: Seq::empty(), ..t1 },
            ActionView::SignalEof,
        )
    } else if s.fin {
        fin_step(t1, s.seq, s.payload)
    } else if s.payload.len() > 0 {
        data_step(t1, s.seq, s.payload)
    } else {
        (t1, ActionView::Nothing)
    }
}

/// The acknowledgment number that covers a segment's payload and its FIN.
pub open spec fn ack_past_fin(s: SegmentView) -> u32 {
    seq_add(seq_add(s.seq, s.payload.len() as int), 1)
}

/// A segment after we have sent our FIN and before it was acknowledged.
pub open spec fn fin_wait1_step(t: TcbView, s: SegmentView, now: u64) -> (TcbView, ActionView) {
    let t1 = TcbView { last_activity: now, ..t };
    if s.rst {
        (TcbView { state: TcpState::Closed, ..t1 }, ActionView::Nothing)
    } else if s.fin && s.ack {
        (
            TcbView { state: TcpState::TimeWait, ..past_fin(t1, ack_past_fin(s)) },
            ActionView::SendAck { seq: t.local_seq, ack: ack_past_fin(s) },
        )
    } else if s.ack {
        (TcbView { state: TcpState::FinWait2, ..t1 }, ActionView::Nothing)
    } else {
        (t1, ActionView::Nothing)
    }
}

/// A segment after our FIN was acknowledged.
pub open spec fn fin_wait2_step(t: TcbView, s: SegmentView, now: u64) -> (TcbView, ActionView) {
    let t1 = TcbView { last_activity: now, ..t };
    if s.rst {
        (TcbView { state: TcpState::Closed, ..t1 }, ActionView::Nothing)
    } else if s.fin {
        (
            TcbView { state: TcpState::TimeWait, ..past_fin(t1, ack_past_fin(s)) },
            ActionView::SendAck { seq: t.local_seq, ack: ack_past_fin(s) },
        )
    } else {
        (t1, ActionView::Nothing)
    }
}

/// A segment after the peer's FIN, while the application has not closed.
pub open spec fn close_wait_step(t: TcbView, s: SegmentView, now: u64) -> (TcbView, ActionView) {
    let t1 = TcbView { last_activity: now, ..t };
    if s.rst {
        (TcbView { state: TcpState::Closed, ..t1 }, ActionView::Nothing)
    } else {
        (t1, ActionView::Nothing)
    }
}

/// A segment while we wait for the acknowledgment of our FIN.
pub open spec fn last_ack_step(t: TcbView, s: SegmentView, now: u64) -> (TcbView, ActionView) {
    let t1 = TcbView { last_activity: now, ..t };
    if s.ack {
        (TcbView { state: TcpState::Closed, ..t1 }, ActionView::Nothing)
    } else {
        (t1, ActionView::Nothing)
    }
}

/// A segment after both sides have closed: a repeated FIN is acknowledged
/// again.
pub open spec fn time_wait_step(t: TcbView, s: SegmentView, now: u64) -> (TcbView, ActionView) {
    let t1 = TcbView { last_activity: now, ..t };
    if s.fin {
        (t1, ActionView::SendAck { seq: t.local_seq, ack: t.local_ack })
    } else {
        (t1, ActionView::Nothing)
    }
}

/// What an inbound segment makes of a connection, and the follow-up work.
pub open spec fn on_segment_spec(t: TcbView, s: SegmentView, now: u64) -> (TcbView, ActionView) {
    match t.state {
        TcpState::SynSent => syn_sent_step(t, s, now),
        TcpState::Established => established_step(t, s, now),
        TcpState::FinWait1 => fin_wait1_step(t, s, now),
        TcpState::FinWait2 => fin_wait2_step(t, s, now),
        TcpState::CloseWait => close_wait_step(t, s, now),
        TcpState::LastAck => last_ack_step(t, s, now),
        TcpState::TimeWait => time_wait_step(t, s, now),
        TcpState::Closed => (t, ActionView::Nothing),
    }
}

/// Whether data can be sent in this state.
pub open spec fn can_send(state: TcpState) -> bool {
    state == TcpState::Established || state == TcpState::CloseWait
}

/// The flags of an outbound data segment: ACK, and PSH on the last one.
pub open spec fn data_flags(last: bool) -> u8 {
    if last {
        FLAG_ACK | FLAG_PSH
    } else {
        FLAG_ACK
    }
}

/// Application data cut into segments of at most [`MSS`] bytes, numbered
/// from `seq` and stamped `now`.
pub open spec fn segments_of(data: Seq<u8>, seq: u32, now: u64) -> Seq<SentView>
    decreases data.len(),
{
    if data.len() == 0 {
        Seq::empty()
    } else {
        let n: int = if data.len() <= MSS {
            data.len() as int
        } else {
            MSS as int
        };
        seq![
            SentView {
                seq,
                data: data.subrange(0, n),
                flags: data_flags(n == data.len()),
                sent_at: now,
                retransmit_count: 0,
            },
        ] + segments_of(data.subrange(n, data.len() as int), seq_add(seq, n), now)
    }
}

/// The outbound queue after each of `segments` was handed to it in turn,
/// all carrying the acknowledgment number `ack`.
pub open spec fn emit_all(out: Seq<Seq<u8>>, id: TcpConnectionId, ack: u32, segments: Seq<SentView>)
    -> Seq<Seq<u8>>
    decreases segments.len(),
{
    if segments.len() == 0 {
        out
    } else {
        emit_all(
            emit(out, id, segments[0].seq, ack, segments[0].flags, segments[0].data),
            id,
            ack,
            segments.drop_first(),
        )
    }
}

/// What sending `data` makes of a connection that can send.
pub open spec fn send_spec(t: TcbView, data: Seq<u8>, now: u64) -> TcbView {
    TcbView {
        last_activity: now,
        local_seq: seq_add(t.local_seq, data.len() as int),
        retransmit_queue: t.retransmit_queue + segments_of(data, t.local_seq, now),
        ..t
    }
}

/// Whether closing emits a FIN in this state.
pub open spec fn close_emits_fin(state: TcpState) -> bool {
    state == TcpState::Established || state == TcpState::CloseWait
}

/// What closing makes of a connection. An established connection waits
/// for its FIN to be acknowledged, one that the peer has closed waits for
/// the last acknowledgment; in both nothing is retransmitted any more. In
/// every other state closing changes nothing.
pub open spec fn close_spec(t: TcbView) -> TcbView {
    match t.state {
        TcpState::Established => TcbView {
            retransmit_queue: Seq::empty(),
            state: TcpState::FinWait1,
            ..t
        },
        TcpState::CloseWait => TcbView {
            retransmit_queue: Seq::empty(),
            state: TcpState::LastAck,
            ..t
        },
        _ => t,
    }
}

/// Whether the oldest unacknowledged segment is due for retransmission.
pub open spec fn head_due(t: TcbView, now: u64) -> bool {
    &&& can_send(t.state)
    &&& t.retransmit_queue.len() > 0
    &&& elapsed(now, t.retransmit_queue[0].sent_at) >= t.rto
    &&& t.retransmit_queue[0].retransmit_count < MAX_RETRANSMITS
}

/// Whether the oldest unacknowledged segment has been retransmitted as
/// often as allowed and has waited out the timeout once more: it is left
/// alone, and the connection is for the cleanup sweep to remove.
pub open spec fn head_exhausted(t: TcbView, now: u64) -> bool {
    &&& can_send(t.state)
    &&& t.retransmit_queue.len() > 0
    &&& elapsed(now, t.retransmit_queue[0].sent_at) >= t.rto
    &&& t.retransmit_queue[0].retransmit_count >= MAX_RETRANSMITS
}

/// The timeout after one more retransmission: doubled, up to the ceiling.
pub open spec fn backed_off(rto: u64) -> u64 {
    if rto * 2 >= MAX_RTO_MS {
        MAX_RTO_MS
    } else {
        (rto * 2) as u64
    }
}

/// The connection after its oldest unacknowledged segment was sent again.
pub open spec fn retransmit_spec(t: TcbView, now: u64) -> TcbView {
    let head = t.retransmit_queue[0];
    TcbView {
        retransmit_queue: t.retransmit_queue.update(
            0,
            SentView { retransmit_count: (head.retransmit_count + 1) as u32, sent_at: now, ..head },
        ),
        rto: backed_off(t.rto),
        ..t
    }
}

/// What one retransmission sweep makes of a connection.
pub open spec fn sweep_spec(t: TcbView, now: u64) -> TcbView {
    if head_due(t, now) {
        retransmit_spec(t, now)
    } else {
        t
    }
}

/// How long a connection may rest in a state, in milliseconds: 30 s while
/// its SYN is unanswered, 600 s while established, 120 s while closing,
/// 60 s in `TimeWait`, 5 s once closed.
pub open spec fn stale_after_ms(state: TcpState) -> u64 {
    match state {
        TcpState::SynSent => 30_000,
        TcpState::Established => 600_000,
        TcpState::FinWait1 | TcpState::FinWait2 | TcpState::CloseWait | TcpState::LastAck => 120_000,
        TcpState::TimeWait => 60_000,
        TcpState::Closed => 5_000,
    }
}

/// The age of a connection in milliseconds: counted from its creation
/// while its SYN is unanswered, and from its last activity afterwards.
pub open spec fn age_ms(t: TcbView, now: u64) -> u64 {
    if t.state == TcpState::SynSent {
        elapsed(now, t.created_at)
    } else {
        elapsed(now, t.last_activity)
    }
}

/// Whether the cleanup sweep removes the connection: its age exceeds what
/// its state allows.
pub open spec fn is_stale(t: TcbView, now: u64) -> bool {
    age_ms(t, now) > stale_after_ms(t.state)
}

/// The connection after the application's receiver was found gone.
pub open spec fn receiver_gone_spec(t: TcbView, now: u64) -> TcbView {
    TcbView { state: TcpState::Closed, last_activity: now, ..t }
}

} // verus!
