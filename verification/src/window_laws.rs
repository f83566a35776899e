//! Laws of the send window: what has been sent and not acknowledged lies
//! between the unacknowledged mark and the next sequence number to send.

use crate::conn_id::TcpConnectionId;
use crate::model::fresh_tcb;
use crate::model::SentView;
use crate::model::TcbView;
use crate::model::TcpState;
use crate::seqnum::lemma_add_offset_of;
use crate::seqnum::lemma_mod_range;
use crate::seqnum::lemma_offset_of_add;
use crate::seqnum::lemma_seq_add_add;
use crate::seqnum::lemma_seq_diff_offsets;
use crate::seqnum::offset_of;
use crate::seqnum::seq_add;
use crate::seqnum::seq_diff;
use crate::transitions::acks_new_data;
use crate::transitions::close_spec;
use crate::transitions::drop_acked;
use crate::transitions::on_segment_spec;
use crate::transitions::process_ack;
use crate::transitions::receiver_gone_spec;
use crate::transitions::segments_of;
use crate::transitions::send_spec;
use crate::transitions::sent_end;
use crate::transitions::sweep_spec;
use crate::wire::SegmentView;
use crate::wire::MSS;
use vstd::prelude::*;

verus! {

/// Bytes sent and not yet acknowledged: how far the next sequence number
/// to send lies ahead of the unacknowledged mark.
pub open spec fn in_flight(t: TcbView) -> int {
    seq_diff(t.local_seq, t.snd_una)
}

/// How far a sequence number lies ahead of the unacknowledged mark.
pub open spec fn ahead_of_una(t: TcbView, seq: u32) -> int {
    seq_diff(seq, t.snd_una)
}

/// Whether the send side is in order: the unacknowledged mark is not past
/// the next sequence number to send, and the segments of the retransmit
/// queue are non-empty, lie between the two, and follow one another in
/// sequence order.
pub open spec fn send_window_ok(t: TcbView) -> bool {
    let q = t.retransmit_queue;
    &&& 0 <= in_flight(t)
    &&& forall|i: int|
        0 <= i < q.len() ==> {
            &&& 0 <= ahead_of_una(t, (#[trigger] q[i]).seq)
            &&& q[i].data.len() > 0
            &&& ahead_of_una(t, q[i].seq) + q[i].data.len() <= in_flight(t)
        }
    &&& forall|i: int, j: int|
        0 <= i < j < q.len() ==> ahead_of_una(t, (#[trigger] q[i]).seq) < ahead_of_una(
            t,
            (#[trigger] q[j]).seq,
        )
}

/// Whether an acknowledgment number is one the peer can rightly send: it
/// acknowledges nothing that was not sent, and it does not fall inside a
/// segment of the retransmit queue.
pub open spec fn acknowledges_whole_segments(t: TcbView, ack_num: u32) -> bool {
    let q = t.retransmit_queue;
    &&& ahead_of_una(t, ack_num) <= in_flight(t)
    &&& forall|i: int|
        0 <= i < q.len() ==> ahead_of_una(t, (#[trigger] q[i]).seq) + q[i].data.len()
            <= ahead_of_una(t, ack_num) || ahead_of_una(t, ack_num) <= ahead_of_una(t, q[i].seq)
}

/// A sequence number that is not behind the base is as far ahead of it as
/// its offset says.
proof fn lemma_offset_is_diff(base: u32, x: u32)
    requires
        0 <= seq_diff(x, base),
    ensures
        offset_of(base, x) == seq_diff(x, base),
        0 <= offset_of(base, x) < 0x8000_0000,
{
    lemma_mod_range(x as int - base as int);
}

/// The sequence number `n` steps after one that is `d` ahead of the base
/// is `d + n` ahead, as long as that stays below 2^31.
proof fn lemma_ahead_add(base: u32, x: u32, n: int)
    requires
        0 <= seq_diff(x, base),
        0 <= n,
        seq_diff(x, base) + n < 0x8000_0000,
    ensures
        offset_of(base, seq_add(x, n)) == seq_diff(x, base) + n,
        seq_diff(seq_add(x, n), base) == seq_diff(x, base) + n,
{
    let d = seq_diff(x, base);
    lemma_offset_is_diff(base, x);
    lemma_add_offset_of(base, x);
    lemma_seq_add_add(base, d, n);
    lemma_offset_of_add(base, d + n);
    lemma_offset_of_add(base, 0);
    crate::seqnum::lemma_seq_add_zero(base);
    lemma_seq_diff_offsets(base, seq_add(x, n), base);
}

/// What the segments cut from `data` look like: the `j`-th starts `j`
/// segment sizes after the first sequence number, is not empty and ends
/// within the data.
proof fn lemma_segments_of(data: Seq<u8>, seq: u32, now: u64, j: int)
    requires
        0 <= j < segments_of(data, seq, now).len(),
    ensures
        segments_of(data, seq, now)[j].seq == seq_add(seq, j * MSS),
        segments_of(data, seq, now)[j].data.len() > 0,
        segments_of(data, seq, now)[j].data.len() <= MSS,
        j * MSS + segments_of(data, seq, now)[j].data.len() <= data.len(),
        segments_of(data, seq, now)[j].retransmit_count == 0,
        segments_of(data, seq, now)[j].sent_at == now,
    decreases data.len(),
{
    if data.len() > 0 {
        let n: int = if data.len() <= MSS {
            data.len() as int
        } else {
            MSS as int
        };
        let rest = data.subrange(n, data.len() as int);
        let tail = segments_of(rest, seq_add(seq, n), now);
        if j == 0 {
            crate::seqnum::lemma_seq_add_zero(seq);
        } else {
            assert(segments_of(data, seq, now)[j] == tail[j - 1]);
            lemma_segments_of(rest, seq_add(seq, n), now, j - 1);
            assert(n == MSS);
            lemma_seq_add_add(seq, n, (j - 1) * MSS);
        }
    }
}

/// Data is cut into as many segments as it takes at one segment size
/// each: the length divided by the segment size, rounded up.
proof fn lemma_segments_count(data: Seq<u8>, seq: u32, now: u64)
    ensures
        segments_of(data, seq, now).len() == (data.len() + MSS - 1) / (MSS as int),
    decreases data.len(),
{
    if data.len() > 0 {
        let n: int = if data.len() <= MSS {
            data.len() as int
        } else {
            MSS as int
        };
        let rest = data.subrange(n, data.len() as int);
        lemma_segments_count(rest, seq_add(seq, n), now);
    }
}

/// Whether what waits for its acknowledgment lies within what was sent:
/// the unacknowledged mark is not past the next sequence number to send,
/// and every segment in the retransmit queue starts at or after the mark
/// and before that number.
pub open spec fn unacknowledged_within_sent(t: TcbView) -> bool {
    &&& 0 <= in_flight(t)
    &&& forall|i: int|
        0 <= i < t.retransmit_queue.len() ==> 0 <= ahead_of_una(
            t,
            (#[trigger] t.retransmit_queue[i]).seq,
        ) < in_flight(t)
}

/// Sending keeps what waits for its acknowledgment within what was sent,
/// as long as fewer than 2^31 bytes are in flight afterwards. The next
/// sequence number moves on by the length of the data, the
/// unacknowledged mark stays, and the queue grows by one fresh segment per
/// segment size, each starting where the one before it ends and all
/// ending at or before the new next sequence number.
pub proof fn law_send_keeps_segments_within_sent(t: TcbView, data: Seq<u8>, now: u64)
    requires
        unacknowledged_within_sent(t),
        in_flight(t) + data.len() < 0x8000_0000,
    ensures
        ({
            let after = send_spec(t, data, now);
            let fresh = segments_of(data, t.local_seq, now);
            &&& after.local_seq == seq_add(t.local_seq, data.len() as int)
            &&& after.snd_una == t.snd_una
            &&& in_flight(after) == in_flight(t) + data.len()
            &&& after.retransmit_queue == t.retransmit_queue + fresh
            &&& fresh.len() == (data.len() + MSS - 1) / (MSS as int)
            &&& forall|j: int|
                0 <= j < fresh.len() ==> {
                    &&& (#[trigger] fresh[j]).seq == seq_add(t.local_seq, j * MSS)
                    &&& fresh[j].retransmit_count == 0
                    &&& 0 < fresh[j].data.len() <= MSS
                    &&& ahead_of_una(after, fresh[j].seq) == in_flight(t) + j * MSS
                    &&& ahead_of_una(after, fresh[j].seq) + fresh[j].data.len() <= in_flight(after)
                }
            &&& unacknowledged_within_sent(after)
        }),
{
    let after = send_spec(t, data, now);
    let old_q = t.retransmit_queue;
    let fresh = segments_of(data, t.local_seq, now);
    let q = after.retransmit_queue;
    lemma_segments_count(data, t.local_seq, now);
    lemma_ahead_add(t.snd_una, t.local_seq, data.len() as int);
    assert forall|j: int| 0 <= j < fresh.len() implies {
        &&& (#[trigger] fresh[j]).seq == seq_add(t.local_seq, j * MSS)
        &&& fresh[j].retransmit_count == 0
        &&& 0 < fresh[j].data.len() <= MSS
        &&& ahead_of_una(after, fresh[j].seq) == in_flight(t) + j * MSS
        &&& ahead_of_una(after, fresh[j].seq) + fresh[j].data.len() <= in_flight(after)
    } by {
        lemma_segments_of(data, t.local_seq, now, j);
        lemma_ahead_add(t.snd_una, t.local_seq, j * MSS);
    }
    assert forall|i: int| 0 <= i < q.len() implies 0 <= ahead_of_una(after, (#[trigger] q[i]).seq)
        < in_flight(after) by {
        if i < old_q.len() {
            assert(q[i] == old_q[i]);
        } else {
            assert(q[i] == fresh[i - old_q.len()]);
        }
    }
}

/// Number of leading segments that an acknowledgment covers.
spec fn covered(q: Seq<SentView>, una: u32) -> int
    decreases q.len(),
{
    if q.len() > 0 && seq_diff(sent_end(q[0]), una) <= 0 {
        1 + covered(q.drop_first(), una)
    } else {
        0
    }
}

/// Dropping acknowledged segments leaves a tail of the queue: everything
/// before it ends at or before the acknowledgment, and its first segment,
/// if there is one, ends after.
proof fn lemma_drop_acked(q: Seq<SentView>, una: u32)
    ensures
        0 <= covered(q, una) <= q.len(),
        drop_acked(q, una) == q.subrange(covered(q, una), q.len() as int),
        forall|i: int| 0 <= i < covered(q, una) ==> seq_diff(sent_end(#[trigger] q[i]), una) <= 0,
        covered(q, una) < q.len() ==> seq_diff(sent_end(q[covered(q, una)]), una) > 0,
    decreases q.len(),
{
    if q.len() > 0 && seq_diff(sent_end(q[0]), una) <= 0 {
        let rest = q.drop_first();
        lemma_drop_acked(rest, una);
        let k = covered(rest, una);
        assert(rest.subrange(k, rest.len() as int) =~= q.subrange(k + 1, q.len() as int));
        assert forall|i: int| 0 <= i < covered(q, una) implies seq_diff(
            sent_end(#[trigger] q[i]),
            una,
        ) <= 0 by {
            if i > 0 {
                assert(q[i] == rest[i - 1]);
            }
        }
        if k < rest.len() {
            assert(rest[k] == q[k + 1]);
        }
    } else {
        assert(q.subrange(0, q.len() as int) =~= q);
    }
}

/// A new connection has its send side in order.
pub proof fn law_send_window_of_new_connection(id: TcpConnectionId, initial_seq: u32, now: u64)
    ensures
        send_window_ok(fresh_tcb(id, initial_seq, now)),
{
    lemma_mod_range(0);
}

/// With the send side in order, the unacknowledged mark is not past the
/// next sequence number to send, and every segment in the retransmit
/// queue starts at or after the mark and before that number.
pub proof fn law_unacknowledged_within_sent(t: TcbView)
    requires
        send_window_ok(t),
    ensures
        0 <= seq_diff(t.local_seq, t.snd_una),
        forall|i: int|
            0 <= i < t.retransmit_queue.len() ==> 0 <= seq_diff(
                (#[trigger] t.retransmit_queue[i]).seq,
                t.snd_una,
            ) < seq_diff(t.local_seq, t.snd_una),
{
    assert forall|i: int| 0 <= i < t.retransmit_queue.len() implies 0 <= seq_diff(
        (#[trigger] t.retransmit_queue[i]).seq,
        t.snd_una,
    ) < seq_diff(t.local_seq, t.snd_una) by {
        assert(ahead_of_una(t, t.retransmit_queue[i].seq) + t.retransmit_queue[i].data.len()
            <= in_flight(t));
    }
}

/// Sending keeps the send side in order, as long as fewer than 2^31 bytes
/// are in flight afterwards.
pub proof fn law_send_keeps_window(t: TcbView, data: Seq<u8>, now: u64)
    requires
        send_window_ok(t),
        in_flight(t) + data.len() < 0x8000_0000,
    ensures
        send_window_ok(send_spec(t, data, now)),
        in_flight(send_spec(t, data, now)) == in_flight(t) + data.len(),
{
    let after = send_spec(t, data, now);
    let old_q = t.retransmit_queue;
    let new = segments_of(data, t.local_seq, now);
    let q = after.retransmit_queue;
    lemma_ahead_add(t.snd_una, t.local_seq, data.len() as int);
    assert forall|i: int| 0 <= i < q.len() implies {
        &&& 0 <= ahead_of_una(after, (#[trigger] q[i]).seq)
        &&& q[i].data.len() > 0
        &&& ahead_of_una(after, q[i].seq) + q[i].data.len() <= in_flight(after)
        &&& i >= old_q.len() ==> ahead_of_una(after, q[i].seq) == in_flight(t) + (i - old_q.len())
            * MSS
        &&& i < old_q.len() ==> ahead_of_una(after, q[i].seq) < in_flight(t)
    } by {
        if i < old_q.len() {
            assert(q[i] == old_q[i]);
            assert(ahead_of_una(t, old_q[i].seq) + old_q[i].data.len() <= in_flight(t));
        } else {
            let j = i - old_q.len();
            assert(q[i] == new[j]);
            lemma_segments_of(data, t.local_seq, now, j);
            lemma_ahead_add(t.snd_una, t.local_seq, j * MSS);
        }
    }
    assert forall|i: int, j: int| 0 <= i < j < q.len() implies ahead_of_una(
        after,
        (#[trigger] q[i]).seq,
    ) < ahead_of_una(after, (#[trigger] q[j]).seq) by {
        if j < old_q.len() {
            assert(q[i] == old_q[i] && q[j] == old_q[j]);
        }
    }
}

/// An acknowledgment of whole segments keeps the send side in order.
proof fn lemma_ack_keeps_window(t: TcbView, s: SegmentView)
    requires
        send_window_ok(t),
        acks_new_data(t, s) ==> acknowledges_whole_segments(t, s.ack_num),
    ensures
        send_window_ok(process_ack(t, s)),
{
    if acks_new_data(t, s) {
        let after = process_ack(t, s);
        let q = t.retransmit_queue;
        let una = t.snd_una;
        let a = s.ack_num;
        let da = seq_diff(a, una);
        lemma_drop_acked(q, a);
        let k = covered(q, a);
        let rest = after.retransmit_queue;
        lemma_offset_is_diff(una, a);
        lemma_offset_is_diff(una, t.local_seq);
        lemma_seq_diff_offsets(una, t.local_seq, a);
        assert(in_flight(after) == in_flight(t) - da);
        assert forall|i: int| 0 <= i < q.len() implies {
            &&& seq_diff((#[trigger] q[i]).seq, a) == ahead_of_una(t, q[i].seq) - da
            &&& seq_diff(sent_end(q[i]), a) == ahead_of_una(t, q[i].seq) + q[i].data.len() - da
        } by {
            assert(ahead_of_una(t, q[i].seq) + q[i].data.len() <= in_flight(t));
            lemma_offset_is_diff(una, q[i].seq);
            lemma_seq_diff_offsets(una, q[i].seq, a);
            lemma_ahead_add(una, q[i].seq, q[i].data.len() as int);
            lemma_seq_diff_offsets(una, sent_end(q[i]), a);
        }
        if k < q.len() {
            assert(seq_diff(sent_end(q[k]), a) > 0);
            assert(ahead_of_una(t, q[k].seq) >= da);
        }
        assert forall|i: int| 0 <= i < rest.len() implies {
            &&& 0 <= ahead_of_una(after, (#[trigger] rest[i]).seq)
            &&& rest[i].data.len() > 0
            &&& ahead_of_una(after, rest[i].seq) + rest[i].data.len() <= in_flight(after)
            &&& ahead_of_una(after, rest[i].seq) == ahead_of_una(t, q[i + k].seq) - da
        } by {
            assert(rest[i] == q[i + k]);
            assert(ahead_of_una(t, q[i + k].seq) + q[i + k].data.len() <= in_flight(t));
            if i > 0 {
                assert(ahead_of_una(t, q[k].seq) < ahead_of_una(t, q[i + k].seq));
            }
        }
        assert forall|i: int, j: int| 0 <= i < j < rest.len() implies ahead_of_una(
            after,
            (#[trigger] rest[i]).seq,
        ) < ahead_of_una(after, (#[trigger] rest[j]).seq) by {
            assert(rest[i] == q[i + k] && rest[j] == q[j + k]);
            assert(ahead_of_una(t, q[i + k].seq) < ahead_of_una(t, q[j + k].seq));
        }
    }
}

/// Handling an inbound segment keeps the send side in order, provided an
/// acknowledgment that makes progress on an established connection
/// acknowledges whole segments that were sent.
pub proof fn law_segment_keeps_window(t: TcbView, s: SegmentView, now: u64)
    requires
        t.inv(),
        send_window_ok(t),
        t.state == TcpState::Established && acks_new_data(t, s) ==> acknowledges_whole_segments(
            t,
            s.ack_num,
        ),
    ensures
        send_window_ok(on_segment_spec(t, s, now).0),
{
    lemma_mod_range(0);
    if t.state == TcpState::Established {
        let t0 = TcbView { last_activity: now, ..t };
        assert(send_window_ok(t0));
        assert(acks_new_data(t0, s) == acks_new_data(t, s));
        lemma_ack_keeps_window(t0, s);
    }
}

/// Closing, a retransmission sweep and the loss of the receiver keep the
/// send side in order.
pub proof fn law_maintenance_keeps_window(t: TcbView, now: u64)
    requires
        send_window_ok(t),
    ensures
        send_window_ok(close_spec(t)),
        send_window_ok(sweep_spec(t, now)),
        send_window_ok(receiver_gone_spec(t, now)),
{
}

} // verus!
