//! The transmission control block: per-connection state and the
//! operations of the segment engine on it.

use crate::conn_id::TcpConnectionId;
use crate::model::ActionView;
use crate::model::SentView;
use crate::model::TcbView;
use crate::model::TcpState;
use crate::model::fresh_tcb;
use crate::model::DEFAULT_REORDER_BUDGET;
use crate::model::INITIAL_RTO_MS;
use crate::model::MAX_RETRANSMITS;
use crate::model::MAX_RTO_MS;
use crate::reorder::drain;
use crate::reorder::lemma_drain;
use crate::reorder::lemma_total_empty;
use crate::reorder::lemma_total_insert;
use crate::reorder::lemma_total_remove;
use crate::reorder::total_bytes;
use crate::seqnum::seq_add;
use crate::seqnum::seq_advance;
use crate::seqnum::seq_delta;
use crate::seqnum::seq_diff;
use crate::transitions::can_send;
use crate::transitions::close_emits_fin;
use crate::transitions::close_spec;
use crate::transitions::data_step;
use crate::transitions::drop_acked;
use crate::transitions::emit_all;
use crate::transitions::established_step;
use crate::transitions::fin_step;
use crate::transitions::head_due;
use crate::transitions::head_exhausted;
use crate::transitions::is_stale;
use crate::transitions::on_segment_spec;
use crate::transitions::past_fin;
use crate::transitions::process_ack;
use crate::transitions::receiver_gone_spec;
use crate::transitions::segments_of;
use crate::transitions::send_spec;
use crate::transitions::sent_end;
use crate::transitions::sweep_spec;
use crate::transitions::syn_sent_step;
use crate::wire::payloads;
use crate::wire::send_tcp_packet;
use crate::wire::FLAG_ACK;
use crate::wire::FLAG_PSH;
use crate::wire::MSS;
use crate::wire::TcpSegment;
use std::collections::BTreeMap;
use std::collections::VecDeque;
use vstd::prelude::*;
use vstd::slice::slice_subrange;
use vstd::slice::slice_to_vec;

verus! {

/// A segment stored for potential retransmission.
#[derive(Debug)]
pub struct RetransmitSegment {
    pub seq: u32,
    pub data: Vec<u8>,
    pub flags: u8,
    pub sent_at: u64,
    pub retransmit_count: u32,
}

impl View for RetransmitSegment {
    type V = SentView;

    open spec fn view(&self) -> SentView {
        SentView {
            seq: self.seq,
            data: self.data@,
            flags: self.flags,
            sent_at: self.sent_at,
            retransmit_count: self.retransmit_count,
        }
    }
}

/// The reorder buffer as a map from sequence number to payload.
pub open spec fn buffer_view(m: Map<u32, Vec<u8>>) -> Map<u32, Seq<u8>> {
    m.map_values(|d: Vec<u8>| d@)
}

/// The retransmit queue as a list of mathematical segments.
pub open spec fn queue_view(q: Seq<RetransmitSegment>) -> Seq<SentView> {
    q.map_values(|s: RetransmitSegment| s@)
}

/// Action to perform after an inbound segment has been handled.
#[derive(Debug)]
pub enum TcpPacketAction {
    SendAck { seq: u32, ack: u32 },
    SendFinAck { seq: u32, ack: u32 },
    SendData { seq: u32, ack: u32, data: Vec<u8> },
    /// Multiple data segments to deliver (reorder buffer flush).
    SendMultipleData { seq: u32, ack: u32, data_segments: Vec<Vec<u8>> },
    /// Deliver the data segments, then signal end of stream.
    SendDataThenFinAck { seq: u32, ack: u32, data_segments: Vec<Vec<u8>> },
    /// Out-of-order segment buffered, send duplicate ACK.
    BufferedOutOfOrder { seq: u32, ack: u32 },
    /// Reorder buffer full: out-of-order segment dropped, send ACK.
    DroppedOutOfOrder { seq: u32, ack: u32 },
    ConnectionEstablished { seq: u32, ack: u32 },
    /// Connection reset during handshake (notify waiters).
    ConnectionReset,
    /// Signal end of stream to the application (reset by peer).
    SignalEof,
    Nothing,
}

impl View for TcpPacketAction {
    type V = ActionView;

    open spec fn view(&self) -> ActionView {
        match *self {
            TcpPacketAction::SendAck { seq, ack } => ActionView::SendAck { seq, ack },
            TcpPacketAction::SendFinAck { seq, ack } => ActionView::SendFinAck { seq, ack },
            TcpPacketAction::SendData { seq, ack, data } => ActionView::SendData {
                seq,
                ack,
                data: data@,
            },
            TcpPacketAction::SendMultipleData {
                seq,
                ack,
                data_segments,
            } => ActionView::SendMultipleData { seq, ack, data_segments: payloads(data_segments@) },
            TcpPacketAction::SendDataThenFinAck {
                seq,
                ack,
                data_segments,
            } => ActionView::SendDataThenFinAck { seq, ack, data_segments: payloads(data_segments@) },
            TcpPacketAction::BufferedOutOfOrder { seq, ack } => ActionView::BufferedOutOfOrder {
                seq,
                ack,
            },
            TcpPacketAction::DroppedOutOfOrder { seq, ack } => ActionView::DroppedOutOfOrder {
                seq,
                ack,
            },
            TcpPacketAction::ConnectionEstablished {
                seq,
                ack,
            } => ActionView::ConnectionEstablished { seq, ack },
            TcpPacketAction::ConnectionReset => ActionView::ConnectionReset,
            TcpPacketAction::SignalEof => ActionView::SignalEof,
            TcpPacketAction::Nothing => ActionView::Nothing,
        }
    }
}

/// What the embedding program does with an action once the stack has
/// queued the reply: hand `payloads` to the application's receiver in
/// order, then the empty end-of-stream marker if `eof`, and wake waiting
/// threads if `notify`. If the receiver is gone while a payload is handed
/// over, delivery stops, and where `close_on_disconnect` the connection is
/// to be reported as closed.
#[derive(Debug)]
pub struct Delivery {
    pub payloads: Vec<Vec<u8>>,
    pub eof: bool,
    pub close_on_disconnect: bool,
    pub notify: bool,
}

impl TcpPacketAction {
    /// Sequence and acknowledgment number of the ACK to emit, if any.
    pub fn reply(&self) -> (r: Option<(u32, u32)>)
        ensures
            r == self@.reply(),
    {
        match self {
            TcpPacketAction::SendAck { seq, ack } => Some((*seq, *ack)),
            TcpPacketAction::SendFinAck { seq, ack } => Some((*seq, *ack)),
            TcpPacketAction::SendData { seq, ack, .. } => Some((*seq, *ack)),
            TcpPacketAction::SendMultipleData { seq, ack, .. } => Some((*seq, *ack)),
            TcpPacketAction::SendDataThenFinAck { seq, ack, .. } => Some((*seq, *ack)),
            TcpPacketAction::BufferedOutOfOrder { seq, ack } => Some((*seq, *ack)),
            TcpPacketAction::DroppedOutOfOrder { seq, ack } => Some((*seq, *ack)),
            TcpPacketAction::ConnectionEstablished { seq, ack } => Some((*seq, *ack)),
            TcpPacketAction::ConnectionReset => None,
            TcpPacketAction::SignalEof => None,
            TcpPacketAction::Nothing => None,
        }
    }

    /// The part of the action that is left to the embedding program.
    pub fn into_delivery(self) -> (d: Delivery)
        ensures
            payloads(d.payloads@) == self@.deliveries(),
            d.eof == self@.signals_eof(),
            d.close_on_disconnect == self@.closes_on_disconnect(),
            d.notify == self@.notifies(),
    {
        match self {
            TcpPacketAction::SendFinAck { .. } => Delivery {
                payloads: no_payloads(),
                eof: true,
                close_on_disconnect: false,
                notify: false,
            },
            TcpPacketAction::SendData { data, .. } => {
                let mut list: Vec<Vec<u8>> = Vec::new();
                list.push(data);
                assert(payloads(list@) =~= seq![data@]);
                Delivery { payloads: list, eof: false, close_on_disconnect: true, notify: false }
            },
            TcpPacketAction::SendMultipleData { data_segments, .. } => Delivery {
                payloads: data_segments,
                eof: false,
                close_on_disconnect: true,
                notify: false,
            },
            TcpPacketAction::SendDataThenFinAck { data_segments, .. } => Delivery {
                payloads: data_segments,
                eof: true,
                close_on_disconnect: false,
                notify: false,
            },
            TcpPacketAction::ConnectionEstablished { .. } => Delivery {
                payloads: no_payloads(),
                eof: false,
                close_on_disconnect: false,
                notify: true,
            },
            TcpPacketAction::ConnectionReset => Delivery {
                payloads: no_payloads(),
                eof: false,
                close_on_disconnect: false,
                notify: true,
            },
            TcpPacketAction::SignalEof => Delivery {
                payloads: no_payloads(),
                eof: true,
                close_on_disconnect: false,
                notify: false,
            },
            _ => Delivery {
                payloads: no_payloads(),
                eof: false,
                close_on_disconnect: false,
                notify: false,
            },
        }
    }
}

/// An empty list of payloads.
fn no_payloads() -> (list: Vec<Vec<u8>>)
    ensures
        payloads(list@) == Seq::<Seq<u8>>::empty(),
{
    let list: Vec<Vec<u8>> = Vec::new();
    assert(payloads(list@) =~= Seq::<Seq<u8>>::empty());
    list
}

/// The view of a buffer has the keys of the buffer.
proof fn lemma_buffer_view_dom(m: Map<u32, Vec<u8>>)
    ensures
        buffer_view(m).dom() == m.dom(),
        m.dom().finite() ==> buffer_view(m).dom().finite(),
{
    assert(buffer_view(m).dom() =~= m.dom());
}

/// Whether a segment that starts at `seq` is buffered.
fn holds_segment_at(buffer: &BTreeMap<u32, Vec<u8>>, seq: u32) -> (b: bool)
    ensures
        b == buffer_view(buffer@).contains_key(seq),
{
    proof {
        lemma_buffer_view_dom(buffer@);
    }
    buffer.contains_key(&seq)
}

/// Moves the segments that follow one another from `ack` on out of the
/// reorder buffer, to the end of `segments`, and returns the sequence
/// number reached.
fn drain_into(
    buffer: &mut BTreeMap<u32, Vec<u8>>,
    bytes: &mut usize,
    ack: u32,
    segments: &mut Vec<Vec<u8>>,
) -> (reached: u32)
    requires
        *old(bytes) == total_bytes(buffer_view(old(buffer)@)),
    ensures
        buffer_view(final(buffer)@) == drain(buffer_view(old(buffer)@), ack).buffer,
        reached == drain(buffer_view(old(buffer)@), ack).ack,
        payloads(final(segments)@) == payloads(old(segments)@) + drain(
            buffer_view(old(buffer)@),
            ack,
        ).segments,
        *final(bytes) == total_bytes(buffer_view(final(buffer)@)),
{
    let ghost m0 = buffer_view(buffer@);
    let ghost s0 = payloads(segments@);
    let mut cur: u32 = ack;
    let mut go: bool = holds_segment_at(buffer, cur);
    proof {
        lemma_buffer_view_dom(buffer@);
        assert(payloads(segments@) + drain(buffer_view(buffer@), cur).segments =~= s0 + drain(
            m0,
            ack,
        ).segments);
    }
    while go
        invariant
            buffer@.dom().finite(),
            go == buffer_view(buffer@).contains_key(cur),
            *bytes == total_bytes(buffer_view(buffer@)),
            drain(buffer_view(buffer@), cur).buffer == drain(m0, ack).buffer,
            drain(buffer_view(buffer@), cur).ack == drain(m0, ack).ack,
            payloads(segments@) + drain(buffer_view(buffer@), cur).segments == s0 + drain(
                m0,
                ack,
            ).segments,
        decreases buffer@.dom().len(),
    {
        let ghost m = buffer_view(buffer@);
        let ghost before = payloads(segments@);
        proof {
            lemma_buffer_view_dom(buffer@);
        }
        let removed = buffer.remove(&cur);
        let data = removed.unwrap();
        proof {
            lemma_buffer_view_dom(buffer@);
            assert(buffer_view(buffer@) =~= m.remove(cur));
            assert(data@ == m[cur]);
            lemma_total_remove(m, cur);
        }
        *bytes = *bytes - data.len();
        let next: u32 = seq_advance(cur, data.len());
        segments.push(data);
        proof {
            assert(payloads(segments@) =~= before.push(m[cur]));
            let rest = drain(m.remove(cur), next);
            assert(before.push(m[cur]) + rest.segments =~= before + (seq![m[cur]] + rest.segments));
        }
        cur = next;
        go = holds_segment_at(buffer, cur);
    }
    proof {
        lemma_buffer_view_dom(buffer@);
        assert(payloads(segments@) + Seq::<Seq<u8>>::empty() =~= payloads(segments@));
    }
    cur
}

/// Stores an out-of-order payload under its sequence number, replacing
/// what was stored there before, and keeps the byte count.
fn buffer_segment(buffer: &mut BTreeMap<u32, Vec<u8>>, bytes: &mut usize, seq: u32, data: Vec<u8>)
    requires
        *old(bytes) == total_bytes(buffer_view(old(buffer)@)),
        *old(bytes) + data@.len() <= usize::MAX,
    ensures
        buffer_view(final(buffer)@) == buffer_view(old(buffer)@).insert(seq, data@),
        *final(bytes) == total_bytes(buffer_view(final(buffer)@)),
        *final(bytes) <= *old(bytes) + data@.len(),
{
    let ghost m = buffer_view(buffer@);
    let n: usize = data.len();
    proof {
        lemma_total_insert(m, seq, data@);
    }
    let previous = buffer.insert(seq, data);
    proof {
        assert(buffer_view(buffer@) =~= m.insert(seq, data@));
    }
    match previous {
        Some(prev) => {
            proof {
                assert(prev@ == m[seq]);
                lemma_total_remove(m, seq);
            }
            *bytes = *bytes - prev.len() + n;
        },
        None => {
            *bytes = *bytes + n;
        },
    }
}

/// Pops every leading segment of the retransmit queue that ends at or
/// before `una`.
fn drop_acked_segments(queue: &mut VecDeque<RetransmitSegment>, una: u32)
    ensures
        queue_view(final(queue)@) == drop_acked(queue_view(old(queue)@), una),
{
    let ghost q0 = queue_view(queue@);
    loop
        invariant
            drop_acked(queue_view(queue@), una) == drop_acked(q0, una),
        ensures
            queue_view(queue@) == drop_acked(q0, una),
        decreases queue@.len(),
    {
        if queue.len() == 0 {
            break ;
        }
        let front = &queue[0];
        let seg_end: u32 = seq_advance(front.seq, front.data.len());
        assert(seg_end == sent_end(queue_view(queue@)[0]));
        if seq_delta(seg_end, una) <= 0 {
            let ghost q = queue_view(queue@);
            queue.pop_front();
            assert(queue_view(queue@) =~= q.drop_first());
        } else {
            break ;
        }
    }
}

/// Cuts `data` into segments of at most [`MSS`] bytes, queues a datagram
/// for each and appends each to the retransmit queue.
fn send_segments(
    queue: &mut VecDeque<RetransmitSegment>,
    outgoing: &mut Vec<Vec<u8>>,
    id: TcpConnectionId,
    first_seq: u32,
    ack: u32,
    data: &[u8],
    now: u64,
)
    ensures
        queue_view(final(queue)@) == queue_view(old(queue)@) + segments_of(data@, first_seq, now),
        payloads(final(outgoing)@) == emit_all(
            payloads(old(outgoing)@),
            id,
            ack,
            segments_of(data@, first_seq, now),
        ),
{
    let ghost q0 = queue_view(queue@);
    let ghost out0 = payloads(outgoing@);
    let ghost all = segments_of(data@, first_seq, now);
    let mss: usize = MSS as usize;
    let mut seq: u32 = first_seq;
    let mut offset: usize = 0;
    proof {
        assert(data@.subrange(0, data@.len() as int) =~= data@);
    }
    while offset < data.len()
        invariant
            offset <= data.len(),
            mss == MSS,
            all == segments_of(data@, first_seq, now),
            queue_view(queue@) + segments_of(data@.subrange(offset as int, data@.len() as int), seq, now)
                == q0 + all,
            emit_all(
                payloads(outgoing@),
                id,
                ack,
                segments_of(data@.subrange(offset as int, data@.len() as int), seq, now),
            ) == emit_all(out0, id, ack, all),
        decreases data.len() - offset,
    {
        let remaining: usize = data.len() - offset;
        let n: usize = if remaining <= mss {
            remaining
        } else {
            mss
        };
        let chunk = slice_subrange(data, offset, offset + n);
        let flags: u8 = if offset + n == data.len() {
            FLAG_ACK | FLAG_PSH
        } else {
            FLAG_ACK
        };
        let ghost rest = data@.subrange(offset as int, data@.len() as int);
        let ghost tail = segments_of(
            rest.subrange(n as int, rest.len() as int),
            seq_add(seq, n as int),
            now,
        );
        let ghost head = SentView { seq, data: chunk@, flags, sent_at: now, retransmit_count: 0 };
        let ghost before = queue_view(queue@);
        proof {
            assert(rest.subrange(0, n as int) =~= chunk@);
            assert(rest.subrange(n as int, rest.len() as int) =~= data@.subrange(
                offset + n,
                data@.len() as int,
            ));
            assert(segments_of(rest, seq, now) == seq![head] + tail);
            assert((seq![head] + tail).drop_first() =~= tail);
        }
        send_tcp_packet(outgoing, &id, seq, ack, flags, chunk);
        queue.push_back(
            RetransmitSegment {
                seq,
                data: slice_to_vec(chunk),
                flags,
                sent_at: now,
                retransmit_count: 0,
            },
        );
        proof {
            assert(queue_view(queue@) =~= before.push(head));
            assert(before.push(head) + tail =~= before + (seq![head] + tail));
        }
        seq = seq_advance(seq, n);
        offset = offset + n;
    }
    proof {
        assert(data@.subrange(offset as int, data@.len() as int) =~= Seq::<u8>::empty());
        assert(queue_view(queue@) + Seq::<SentView>::empty() =~= queue_view(queue@));
    }
}

/// TCP control block: tracks per-connection state.
pub struct TcpControlBlock {
    id: TcpConnectionId,
    state: TcpState,
    local_seq: u32,
    /// The initial sequence number used in the SYN (for retransmission).
    initial_seq: u32,
    /// The next expected sequence number from the remote (used for ACKs).
    local_ack: u32,
    /// The oldest byte we have sent that has not been acknowledged.
    snd_una: u32,
    created_at: u64,
    last_activity: u64,
    /// Out-of-order segment buffer: sequence number to data.
    reorder_buffer: BTreeMap<u32, Vec<u8>>,
    max_reorder_buffer_bytes: usize,
    reorder_buffer_bytes: usize,
    /// Where a FIN that arrived ahead of its data sits.
    pending_fin_seq: Option<u32>,
    /// Segments sent but not yet acknowledged.
    retransmit_queue: VecDeque<RetransmitSegment>,
    /// Current retransmission timeout in milliseconds.
    rto: u64,
}

impl View for TcpControlBlock {
    type V = TcbView;

    closed spec fn view(&self) -> TcbView {
        TcbView {
            id: self.id,
            state: self.state,
            local_seq: self.local_seq,
            initial_seq: self.initial_seq,
            local_ack: self.local_ack,
            snd_una: self.snd_una,
            created_at: self.created_at,
            last_activity: self.last_activity,
            reorder_buffer: buffer_view(self.reorder_buffer@),
            max_reorder_buffer_bytes: self.max_reorder_buffer_bytes,
            reorder_buffer_bytes: self.reorder_buffer_bytes,
            pending_fin_seq: self.pending_fin_seq,
            retransmit_queue: queue_view(self.retransmit_queue@),
            rto: self.rto,
        }
    }
}

impl TcpControlBlock {
    /// Well-formedness: the model satisfies the connection invariant.
    pub open spec fn wf(&self) -> bool {
        self@.inv()
    }

    /// The control block of a connection that is about to send its SYN.
    pub fn new(id: TcpConnectionId, initial_seq: u32, now: u64) -> (tcb: TcpControlBlock)
        ensures
            tcb@ == fresh_tcb(id, initial_seq, now),
            tcb.wf(),
    {
        let tcb = TcpControlBlock {
            id,
            state: TcpState::SynSent,
            local_seq: initial_seq,
            initial_seq,
            local_ack: 0,
            snd_una: initial_seq,
            created_at: now,
            last_activity: now,
            reorder_buffer: BTreeMap::new(),
            max_reorder_buffer_bytes: DEFAULT_REORDER_BUDGET,
            reorder_buffer_bytes: 0,
            pending_fin_seq: None,
            retransmit_queue: VecDeque::new(),
            rto: INITIAL_RTO_MS,
        };
        proof {
            lemma_total_empty();
            assert(buffer_view(tcb.reorder_buffer@) =~= Map::<u32, Seq<u8>>::empty());
            assert(queue_view(tcb.retransmit_queue@) =~= Seq::<SentView>::empty());
        }
        tcb
    }

    pub fn id(&self) -> (id: TcpConnectionId)
        ensures
            id == self@.id,
    {
        self.id
    }

    pub fn state(&self) -> (state: TcpState)
        ensures
            state == self@.state,
    {
        self.state
    }

    pub fn local_seq(&self) -> (seq: u32)
        ensures
            seq == self@.local_seq,
    {
        self.local_seq
    }

    pub fn initial_seq(&self) -> (seq: u32)
        ensures
            seq == self@.initial_seq,
    {
        self.initial_seq
    }

    pub fn local_ack(&self) -> (ack: u32)
        ensures
            ack == self@.local_ack,
    {
        self.local_ack
    }

    pub fn snd_una(&self) -> (una: u32)
        ensures
            una == self@.snd_una,
    {
        self.snd_una
    }

    pub fn rto(&self) -> (rto: u64)
        ensures
            rto == self@.rto,
    {
        self.rto
    }

    pub fn reorder_buffer_bytes(&self) -> (bytes: usize)
        ensures
            bytes == self@.reorder_buffer_bytes,
    {
        self.reorder_buffer_bytes
    }

    pub fn pending_fin_seq(&self) -> (fin: Option<u32>)
        ensures
            fin == self@.pending_fin_seq,
    {
        self.pending_fin_seq
    }

    /// Whether a segment that starts at `seq` waits in the reorder buffer.
    pub fn buffers_segment_at(&self, seq: u32) -> (buffered: bool)
        ensures
            buffered == self@.reorder_buffer.contains_key(seq),
    {
        proof {
            lemma_buffer_view_dom(self.reorder_buffer@);
        }
        self.reorder_buffer.contains_key(&seq)
    }

    /// Number of segments waiting for their acknowledgment.
    pub fn unacked_segments(&self) -> (n: usize)
        ensures
            n == self@.retransmit_queue.len(),
    {
        self.retransmit_queue.len()
    }

    /// The peer's FIN has been accepted: moves the next expected sequence
    /// number past it and drops what is still buffered.
    fn accept_fin(&mut self, ack: u32)
        requires
            old(self).wf(),
        ensures
            final(self)@ == past_fin(old(self)@, ack),
            final(self).wf(),
    {
        self.local_ack = ack;
        self.reorder_buffer.clear();
        self.reorder_buffer_bytes = 0;
        proof {
            lemma_total_empty();
            assert(buffer_view(self.reorder_buffer@) =~= Map::<u32, Seq<u8>>::empty());
        }
    }

    /// Applies the acknowledgment field of a segment.
    fn apply_ack(&mut self, seg: &TcpSegment)
        requires
            old(self).wf(),
        ensures
            final(self)@ == process_ack(old(self)@, seg@),
            final(self).wf(),
    {
        if seg.ack {
            let ack_advance: i32 = seq_delta(seg.ack_num, self.snd_una);
            if ack_advance > 0 {
                self.snd_una = seg.ack_num;
                drop_acked_segments(&mut self.retransmit_queue, seg.ack_num);
                self.rto = INITIAL_RTO_MS;
            }
        }
    }

    /// A segment before the handshake has completed.
    fn on_segment_syn_sent(&mut self, seg: &TcpSegment, now: u64) -> (action: TcpPacketAction)
        requires
            old(self).wf(),
            old(self)@.state == TcpState::SynSent,
        ensures
            final(self).wf(),
            (final(self)@, action@) == syn_sent_step(old(self)@, seg@, now),
    {
        if seg.syn && seg.ack {
            self.local_ack = seq_advance(seg.seq, 1);
            self.local_seq = seg.ack_num;
            self.snd_una = seg.ack_num;
            self.state = TcpState::Established;
            self.last_activity = now;
            TcpPacketAction::ConnectionEstablished { seq: self.local_seq, ack: self.local_ack }
        } else if seg.rst {
            self.state = TcpState::Closed;
            self.last_activity = now;
            TcpPacketAction::ConnectionReset
        } else {
            TcpPacketAction::Nothing
        }
    }

    /// A FIN on an established connection.
    fn on_fin(&mut self, seq: u32, payload: Vec<u8>) -> (action: TcpPacketAction)
        requires
            old(self).wf(),
            old(self)@.state == TcpState::Established,
        ensures
            final(self).wf(),
            (final(self)@, action@) == fin_step(old(self)@, seq, payload@),
    {
        let ghost t = self@;
        let fin_seq: u32 = seq_advance(seq, payload.len());
        let seq_diff: i32 = seq_delta(seq, self.local_ack);
        if seq_diff <= 0 {
            let mut segments: Vec<Vec<u8>> = Vec::new();
            let mut start: u32 = self.local_ack;
            if !payload.is_empty() && seq_diff == 0 {
                start = seq_advance(self.local_ack, payload.len());
                segments.push(payload);
            }
            let ghost own = payloads(segments@);
            proof {
                assert(own =~= if payload@.len() > 0 && seq_diff == 0 {
                    seq![payload@]
                } else {
                    Seq::empty()
                });
                lemma_buffer_view_dom(self.reorder_buffer@);
                lemma_drain(t.reorder_buffer, start);
            }
            let _reached: u32 = drain_into(
                &mut self.reorder_buffer,
                &mut self.reorder_buffer_bytes,
                start,
                &mut segments,
            );
            self.state = TcpState::CloseWait;
            self.accept_fin(seq_advance(fin_seq, 1));
            if !segments.is_empty() {
                TcpPacketAction::SendDataThenFinAck {
                    seq: self.local_seq,
                    ack: self.local_ack,
                    data_segments: segments,
                }
            } else {
                TcpPacketAction::SendFinAck { seq: self.local_seq, ack: self.local_ack }
            }
        } else {
            self.pending_fin_seq = Some(fin_seq);
            if !payload.is_empty() {
                if payload.len() <= self.max_reorder_buffer_bytes - self.reorder_buffer_bytes {
                    proof {
                        crate::seqnum::lemma_seq_diff_zero(seq, t.local_ack);
                    }
                    buffer_segment(
                        &mut self.reorder_buffer,
                        &mut self.reorder_buffer_bytes,
                        seq,
                        payload,
                    );
                }
            }
            proof {
                lemma_buffer_view_dom(self.reorder_buffer@);
            }
            TcpPacketAction::BufferedOutOfOrder { seq: self.local_seq, ack: self.local_ack }
        }
    }

    /// A data segment without FIN or RST on an established connection.
    fn on_data(&mut self, seq: u32, payload: Vec<u8>) -> (action: TcpPacketAction)
        requires
            old(self).wf(),
            old(self)@.state == TcpState::Established,
            payload@.len() > 0,
        ensures
            final(self).wf(),
            (final(self)@, action@) == data_step(old(self)@, seq, payload@),
    {
        let ghost t = self@;
        let seq_diff: i32 = seq_delta(seq, self.local_ack);
        if seq_diff < 0 {
            TcpPacketAction::SendAck { seq: self.local_seq, ack: self.local_ack }
        } else if seq_diff == 0 {
            let start: u32 = seq_advance(seq, payload.len());
            let mut segments: Vec<Vec<u8>> = Vec::new();
            segments.push(payload);
            proof {
                assert(payloads(segments@) =~= seq![payload@]);
                lemma_buffer_view_dom(self.reorder_buffer@);
                lemma_drain(t.reorder_buffer, start);
            }
            let reached: u32 = drain_into(
                &mut self.reorder_buffer,
                &mut self.reorder_buffer_bytes,
                start,
                &mut segments,
            );
            self.local_ack = reached;
            proof {
                lemma_buffer_view_dom(self.reorder_buffer@);
            }
            let fin_now: bool = match self.pending_fin_seq {
                Some(fin_seq) => fin_seq == reached,
                None => false,
            };
            if fin_now {
                self.pending_fin_seq = None;
                self.state = TcpState::CloseWait;
                self.accept_fin(seq_advance(reached, 1));
                TcpPacketAction::SendDataThenFinAck {
                    seq: self.local_seq,
                    ack: self.local_ack,
                    data_segments: segments,
                }
            } else if segments.len() == 1 {
                assert(payloads(segments@)[0] == payload@);
                let data = segments.pop().unwrap();
                TcpPacketAction::SendData { seq: self.local_seq, ack: self.local_ack, data }
            } else {
                TcpPacketAction::SendMultipleData {
                    seq: self.local_seq,
                    ack: self.local_ack,
                    data_segments: segments,
                }
            }
        } else {
            if payload.len() <= self.max_reorder_buffer_bytes - self.reorder_buffer_bytes {
                proof {
                    crate::seqnum::lemma_seq_diff_zero(seq, t.local_ack);
                }
                buffer_segment(
                    &mut self.reorder_buffer,
                    &mut self.reorder_buffer_bytes,
                    seq,
                    payload,
                );
                proof {
                    lemma_buffer_view_dom(self.reorder_buffer@);
                }
                TcpPacketAction::BufferedOutOfOrder { seq: self.local_seq, ack: self.local_ack }
            } else {
                TcpPacketAction::DroppedOutOfOrder { seq: self.local_seq, ack: self.local_ack }
            }
        }
    }

    /// A segment on an established connection.
    fn on_segment_established(&mut self, seg: TcpSegment, now: u64) -> (action: TcpPacketAction)
        requires
            old(self).wf(),
            old(self)@.state == TcpState::Established,
        ensures
            final(self).wf(),
            (final(self)@, action@) == established_step(old(self)@, seg@, now),
    {
        self.last_activity = now;
        self.apply_ack(&seg);
        if seg.rst {
            self.state = TcpState::Closed;
            self.retransmit_queue.clear();
            assert(queue_view(self.retransmit_queue@) =~= Seq::<SentView>::empty());
            TcpPacketAction::SignalEof
        } else if seg.fin {
            self.on_fin(seg.seq, seg.payload)
        } else if !seg.payload.is_empty() {
            self.on_data(seg.seq, seg.payload)
        } else {
            TcpPacketAction::Nothing
        }
    }

    /// A segment in one of the states after we or the peer have closed.
    fn on_segment_closing(&mut self, seg: &TcpSegment, now: u64) -> (action: TcpPacketAction)
        requires
            old(self).wf(),
            old(self)@.state != TcpState::SynSent,
            old(self)@.state != TcpState::Established,
            old(self)@.state != TcpState::Closed,
        ensures
            final(self).wf(),
            (final(self)@, action@) == on_segment_spec(old(self)@, seg@, now),
    {
        self.last_activity = now;
        match self.state {
            TcpState::FinWait1 => {
                if seg.rst {
                    self.state = TcpState::Closed;
                    TcpPacketAction::Nothing
                } else if seg.fin && seg.ack {
                    self.state = TcpState::TimeWait;
                    self.accept_fin(seq_advance(seq_advance(seg.seq, seg.payload.len()), 1));
                    TcpPacketAction::SendAck { seq: self.local_seq, ack: self.local_ack }
                } else if seg.ack {
                    self.state = TcpState::FinWait2;
                    TcpPacketAction::Nothing
                } else {
                    TcpPacketAction::Nothing
                }
            },
            TcpState::FinWait2 => {
                if seg.rst {
                    self.state = TcpState::Closed;
                    TcpPacketAction::Nothing
                } else if seg.fin {
                    self.state = TcpState::TimeWait;
                    self.accept_fin(seq_advance(seq_advance(seg.seq, seg.payload.len()), 1));
                    TcpPacketAction::SendAck { seq: self.local_seq, ack: self.local_ack }
                } else {
                    TcpPacketAction::Nothing
                }
            },
            TcpState::CloseWait => {
                if seg.rst {
                    self.state = TcpState::Closed;
                }
                TcpPacketAction::Nothing
            },
            TcpState::LastAck => {
                if seg.ack {
                    self.state = TcpState::Closed;
                }
                TcpPacketAction::Nothing
            },
            _ => {
                if seg.fin {
                    TcpPacketAction::SendAck { seq: self.local_seq, ack: self.local_ack }
                } else {
                    TcpPacketAction::Nothing
                }
            },
        }
    }

    /// Advances the state machine by one inbound segment and says what is
    /// left to do: which ACK to emit, what to deliver, whom to wake.
    pub fn on_segment(&mut self, seg: TcpSegment, now: u64) -> (action: TcpPacketAction)
        requires
            old(self).wf(),
        ensures
            final(self).wf(),
            (final(self)@, action@) == on_segment_spec(old(self)@, seg@, now),
    {
        match self.state {
            TcpState::SynSent => self.on_segment_syn_sent(&seg, now),
            TcpState::Established => self.on_segment_established(seg, now),
            TcpState::Closed => TcpPacketAction::Nothing,
            _ => self.on_segment_closing(&seg, now),
        }
    }

    /// Sends application data on a connection that can send: cuts it at the
    /// segment size, queues one datagram per segment (PSH on the last) and
    /// keeps each segment for retransmission.
    pub fn send(&mut self, data: &[u8], now: u64, outgoing: &mut Vec<Vec<u8>>)
        requires
            old(self).wf(),
            can_send(old(self)@.state),
        ensures
            final(self).wf(),
            final(self)@ == send_spec(old(self)@, data@, now),
            payloads(final(outgoing)@) == emit_all(
                payloads(old(outgoing)@),
                old(self)@.id,
                old(self)@.local_ack,
                segments_of(data@, old(self)@.local_seq, now),
            ),
    {
        self.last_activity = now;
        let seq: u32 = self.local_seq;
        self.local_seq = seq_advance(self.local_seq, data.len());
        send_segments(
            &mut self.retransmit_queue,
            outgoing,
            self.id,
            seq,
            self.local_ack,
            data,
            now,
        );
    }

    /// Closes our side. Returns the sequence and acknowledgment number of
    /// the FIN to emit, if the state calls for one.
    pub fn close(&mut self) -> (fin: Option<(u32, u32)>)
        requires
            old(self).wf(),
        ensures
            final(self).wf(),
            final(self)@ == close_spec(old(self)@),
            fin == if close_emits_fin(old(self)@.state) {
                Some((old(self)@.local_seq, old(self)@.local_ack))
            } else {
                None::<(u32, u32)>
            },
    {
        match self.state {
            TcpState::Established => {
                self.retransmit_queue.clear();
                assert(queue_view(self.retransmit_queue@) =~= Seq::<SentView>::empty());
                self.state = TcpState::FinWait1;
                Some((self.local_seq, self.local_ack))
            },
            TcpState::CloseWait => {
                self.retransmit_queue.clear();
                assert(queue_view(self.retransmit_queue@) =~= Seq::<SentView>::empty());
                self.state = TcpState::LastAck;
                Some((self.local_seq, self.local_ack))
            },
            _ => None,
        }
    }

    /// One retransmission check. If the oldest unacknowledged segment is
    /// due, it is stamped and counted, the timeout backs off, and the
    /// segment's sequence number, payload and flags are returned together
    /// with the current acknowledgment number.
    pub fn check_retransmission(&mut self, now: u64) -> (due: Option<(u32, Vec<u8>, u8, u32)>)
        requires
            old(self).wf(),
        ensures
            final(self).wf(),
            final(self)@ == sweep_spec(old(self)@, now),
            due is Some <==> head_due(old(self)@, now),
            due matches Some((seq, data, flags, ack)) ==> {
                &&& seq == old(self)@.retransmit_queue[0].seq
                &&& data@ == old(self)@.retransmit_queue[0].data
                &&& flags == old(self)@.retransmit_queue[0].flags
                &&& ack == old(self)@.local_ack
            },
    {
        if self.state != TcpState::Established && self.state != TcpState::CloseWait {
            return None;
        }
        if self.retransmit_queue.len() == 0 {
            return None;
        }
        let head = &self.retransmit_queue[0];
        let waited: u64 = if now >= head.sent_at {
            now - head.sent_at
        } else {
            0
        };
        if waited < self.rto || head.retransmit_count >= MAX_RETRANSMITS {
            return None;
        }
        let ghost q = queue_view(self.retransmit_queue@);
        let mut seg = self.retransmit_queue.pop_front().unwrap();
        let due = (seg.seq, slice_to_vec(seg.data.as_slice()), seg.flags, self.local_ack);
        seg.retransmit_count = seg.retransmit_count + 1;
        seg.sent_at = now;
        self.retransmit_queue.push_front(seg);
        self.rto = if self.rto * 2 >= MAX_RTO_MS {
            MAX_RTO_MS
        } else {
            self.rto * 2
        };
        proof {
            assert(queue_view(self.retransmit_queue@) =~= q.update(
                0,
                SentView {
                    retransmit_count: (q[0].retransmit_count + 1) as u32,
                    sent_at: now,
                    ..q[0]
                },
            ));
        }
        Some(due)
    }

    /// Whether the oldest unacknowledged segment is past its last
    /// retransmission: due once more, but retransmitted as often as allowed.
    pub fn retransmit_exhausted(&self, now: u64) -> (exhausted: bool)
        ensures
            exhausted == head_exhausted(self@, now),
    {
        if self.state != TcpState::Established && self.state != TcpState::CloseWait {
            return false;
        }
        if self.retransmit_queue.len() == 0 {
            return false;
        }
        let head = &self.retransmit_queue[0];
        let waited: u64 = if now >= head.sent_at {
            now - head.sent_at
        } else {
            0
        };
        waited >= self.rto && head.retransmit_count >= MAX_RETRANSMITS
    }

    /// Whether the cleanup sweep is to remove this connection.
    pub fn is_stale(&self, now: u64) -> (stale: bool)
        ensures
            stale == is_stale(self@, now),
    {
        let since: u64 = match self.state {
            TcpState::SynSent => self.created_at,
            _ => self.last_activity,
        };
        let age_ms: u64 = if now >= since {
            now - since
        } else {
            0
        };
        match self.state {
            TcpState::TimeWait => age_ms > 60_000,
            TcpState::Closed => age_ms > 5_000,
            TcpState::SynSent => age_ms > 30_000,
            TcpState::Established => age_ms > 600_000,
            _ => age_ms > 120_000,
        }
    }

    /// The application's receiver has gone away: the connection is closed.
    pub fn receiver_gone(&mut self, now: u64)
        requires
            old(self).wf(),
        ensures
            final(self).wf(),
            final(self)@ == receiver_gone_spec(old(self)@, now),
    {
        self.state = TcpState::Closed;
        self.last_activity = now;
    }
}

} // verus!
