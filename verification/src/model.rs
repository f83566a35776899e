//! The mathematical model of one connection: its control block, the
//! segments it keeps for retransmission, and the follow-up work that
//! handling an inbound segment asks for.

use crate::conn_id::TcpConnectionId;
use crate::reorder::total_bytes;
use vstd::prelude::*;

verus! {

/// Retransmission timeout of a fresh connection and after every
/// acknowledgment that makes progress, in milliseconds.
pub const INITIAL_RTO_MS: u64 = 500;

/// Ceiling of the retransmission timeout, in milliseconds.
pub const MAX_RTO_MS: u64 = 8000;

/// How often one segment is retransmitted before it is left alone.
pub const MAX_RETRANSMITS: u32 = 8;

/// Byte budget of the reorder buffer of a fresh connection.
pub const DEFAULT_REORDER_BUDGET: usize = 1_048_576;

/// TCP connection state.
#[derive(Debug, Clone, Copy, PartialEq, Eq, Structural)]
pub enum TcpState {
    Closed,
    SynSent,
    Established,
    FinWait1,
    FinWait2,
    CloseWait,
    LastAck,
    TimeWait,
}

/// A segment kept for retransmission, as a mathematical value.
pub struct SentView {
    pub seq: u32,
    pub data: Seq<u8>,
    pub flags: u8,
    pub sent_at: u64,
    pub retransmit_count: u32,
}

/// A transmission control block, as a mathematical value. Times are
/// millisecond ticks of a monotonic clock.
pub struct TcbView {
    pub id: TcpConnectionId,
    pub state: TcpState,
    pub local_seq: u32,
    pub initial_seq: u32,
    pub local_ack: u32,
    pub snd_una: u32,
    pub created_at: u64,
    pub last_activity: u64,
    pub reorder_buffer: Map<u32, Seq<u8>>,
    pub max_reorder_buffer_bytes: usize,
    pub reorder_buffer_bytes: usize,
    pub pending_fin_seq: Option<u32>,
    pub retransmit_queue: Seq<SentView>,
    pub rto: u64,
}

impl TcbView {
    /// What holds of every control block between operations.
    ///
    /// The byte count of the reorder buffer is the sum of the lengths of
    /// its payloads and within budget. The timeout lies between its initial
    /// value and its ceiling. Before the handshake completes nothing is
    /// buffered, nothing waits for retransmission and no FIN is held. No
    /// buffered segment starts at the next expected sequence number.
    pub open spec fn inv(self) -> bool {
        &&& self.reorder_buffer.dom().finite()
        &&& self.reorder_buffer_bytes == total_bytes(self.reorder_buffer)
        &&& self.reorder_buffer_bytes <= self.max_reorder_buffer_bytes
        &&& INITIAL_RTO_MS <= self.rto <= MAX_RTO_MS
        &&& self.state == TcpState::SynSent ==> self.reorder_buffer == Map::<u32, Seq<u8>>::empty()
        &&& self.state == TcpState::SynSent ==> self.retransmit_queue.len() == 0
        &&& self.state == TcpState::SynSent ==> self.pending_fin_seq is None
        &&& !self.reorder_buffer.contains_key(self.local_ack)
    }
}

/// The control block of a connection that has just sent its SYN.
pub open spec fn fresh_tcb(id: TcpConnectionId, initial_seq: u32, now: u64) -> TcbView {
    TcbView {
        id,
        state: TcpState::SynSent,
        local_seq: initial_seq,
        initial_seq,
        local_ack: 0,
        snd_una: initial_seq,
        created_at: now,
        last_activity: now,
        reorder_buffer: Map::empty(),
        max_reorder_buffer_bytes: DEFAULT_REORDER_BUDGET,
        reorder_buffer_bytes: 0,
        pending_fin_seq: None,
        retransmit_queue: Seq::empty(),
        rto: INITIAL_RTO_MS,
    }
}

/// What is left to do once an inbound segment has been handled: which
/// segment to answer with, what to hand to the application, in order, and
/// whether to signal end of stream or a change of state.
pub enum ActionView {
    /// Answer with a bare ACK.
    SendAck { seq: u32, ack: u32 },
    /// Acknowledge the peer's FIN and signal end of stream.
    SendFinAck { seq: u32, ack: u32 },
    /// Acknowledge and deliver one payload.
    SendData { seq: u32, ack: u32, data: Seq<u8> },
    /// Acknowledge and deliver several payloads in order.
    SendMultipleData { seq: u32, ack: u32, data_segments: Seq<Seq<u8>> },
    /// Acknowledge data and FIN, deliver the payloads, then signal end of
    /// stream.
    SendDataThenFinAck { seq: u32, ack: u32, data_segments: Seq<Seq<u8>> },
    /// A segment ahead of its turn: answer with a duplicate ACK.
    BufferedOutOfOrder { seq: u32, ack: u32 },
    /// A segment ahead of its turn that the reorder budget has no room
    /// for: it is dropped, and answered with a bare ACK.
    DroppedOutOfOrder { seq: u32, ack: u32 },
    /// The handshake completed: acknowledge and wake whoever waits.
    ConnectionEstablished { seq: u32, ack: u32 },
    /// The handshake was refused: wake whoever waits.
    ConnectionReset,
    /// The peer reset the connection: signal end of stream.
    SignalEof,
    /// Nothing to do.
    Nothing,
}

impl ActionView {
    /// Sequence and acknowledgment number of the ACK to emit, if any.
    pub open spec fn reply(self) -> Option<(u32, u32)> {
        match self {
            ActionView::SendAck { seq, ack } => Some((seq, ack)),
            ActionView::SendFinAck { seq, ack } => Some((seq, ack)),
            ActionView::SendData { seq, ack, .. } => Some((seq, ack)),
            ActionView::SendMultipleData { seq, ack, .. } => Some((seq, ack)),
            ActionView::SendDataThenFinAck { seq, ack, .. } => Some((seq, ack)),
            ActionView::BufferedOutOfOrder { seq, ack } => Some((seq, ack)),
            ActionView::DroppedOutOfOrder { seq, ack } => Some((seq, ack)),
            ActionView::ConnectionEstablished { seq, ack } => Some((seq, ack)),
            ActionView::ConnectionReset => None,
            ActionView::SignalEof => None,
            ActionView::Nothing => None,
        }
    }

    /// The payloads to hand to the application, in order.
    pub open spec fn deliveries(self) -> Seq<Seq<u8>> {
        match self {
            ActionView::SendData { data, .. } => seq![data],
            ActionView::SendMultipleData { data_segments, .. } => data_segments,
            ActionView::SendDataThenFinAck { data_segments, .. } => data_segments,
            _ => Seq::empty(),
        }
    }

    /// Whether the empty end-of-stream marker follows the deliveries.
    pub open spec fn signals_eof(self) -> bool {
        self is SendFinAck || self is SendDataThenFinAck || self is SignalEof
    }

    /// Whether a receiver that has gone away closes the connection: it does
    /// where plain data is delivered.
    pub open spec fn closes_on_disconnect(self) -> bool {
        self is SendData || self is SendMultipleData
    }

    /// Whether threads waiting for a change of state are woken.
    pub open spec fn notifies(self) -> bool {
        self is ConnectionEstablished || self is ConnectionReset
    }
}

} // verus!
