//! Controller identification tables and a userspace, initiator-only TCP/IPv4
//! stack that speaks raw IP datagrams over a tunnel.
//!
//! The stack is a plain state machine: every operation takes the current
//! time as a millisecond tick and returns what the embedding program has to
//! deliver or signal. Locks, clocks and channels live with the caller.
//!
//! * [`stack`] is the entry point: the connection table and the operations
//!   on it. [`tcb`] holds one connection, [`wire`] the framing.
//! * [`model`], [`transitions`] and [`stack_model`] say, as mathematics,
//!   what every operation does; [`reorder`] and [`seqnum`] are the
//!   arithmetic underneath.
//! * [`laws`], [`stream_laws`], [`delivery_laws`], [`window_laws`] and
//!   [`wire_laws`] prove what holds of every connection: the delivered
//!   bytes are the peer's stream in order and, once every segment has
//!   arrived, all of it; the reorder buffer is accounted for, the send
//!   window stays in order, and what is built parses back.
//! * [`controller`] and [`usb_ids`] identify game controllers by their USB
//!   vendor and product IDs.

pub mod conn_id;
pub mod controller;
pub mod delivery_laws;
pub mod laws;
pub mod model;
pub mod reorder;
pub mod seqnum;
pub mod stack;
pub mod stack_model;
pub mod stream_laws;
pub mod tcb;
pub mod transitions;
pub mod usb_ids;
pub mod window_laws;
pub mod wire;
pub mod wire_laws;
