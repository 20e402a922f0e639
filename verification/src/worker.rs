//! The session worker's decisions: what a read from the transport means,
//! and what the worker has to do about it.
//!
//! The worker itself, with its pause and its read, runs wherever the
//! transport lives. Each cycle it hands the outcome of its read to
//! [`crate::engine::Engine::worker_step`] and carries out the action that
//! comes back.

use crate::broadcast::{Delivery, DeliveryView, delivery_views};
use vstd::prelude::*;

verus! {

/// What a read reports in place of a length when the connection has just
/// been established and no payload has arrived yet.
pub const VALID_CONNECTION: u64 = 0xFFFF_FFFF_FFFF;

/// The pause of a worker before each read, in milliseconds.
pub const POLLING_INTERVAL_MS: u64 = 500;

/// What a read from the transport means.
#[derive(Clone, Copy, PartialEq, Eq, Structural, Debug)]
pub enum ReadOutcome {
    /// Bytes arrived.
    Data,
    /// The connection stands, but nothing has arrived yet.
    Established,
    /// The peer closed the connection, or the read failed.
    Closed,
}

/// What the value that a read reported means: the sentinel stands for an
/// established connection, zero for a closed one, everything else is a
/// number of bytes.
pub open spec fn classify(val: u64) -> ReadOutcome {
    if val == VALID_CONNECTION {
        ReadOutcome::Established
    } else if val > 0 {
        ReadOutcome::Data
    } else {
        ReadOutcome::Closed
    }
}

/// Classifies the value that a read reported. A read that failed is to be
/// reported as zero.
pub fn classify_read(val: u64) -> (outcome: ReadOutcome)
    ensures
        outcome == classify(val),
{
    if val > 0 && val != VALID_CONNECTION {
        ReadOutcome::Data
    } else if val == VALID_CONNECTION {
        ReadOutcome::Established
    } else {
        ReadOutcome::Closed
    }
}

/// The bytes that a peer is greeted with when it has sent something:
/// `WELCOME` in ASCII.
pub open spec fn greeting_bytes() -> Seq<u8> {
    seq![0x57u8, 0x45u8, 0x4cu8, 0x43u8, 0x4fu8, 0x4du8, 0x45u8]
}

/// The greeting for a peer that has sent something.
pub fn greeting() -> (bytes: Vec<u8>)
    ensures
        bytes@ == greeting_bytes(),
{
    let mut bytes: Vec<u8> = Vec::new();
    bytes.push(0x57u8);
    bytes.push(0x45u8);
    bytes.push(0x4cu8);
    bytes.push(0x43u8);
    bytes.push(0x4fu8);
    bytes.push(0x4du8);
    bytes.push(0x45u8);
    assert(bytes@ =~= greeting_bytes());
    bytes
}

/// What a worker has to do after a read.
pub enum WorkerAction {
    /// Nothing; go on polling.
    Continue,
    /// Write the greeting to the own peer and each delivery to its
    /// session, then go on polling. No write that fails keeps another from
    /// being tried.
    Relay { greeting: Vec<u8>, message: Vec<u8>, deliveries: Vec<Delivery> },
    /// Stop: the session is not registered any more.
    Terminate,
}

/// A worker's action as a mathematical value.
pub enum WorkerActionView {
    Continue,
    Relay { greeting: Seq<u8>, message: Seq<u8>, deliveries: Seq<DeliveryView> },
    Terminate,
}

impl View for WorkerAction {
    type V = WorkerActionView;

    open spec fn view(&self) -> WorkerActionView {
        match *self {
            WorkerAction::Continue => WorkerActionView::Continue,
            WorkerAction::Relay { greeting, message, deliveries } => WorkerActionView::Relay {
                greeting: greeting@,
                message: message@,
                deliveries: delivery_views(deliveries@),
            },
            WorkerAction::Terminate => WorkerActionView::Terminate,
        }
    }
}

} // verus!
