//! Concurrency and resource-arbitration substrate for a small interrupt-driven
//! wearable: a run-to-completion task dispatcher with priority-ceiling locking,
//! a monotonic clock with a delayed-dispatch queue, and firmware-image validity
//! bookkeeping for the bootloader handshake.

use vstd::prelude::*;

pub mod clock;
pub mod dispatch;
pub mod mcuboot;
pub mod timer_queue;

verus! {

/// Error returned when a bounded queue cannot accept another entry.
/// Capacity exhaustion is the one recoverable failure class: the caller
/// decides whether to drop, retry, or escalate.
#[derive(Clone, Copy, Debug, PartialEq, Eq, Structural)]
pub enum SpawnError {
    QueueFull,
}

} // verus!
