//! A distributed collective-communication layer: a fixed set of cooperating
//! processes ("ranks") executes synchronized group operations (reductions,
//! broadcasts, scatters, gathers, point-to-point transfers, barriers) over
//! numeric buffers, bootstrapped through a rendezvous store.
//!
//! The library models the transport's data plane over plain integer buffers,
//! so that every validation rule, the group-formation handshake, the batch
//! state machine, and the value each collective produces on every rank are
//! stated in contracts and verified.

pub mod buffer;
pub mod data;
pub mod device;
pub mod error;
pub mod wrappers;
