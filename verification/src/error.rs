//! The error taxonomy of the collective layer.

use vstd::prelude::*;

verus! {

/// Every failure a store, a process group, or a collective call can report.
///
/// - `StoreCreationFailed`: the rendezvous channel could not be opened.
/// - `GroupFormationFailed`: the cross-rank handshake saw mismatched sizes,
///   a duplicate or out-of-range rank, or an incomplete registration set.
/// - `BufferCountMismatch`: the buffers handed to a collective disagree in
///   count or in element count with what the group expects.
/// - `DeviceMismatch`: a buffer does not live on the device the group is
///   bound to.
/// - `CollectiveFailed`: a transport-level failure mid-operation.
/// - `PeerUnreachable`: a point-to-point call named a rank outside the group.
/// - `BatchStateError`: `group_start`/`group_end` used out of order.
/// - `UnknownKind`: a numeric element-kind code with no enumerated kind.
#[derive(Debug, Clone, Copy, PartialEq, Eq, Structural)]
pub enum TchError {
    StoreCreationFailed,
    GroupFormationFailed,
    BufferCountMismatch,
    DeviceMismatch,
    CollectiveFailed,
    PeerUnreachable,
    BatchStateError,
    UnknownKind(i32),
}

impl TchError {
    /// A short human-readable name for the error.
    pub fn describe(&self) -> (r: &'static str)
        ensures
            r@.len() > 0,
    {
        let s: &'static str = match self {
            TchError::StoreCreationFailed => "store creation failed",
            TchError::GroupFormationFailed => "group formation failed",
            TchError::BufferCountMismatch => "buffer count mismatch",
            TchError::DeviceMismatch => "device mismatch",
            TchError::CollectiveFailed => "collective failed",
            TchError::PeerUnreachable => "peer unreachable",
            TchError::BatchStateError => "batch state error",
            TchError::UnknownKind(_) => "unknown element kind",
        };
        proof {
            reveal_strlit("store creation failed");
            reveal_strlit("group formation failed");
            reveal_strlit("buffer count mismatch");
            reveal_strlit("device mismatch");
            reveal_strlit("collective failed");
            reveal_strlit("peer unreachable");
            reveal_strlit("batch state error");
            reveal_strlit("unknown element kind");
        }
        s
    }
}

} // verus!
