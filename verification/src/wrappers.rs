//! The communicator surface: element kinds and the collective layer.

pub mod kind;
pub mod nccl;
