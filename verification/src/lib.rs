//! Tracks "final comment period" (FCP) consensus on issues of a collaboration
//! platform: a team member proposes an outcome, tagged team members sign off or
//! raise blocking concerns, and once every tagged member has signed off and no
//! concern remains open a fixed waiting period runs before the proposal is
//! final.
//!
//! The library holds the verified core: the command parser, the deterministic
//! status-comment renderer, the proposal state machine, and the periodic
//! reconciliation sweep. Platform traffic (posting and editing comments,
//! attaching labels) is returned to the caller as [`Effect`] values; the
//! persistent rows live in an in-memory [`Store`] that the caller keeps in
//! step with its durable storage.

use vstd::prelude::*;

pub mod command;
pub mod laws;
pub mod machine;
pub mod model;
pub mod order;
pub mod pagination;
pub mod render;
pub mod sweep;
pub mod text;

verus! {

/// Seconds in the waiting window: a proposal that entered its final comment
/// period at least this long ago is closed by the next sweep.
pub const FCP_WINDOW_SECS: i64 = 864000;

} // verus!
