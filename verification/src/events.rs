//! Records that the state machine hands back for the host's event sink.
//!
//! Emission itself is fire-and-forget host work; each entry point returns
//! the exact records to emit, in order.

use vstd::prelude::*;

use crate::keys::AdminKey;
use crate::ops::{CallData, OpId};

verus! {

/// Record for an operation that was proposed, confirmed, or removed.
#[derive(Debug)]
pub struct MultisigOperation {
    /// The operation ID.
    pub id: OpId,
    /// The key of the admin that triggered the record.
    pub from: AdminKey,
}

/// Record for an operation that has been executed. The host fills in the
/// diagnostic from the target-call invocation; a failure there never fails
/// the multisig call itself.
#[derive(Debug)]
pub struct ExecutionResult {
    /// The operation ID.
    pub id: OpId,
    /// Error message if the target call failed, or `None` on success.
    pub error: Option<String>,
}

/// Record for a completed authority change: the admin set and both
/// thresholds, before and after.
#[derive(Debug)]
pub struct UpdateAuthority {
    /// The previous admin keys.
    pub prev_admins: Vec<AdminKey>,
    /// The previous admin threshold.
    pub prev_admin_threshold: u8,
    /// The previous confirmation threshold.
    pub prev_threshold: u8,
    /// The new admin keys.
    pub new_admins: Vec<AdminKey>,
    /// The new admin threshold.
    pub new_admin_threshold: u8,
    /// The new confirmation threshold.
    pub new_threshold: u8,
}

/// Record for a completed change of the time parameters.
#[derive(Debug)]
pub struct UpdateTimeLimits {
    /// The previous proposal TTL in blocks.
    pub prev_proposal_ttl_blocks: u64,
    /// The previous replay window in blocks.
    pub prev_replay_window_blocks: u64,
    /// The new proposal TTL in blocks.
    pub proposal_ttl_blocks: u64,
    /// The new replay window in blocks.
    pub replay_window_blocks: u64,
}

/// One event record, tagged the way the host's sink topics are.
#[derive(Debug)]
pub enum Event {
    /// An operation was proposed for confirmation.
    Proposed(MultisigOperation),
    /// An operation was confirmed by an admin.
    Confirmed(MultisigOperation),
    /// An operation reached its threshold and is being executed.
    Executing(OpId),
    /// A pending operation was removed.
    Removed(OpId),
    /// The admin set or thresholds changed.
    AuthorityUpdated(UpdateAuthority),
    /// The time parameters changed.
    TimeLimitsUpdated(UpdateTimeLimits),
}

/// A target call the host must now invoke: the operation reached its
/// threshold and was consumed. The invocation's outcome is reported in an
/// [`ExecutionResult`] record by the host and never rolls back the
/// transition that produced this request.
#[derive(Debug)]
pub struct ExecRequest {
    /// The executed operation's ID.
    pub id: OpId,
    /// The call to invoke on the target contract.
    pub call: CallData,
}

/// What a successful entry-point call asks of the host: records to emit,
/// in order, and at most one target call to invoke.
#[derive(Debug)]
pub struct Outcome {
    /// The event records to emit, in order.
    pub events: Vec<Event>,
    /// The target call to invoke, when an operation executed.
    pub execute: Option<ExecRequest>,
}

} // verus!
