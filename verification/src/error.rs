//! The error kinds reported by the multisig state machine.
//!
//! Every entry point validates before it mutates: a call that returns an
//! error leaves the state exactly as it was.

use vstd::prelude::*;

verus! {

/// The reason a call was rejected. No partial state change accompanies any
/// of these: the whole call aborts.
#[derive(Clone, Copy, Debug, PartialEq, Eq, Structural)]
pub enum Error {
    /// The state has already been initialized.
    AlreadyInitialized,
    /// The admin set must not be empty.
    EmptyAdmins,
    /// The admin set cannot be larger than `MAX_ADMINS`.
    TooManyAdmins,
    /// The same admin key occurs twice in the admin set.
    DuplicateAdmin,
    /// An admin key is not a well-formed public key.
    InvalidAdminKey,
    /// A threshold was zero where a positive one is required.
    ThresholdZero,
    /// A threshold exceeds the number of admins.
    ThresholdExceedsAdmins,
    /// A configured height duration (proposal TTL or replay window) was zero.
    ZeroDuration,
    /// The host's own identifier was the uninitialized (all-zero) value.
    MissingSelfId,
    /// The call did not come directly from a transaction.
    IndirectCall,
    /// The transaction was shielded, so no public sender is known.
    ShieldedCall,
    /// The sender is not a registered admin.
    NotAdmin,
    /// The confirmation threshold has not been configured yet.
    ThresholdNotConfigured,
    /// The proposal TTL has not been configured yet.
    TtlNotConfigured,
    /// The replay window has not been configured yet.
    ReplayWindowNotConfigured,
    /// The caller has already confirmed this pending operation.
    AlreadyConfirmed,
    /// No pending or tombstoned operation exists under the given id.
    OperationNotFound,
    /// The chain id in the arguments does not match the host's chain id.
    InvalidChainId,
    /// The same signer index occurs twice.
    DuplicateSigner,
    /// Fewer signer indices than the required threshold were given.
    ThresholdNotMet,
    /// A signer index does not resolve to a current admin.
    SignerNotFound,
    /// The aggregated signature did not verify.
    InvalidSignature,
}

impl Error {
    /// A human-readable message for this error, as the host would report it.
    pub fn message(&self) -> &'static str {
        match self {
            Error::AlreadyInitialized => "The contract has already been initialized",
            Error::EmptyAdmins => "The admins-set must not be empty",
            Error::TooManyAdmins => "The admin-set cannot be larger than MAX_ADMINS",
            Error::DuplicateAdmin => "Duplicate admin-key found",
            Error::InvalidAdminKey => "Invalid admin",
            Error::ThresholdZero => "The threshold shouldn't be 0 at authorization",
            Error::ThresholdExceedsAdmins => {
                "The threshold cannot be larger than the amount of admins"
            },
            Error::ZeroDuration => "Cannot set a time parameter to zero",
            Error::MissingSelfId => "Cannot get contract ID",
            Error::IndirectCall => "Indirect call not allowed",
            Error::ShieldedCall => "Shielded transactions not allowed",
            Error::NotAdmin => "Not an admin",
            Error::ThresholdNotConfigured => "Threshold not configured",
            Error::TtlNotConfigured => "TTL not configured",
            Error::ReplayWindowNotConfigured => "Replay window not configured",
            Error::AlreadyConfirmed => "Already confirmed",
            Error::OperationNotFound => "Operation not found",
            Error::InvalidChainId => "Invalid chain id",
            Error::DuplicateSigner => "Duplicate signer-key found",
            Error::ThresholdNotMet => "The required threshold of signatures has not been met",
            Error::SignerNotFound => "The given signer doesn't exist",
            Error::InvalidSignature => "The signature is invalid",
        }
    }
}

} // verus!
