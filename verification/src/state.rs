//! The multisig state machine: proposal lifecycle, bounded pruning, and
//! signature-gated authority and time-parameter updates.
//!
//! Host-provided facts — the current block height, the chain id, the
//! caller's identity, the instance's own identifier — enter each call as
//! plain values in a [`CallEnv`]; each call returns the event records to
//! emit and, when an operation executed, the target call for the host to
//! invoke. Every entry point validates before it mutates: a call that
//! returns an error leaves the state untouched.

use vstd::prelude::*;

use crate::bls::{key_is_valid, key_valid, multisig_verdict, sig_verdict};
use crate::error::Error;
use crate::events::{Event, ExecRequest, MultisigOperation, Outcome, UpdateAuthority,
    UpdateTimeLimits};
use crate::keys::{clone_keys, keys_contain, keys_have_duplicates, keys_view, AdminKey, AggregateSig};
use crate::ops::{spec_authority_message, spec_time_limits_message, OpId, Operation, InitArgs,
    SetAuthority, SetTimeLimits, Target};
use crate::registry::{
    entries_has, entry_of, index_view, spec_prune, Registry,
};
use crate::MAX_ADMINS;

verus! {

/// Per-call cap on tombstones removed by one pruning pass.
pub const MAX_TOMBSTONES_TO_PRUNE: u32 = 32;

/// Per-call cap on expired proposals removed by one pruning pass.
pub const MAX_PROPOSALS_TO_PRUNE: u32 = 32;

/// What the host resolved about the incoming call: the current block
/// height, the chain id, the depth of the call stack, and the public
/// sender, when the transaction has one.
#[derive(Debug)]
pub struct CallEnv {
    /// The current block height.
    pub height: u64,
    /// The host's chain id.
    pub chain_id: u8,
    /// The number of frames on the call stack; `1` means a direct call.
    pub callstack_depth: u64,
    /// The public sender of the transaction, or `None` if shielded.
    pub sender: Option<AdminKey>,
}

/// The multisig state: the admin authority, the time parameters, the
/// pending proposals with their deadline index, and the tombstones of
/// executed operations with their expiry index.
pub struct MultiSigV2 {
    /// The authorized admin keys.
    pub admins: Vec<AdminKey>,
    /// Replay-protecting nonce for signed authority operations.
    pub admin_nonce: u64,
    /// Confirmations required to execute a proposal.
    pub confirmation_threshold: u8,
    /// Signatures required to approve an authority operation.
    pub admin_threshold: u8,
    /// Blocks a proposal stays confirmable.
    pub proposal_ttl: u64,
    /// Blocks a tombstone blocks re-proposal.
    pub tombstone_ttl: u64,
    /// Pending operations, keyed by id and indexed by deadline.
    pub proposals: Registry<Operation>,
    /// Executed operations' tombstones, keyed by id and indexed by expiry.
    pub tombstones: Registry<()>,
    /// This instance's own identifier.
    pub this_address: [u8; 32],
}

/// Whether two positions of the signer-index list hold the same index.
pub open spec fn signers_have_dup(s: Seq<u8>) -> bool {
    exists|i: int, j: int| 0 <= i < j < s.len() && s[i] == s[j]
}

/// Whether every signer index resolves within an admin list of length `n`.
pub open spec fn signers_in_range(s: Seq<u8>, n: int) -> bool {
    forall|i: int| 0 <= i < s.len() ==> (#[trigger] s[i]) < n
}

/// The admin keys selected by the signer indices, in the given order.
pub open spec fn resolved_keys(admins: Seq<Seq<u8>>, s: Seq<u8>) -> Seq<Seq<u8>> {
    Seq::new(s.len(), |i: int| admins[s[i] as int])
}

impl MultiSigV2 {
    /// The encodings of the current admin keys, in order.
    pub open spec fn admins_view(&self) -> Seq<Seq<u8>> {
        keys_view(self.admins@)
    }

    /// The current admin nonce.
    pub open spec fn spec_admin_nonce(&self) -> u64 {
        self.admin_nonce
    }

    /// The current confirmation threshold.
    pub open spec fn spec_confirmation_threshold(&self) -> u8 {
        self.confirmation_threshold
    }

    /// The current admin threshold.
    pub open spec fn spec_admin_threshold(&self) -> u8 {
        self.admin_threshold
    }

    /// The current proposal TTL.
    pub open spec fn spec_proposal_ttl(&self) -> u64 {
        self.proposal_ttl
    }

    /// The current replay window.
    pub open spec fn spec_tombstone_ttl(&self) -> u64 {
        self.tombstone_ttl
    }

    /// This instance's identifier.
    pub open spec fn spec_this_address(&self) -> Seq<u8> {
        self.this_address@
    }

    /// The state holds a pending proposal under this id.
    pub open spec fn has_proposal(&self, id: Seq<u8>) -> bool {
        self.proposals.has(id)
    }

    /// The pending proposal under this id.
    pub open spec fn proposal_op(&self, id: Seq<u8>) -> Operation {
        self.proposals.val_of(id)
    }

    /// The deadline of the pending proposal under this id.
    pub open spec fn proposal_deadline(&self, id: Seq<u8>) -> u64 {
        self.proposals.height_of(id)
    }

    /// The state holds a tombstone under this id.
    pub open spec fn has_tombstone(&self, id: Seq<u8>) -> bool {
        self.tombstones.has(id)
    }

    /// The expiry height of the tombstone under this id.
    pub open spec fn tombstone_expiry(&self, id: Seq<u8>) -> u64 {
        self.tombstones.height_of(id)
    }

    /// One-time initialization has happened.
    pub open spec fn initialized(&self) -> bool {
        self.admins@.len() > 0
    }

    /// The number of pending proposals.
    pub open spec fn proposal_count(&self) -> nat {
        self.proposals.entries@.len()
    }

    /// The number of tombstones.
    pub open spec fn tombstone_count(&self) -> nat {
        self.tombstones.entries@.len()
    }

    /// The state invariant: both registries are well-formed, a proposal's
    /// indexed height is its deadline, its approving keys are distinct, no
    /// id is pending and tombstoned at once, the admin keys are distinct
    /// and within the cap, and the configured parameters are in range.
    pub open spec fn wf(&self) -> bool {
        &&& self.proposals.wf()
        &&& self.tombstones.wf()
        &&& forall|i: int|
            0 <= i < self.proposals.entries@.len() ==> (#[trigger] self.proposals.entries@[i]).val.deadline
                == self.proposals.entries@[i].height
        &&& forall|i: int|
            0 <= i < self.proposals.entries@.len() ==> approvals_distinct(
                (#[trigger] self.proposals.entries@[i]).val,
            )
        &&& forall|x: Seq<u8>|
            #[trigger] entries_has(self.proposals.entries@, x) ==> !entries_has(
                self.tombstones.entries@,
                x,
            )
        &&& forall|i: int, j: int|
            0 <= i < j < self.admins@.len() ==> #[trigger] self.admins@[i]@ != #[trigger] self.admins@[j]@
        &&& self.admins@.len() <= MAX_ADMINS
        &&& self.initialized() ==> {
            &&& 1 <= self.confirmation_threshold <= self.admins@.len()
            &&& 1 <= self.admin_threshold <= self.admins@.len()
            &&& self.proposal_ttl >= 1
            &&& self.tombstone_ttl >= 1
        }
        &&& !self.initialized() ==> {
            &&& self.confirmation_threshold == 0
            &&& self.admin_threshold == 0
            &&& self.proposal_ttl == 0
            &&& self.tombstone_ttl == 0
        }
    }

    /// A fresh, uninitialized state.
    pub fn new() -> (r: Self)
        ensures
            r.wf(),
            !r.initialized(),
            r.spec_admin_nonce() == 0,
            r.proposal_count() == 0,
            r.tombstone_count() == 0,
            r.spec_this_address() == Seq::new(32, |i: int| 0u8),
    {
        MultiSigV2 {
            admins: Vec::new(),
            admin_nonce: 0,
            confirmation_threshold: 0,
            admin_threshold: 0,
            proposal_ttl: 0,
            tombstone_ttl: 0,
            proposals: Registry::new(),
            tombstones: Registry::new(),
            this_address: [0u8; 32],
        }
    }

    /// The current admin keys.
    pub fn admins(&self) -> (r: Vec<AdminKey>)
        ensures
            keys_view(r@) == self.admins_view(),
    {
        let r = clone_keys(&self.admins);
        proof {
            assert(keys_view(r@) =~= keys_view(self.admins@));
        }
        r
    }

    /// The confirmation threshold.
    pub fn confirmation_threshold(&self) -> (r: u8)
        ensures
            r == self.spec_confirmation_threshold(),
    {
        self.confirmation_threshold
    }

    /// The admin threshold.
    pub fn admin_threshold(&self) -> (r: u8)
        ensures
            r == self.spec_admin_threshold(),
    {
        self.admin_threshold
    }

    /// The admin nonce.
    pub fn admin_nonce(&self) -> (r: u64)
        ensures
            r == self.spec_admin_nonce(),
    {
        self.admin_nonce
    }

    /// The proposal TTL in blocks.
    pub fn proposal_ttl(&self) -> (r: u64)
        ensures
            r == self.spec_proposal_ttl(),
    {
        self.proposal_ttl
    }

    /// The replay window in blocks.
    pub fn tombstone_ttl(&self) -> (r: u64)
        ensures
            r == self.spec_tombstone_ttl(),
    {
        self.tombstone_ttl
    }

    /// Validates a prospective admin set: non-empty, within the cap, free
    /// of duplicates, and made of well-formed keys.
    #[verifier::loop_isolation(false)]
    pub fn check_admins(admins: &Vec<AdminKey>) -> (r: Result<(), Error>)
        ensures
            r == Err::<(), Error>(Error::EmptyAdmins) <==> admins@.len() == 0,
            r == Err::<(), Error>(Error::TooManyAdmins) <==> admins@.len() > MAX_ADMINS,
            r == Err::<(), Error>(Error::DuplicateAdmin) <==> (1 <= admins@.len() <= MAX_ADMINS
                && (exists|i: int, j: int|
                    0 <= i < j < admins@.len() && admins@[i]@ == admins@[j]@)),
            r == Err::<(), Error>(Error::InvalidAdminKey) <==> (1 <= admins@.len() <= MAX_ADMINS
                && !(exists|i: int, j: int|
                    0 <= i < j < admins@.len() && admins@[i]@ == admins@[j]@) && (exists|i: int|
                    0 <= i < admins@.len() && !key_valid(#[trigger] admins@[i]@))),
            r is Ok <==> (1 <= admins@.len() <= MAX_ADMINS && (forall|i: int, j: int|
                0 <= i < j < admins@.len() ==> admins@[i]@ != admins@[j]@) && (forall|i: int|
                0 <= i < admins@.len() ==> key_valid(#[trigger] admins@[i]@))),
    {
        if admins.len() == 0 {
            return Err(Error::EmptyAdmins);
        }
        if admins.len() > MAX_ADMINS {
            return Err(Error::TooManyAdmins);
        }
        if keys_have_duplicates(admins) {
            return Err(Error::DuplicateAdmin);
        }
        let mut i: usize = 0;
        while i < admins.len()
            invariant
                i <= admins@.len(),
                forall|k: int| 0 <= k < i ==> key_valid(#[trigger] admins@[k]@),
            decreases admins@.len() - i,
        {
            if !key_is_valid(&admins[i]) {
                return Err(Error::InvalidAdminKey);
            }
            i += 1;
        }
        Ok(())
    }

    /// One-time initialization: installs the admin set, both thresholds,
    /// both durations, and the instance's own identifier, after validating
    /// all of them. Rejects a second initialization.
    #[verifier::loop_isolation(false)]
    pub fn init(&mut self, args: InitArgs, self_id: &[u8; 32]) -> (r: Result<(), Error>)
        requires
            old(self).wf(),
        ensures
            final(self).wf(),
            r is Err ==> *final(self) == *old(self),
            r == Err::<(), Error>(Error::AlreadyInitialized) <==> old(self).initialized(),
            r is Ok ==> {
                &&& final(self).initialized()
                &&& final(self).admins_view() == keys_view(args.admins@)
                &&& final(self).spec_confirmation_threshold() == args.approval_threshold
                &&& final(self).spec_admin_threshold() == args.admin_threshold
                &&& final(self).spec_proposal_ttl() == args.proposal_ttl
                &&& final(self).spec_tombstone_ttl() == args.tombstone_ttl
                &&& final(self).spec_this_address() == self_id@
                &&& final(self).spec_admin_nonce() == old(self).spec_admin_nonce()
                &&& final(self).proposals == old(self).proposals
                &&& final(self).tombstones == old(self).tombstones
            },
            r is Ok <==> {
                &&& !old(self).initialized()
                &&& 1 <= args.admins@.len() <= MAX_ADMINS
                &&& (forall|i: int, j: int|
                    0 <= i < j < args.admins@.len() ==> args.admins@[i]@ != args.admins@[j]@)
                &&& (forall|i: int|
                    0 <= i < args.admins@.len() ==> key_valid(#[trigger] args.admins@[i]@))
                &&& args.approval_threshold >= 1
                &&& args.admin_threshold >= 1
                &&& args.proposal_ttl >= 1
                &&& args.tombstone_ttl >= 1
                &&& args.approval_threshold <= args.admins@.len()
                &&& args.admin_threshold <= args.admins@.len()
                &&& self_id@ != Seq::new(32, |i: int| 0u8)
            },
    {
        if self.admins.len() > 0 {
            return Err(Error::AlreadyInitialized);
        }
        match Self::check_admins(&args.admins) {
            Ok(()) => (),
            Err(e) => {
                return Err(e);
            },
        }
        if args.approval_threshold == 0 || args.admin_threshold == 0 {
            return Err(Error::ThresholdZero);
        }
        if args.proposal_ttl == 0 || args.tombstone_ttl == 0 {
            return Err(Error::ZeroDuration);
        }
        if args.approval_threshold as usize > args.admins.len() || args.admin_threshold as usize
            > args.admins.len() {
            return Err(Error::ThresholdExceedsAdmins);
        }
        let mut all_zero = true;
        let mut i: usize = 0;
        while i < 32
            invariant
                i <= 32,
                all_zero == forall|k: int| 0 <= k < i ==> self_id@[k] == 0u8,
            decreases 32 - i,
        {
            if self_id[i] != 0 {
                all_zero = false;
            }
            i += 1;
        }
        if all_zero {
            proof {
                assert(self_id@ =~= Seq::new(32, |i: int| 0u8));
            }
            return Err(Error::MissingSelfId);
        }
        proof {
            if self_id@ == Seq::new(32, |i: int| 0u8) {
                let k = choose|k: int| 0 <= k < 32 && self_id@[k] != 0u8;
                assert(Seq::new(32, |i: int| 0u8)[k] == 0u8);
            }
        }
        self.this_address = *self_id;
        self.admins = args.admins;
        self.confirmation_threshold = args.approval_threshold;
        self.admin_threshold = args.admin_threshold;
        self.proposal_ttl = args.proposal_ttl;
        self.tombstone_ttl = args.tombstone_ttl;
        Ok(())
    }

    /// Resolves the caller: the call must be direct, the transaction must
    /// have a public sender, and the sender must be a current admin.
    fn direct_admin(&self, env: &CallEnv) -> (r: Result<AdminKey, Error>)
        ensures
            r == Err::<AdminKey, Error>(Error::IndirectCall) <==> env.callstack_depth != 1,
            r == Err::<AdminKey, Error>(Error::ShieldedCall) <==> (env.callstack_depth == 1
                && env.sender is None),
            r == Err::<AdminKey, Error>(Error::NotAdmin) <==> (env.callstack_depth == 1
                && env.sender is Some && !self.admins_view().contains(env.sender.unwrap()@)),
            r matches Ok(k) ==> env.callstack_depth == 1 && env.sender is Some && k@
                == env.sender.unwrap()@ && self.admins_view().contains(k@),
            r is Ok <==> (env.callstack_depth == 1 && env.sender is Some
                && self.admins_view().contains(env.sender.unwrap()@)),
    {
        if env.callstack_depth != 1 {
            return Err(Error::IndirectCall);
        }
        let sender = match &env.sender {
            Some(s) => s,
            None => {
                return Err(Error::ShieldedCall);
            },
        };
        if !keys_contain(&self.admins, sender) {
            proof {
                if self.admins_view().contains(sender@) {
                    let i = choose|i: int|
                        0 <= i < self.admins_view().len() && self.admins_view()[i] == sender@;
                    assert(self.admins@[i]@ == sender@);
                }
            }
            return Err(Error::NotAdmin);
        }
        proof {
            let i = choose|i: int| 0 <= i < self.admins@.len() && self.admins@[i]@ == sender@;
            assert(self.admins_view()[i] == sender@);
        }
        Ok(sender.clone())
    }

    /// Resolves signer indices to the current admin keys, in order.
    #[verifier::loop_isolation(false)]
    fn resolve_signers(&self, signers: &Vec<u8>) -> (r: Result<Vec<AdminKey>, Error>)
        ensures
            r is Ok <==> signers_in_range(signers@, self.admins@.len() as int),
            r is Err ==> r == Err::<Vec<AdminKey>, Error>(Error::SignerNotFound),
            r matches Ok(keys) ==> keys_view(keys@) == resolved_keys(
                self.admins_view(),
                signers@,
            ),
    {
        let mut keys: Vec<AdminKey> = Vec::new();
        let mut i: usize = 0;
        while i < signers.len()
            invariant
                i <= signers@.len(),
                keys@.len() == i,
                forall|k: int| 0 <= k < i ==> (#[trigger] signers@[k]) < self.admins@.len(),
                forall|k: int|
                    0 <= k < i ==> (#[trigger] keys@[k])@ == self.admins@[signers@[k] as int]@,
            decreases signers@.len() - i,
        {
            let idx = signers[i] as usize;
            if idx >= self.admins.len() {
                return Err(Error::SignerNotFound);
            }
            keys.push(self.admins[idx].clone());
            i += 1;
        }
        proof {
            assert(keys_view(keys@) =~= resolved_keys(self.admins_view(), signers@));
        }
        Ok(keys)
    }

    /// Checks the signer list against a required threshold: the threshold
    /// must be positive, the indices distinct, enough of them given, and
    /// each resolving to a current admin.
    #[verifier::loop_isolation(false)]
    fn check_signers(&self, threshold: u8, signers: &Vec<u8>) -> (r: Result<Vec<AdminKey>, Error>)
        ensures
            r == Err::<Vec<AdminKey>, Error>(Error::ThresholdZero) <==> threshold == 0,
            r == Err::<Vec<AdminKey>, Error>(Error::DuplicateSigner) <==> (threshold > 0
                && signers_have_dup(signers@)),
            r == Err::<Vec<AdminKey>, Error>(Error::ThresholdNotMet) <==> (threshold > 0
                && !signers_have_dup(signers@) && signers@.len() < threshold),
            r == Err::<Vec<AdminKey>, Error>(Error::SignerNotFound) <==> (threshold > 0
                && !signers_have_dup(signers@) && signers@.len() >= threshold
                && !signers_in_range(signers@, self.admins@.len() as int)),
            r is Ok <==> (threshold > 0 && !signers_have_dup(signers@) && signers@.len()
                >= threshold && signers_in_range(signers@, self.admins@.len() as int)),
            r is Err ==> (r == Err::<Vec<AdminKey>, Error>(Error::ThresholdZero) || r == Err::<
                Vec<AdminKey>,
                Error,
            >(Error::DuplicateSigner) || r == Err::<Vec<AdminKey>, Error>(Error::ThresholdNotMet)
                || r == Err::<Vec<AdminKey>, Error>(Error::SignerNotFound)),
            r matches Ok(keys) ==> keys_view(keys@) == resolved_keys(
                self.admins_view(),
                signers@,
            ),
    {
        if threshold == 0 {
            return Err(Error::ThresholdZero);
        }
        let len = signers.len();
        let mut i: usize = 0;
        while i < len
            invariant
                i <= len,
                len == signers@.len(),
                forall|p: int, q: int|
                    0 <= p < q < len && p < i ==> signers@[p] != signers@[q],
            decreases len - i,
        {
            let mut j: usize = i + 1;
            while j < len
                invariant
                    i < len,
                    i < j,
                    len == signers@.len(),
                    forall|q: int| i < q < j ==> signers@[i as int] != signers@[q],
                decreases len - j,
            {
                if signers[i] == signers[j] {
                    return Err(Error::DuplicateSigner);
                }
                j += 1;
            }
            i += 1;
        }
        if signers.len() < threshold as usize {
            return Err(Error::ThresholdNotMet);
        }
        self.resolve_signers(signers)
    }

    /// Verifies an aggregated admin signature over a message against the
    /// given threshold: the signer indices must be distinct, number at
    /// least the threshold, and resolve to current admins; the resolved
    /// keys, the message, and the signature then go to the BLS library.
    pub fn verify_sig(
        &self,
        threshold: u8,
        sig_msg: Vec<u8>,
        sig: &AggregateSig,
        signers: &Vec<u8>,
    ) -> (r: Result<(), Error>)
        ensures
            r == Err::<(), Error>(Error::ThresholdZero) <==> threshold == 0,
            r == Err::<(), Error>(Error::DuplicateSigner) <==> (threshold > 0 && signers_have_dup(
                signers@,
            )),
            r == Err::<(), Error>(Error::ThresholdNotMet) <==> (threshold > 0
                && !signers_have_dup(signers@) && signers@.len() < threshold),
            r == Err::<(), Error>(Error::SignerNotFound) <==> (threshold > 0 && !signers_have_dup(
                signers@,
            ) && signers@.len() >= threshold && !signers_in_range(
                signers@,
                self.admins@.len() as int,
            )),
            r is Ok <==> (threshold > 0 && !signers_have_dup(signers@) && signers@.len()
                >= threshold && signers_in_range(signers@, self.admins@.len() as int)
                && sig_verdict(
                sig_msg@,
                resolved_keys(self.admins_view(), signers@),
                sig@,
            )),
            r == Err::<(), Error>(Error::InvalidSignature) <==> (threshold > 0
                && !signers_have_dup(signers@) && signers@.len() >= threshold && signers_in_range(
                signers@,
                self.admins@.len() as int,
            ) && !sig_verdict(sig_msg@, resolved_keys(self.admins_view(), signers@), sig@)),
            r is Err ==> (r == Err::<(), Error>(Error::ThresholdZero) || r == Err::<(), Error>(
                Error::DuplicateSigner,
            ) || r == Err::<(), Error>(Error::ThresholdNotMet) || r == Err::<(), Error>(
                Error::SignerNotFound,
            ) || r == Err::<(), Error>(Error::InvalidSignature)),
    {
        let keys = match self.check_signers(threshold, signers) {
            Ok(keys) => keys,
            Err(e) => {
                return Err(e);
            },
        };
        if multisig_verdict(&sig_msg, &keys, sig) {
            Ok(())
        } else {
            Err(Error::InvalidSignature)
        }
    }
}

impl MultiSigV2 {
    /// The proposal ids a pruning pass at this height would remove.
    pub open spec fn prop_removed(&self, now: u64) -> Set<Seq<u8>> {
        spec_prune(index_view(self.proposals.index@), now, MAX_PROPOSALS_TO_PRUNE as nat).removed
    }

    /// The tombstone ids a pruning pass at this height would remove.
    pub open spec fn tomb_removed(&self, now: u64) -> Set<Seq<u8>> {
        spec_prune(index_view(self.tombstones.index@), now, MAX_TOMBSTONES_TO_PRUNE as nat).removed
    }

    /// After this call's pruning, the id resolves to a pending proposal.
    pub open spec fn pending_after_prune(&self, id: Seq<u8>, now: u64) -> bool {
        self.has_proposal(id) && !self.prop_removed(now).contains(id) && now
            <= self.proposal_deadline(id)
    }

    /// After this call's pruning, the id resolves to a proposal that is
    /// still stored but past its deadline.
    pub open spec fn expired_after_prune(&self, id: Seq<u8>, now: u64) -> bool {
        self.has_proposal(id) && !self.prop_removed(now).contains(id) && now
            > self.proposal_deadline(id)
    }

    /// After this call's pruning, the id resolves to a tombstone.
    pub open spec fn executed_after_prune(&self, id: Seq<u8>, now: u64) -> bool {
        self.has_tombstone(id) && !self.tomb_removed(now).contains(id)
    }

    /// After this call's pruning, the id resolves to nothing.
    pub open spec fn unknown_after_prune(&self, id: Seq<u8>, now: u64) -> bool {
        !(self.has_proposal(id) && !self.prop_removed(now).contains(id))
            && !self.executed_after_prune(id, now)
    }

    /// The rejection a `propose` call gets, if any: the first failing
    /// check among authentication, configuration, and the duplicate rule.
    pub open spec fn propose_error(&self, env: CallEnv, id: Seq<u8>) -> Option<Error> {
        if env.callstack_depth != 1 {
            Some(Error::IndirectCall)
        } else if !(env.sender is Some) {
            Some(Error::ShieldedCall)
        } else if !self.admins_view().contains(env.sender.unwrap()@) {
            Some(Error::NotAdmin)
        } else if self.confirmation_threshold == 0 {
            Some(Error::ThresholdNotConfigured)
        } else if self.proposal_ttl == 0 {
            Some(Error::TtlNotConfigured)
        } else if self.tombstone_ttl == 0 {
            Some(Error::ReplayWindowNotConfigured)
        } else if self.pending_after_prune(id, env.height) && self.proposal_op(
            id,
        )@.approvals.contains(env.sender.unwrap()@) {
            Some(Error::AlreadyConfirmed)
        } else {
            None
        }
    }

    /// The rejection a `confirm` call gets, if any.
    pub open spec fn confirm_error(&self, env: CallEnv, id: Seq<u8>) -> Option<Error> {
        if env.callstack_depth != 1 {
            Some(Error::IndirectCall)
        } else if !(env.sender is Some) {
            Some(Error::ShieldedCall)
        } else if !self.admins_view().contains(env.sender.unwrap()@) {
            Some(Error::NotAdmin)
        } else if self.unknown_after_prune(id, env.height) {
            Some(Error::OperationNotFound)
        } else {
            None
        }
    }

    /// An accepted `propose` finds the id settled (executed or expired)
    /// and does nothing.
    pub open spec fn propose_noop(&self, env: CallEnv, id: Seq<u8>) -> bool {
        self.expired_after_prune(id, env.height) || self.executed_after_prune(id, env.height)
    }

    /// An accepted `propose` finds the id unknown and creates a fresh
    /// pending proposal.
    pub open spec fn propose_creates(&self, env: CallEnv, id: Seq<u8>) -> bool {
        self.unknown_after_prune(id, env.height)
    }

    /// An accepted `propose` finds the id pending and merges the caller's
    /// confirmation.
    pub open spec fn propose_merges(&self, env: CallEnv, id: Seq<u8>) -> bool {
        self.pending_after_prune(id, env.height)
    }

    /// An accepted `propose` reaches the live confirmation threshold and
    /// executes the operation.
    pub open spec fn propose_executes(&self, env: CallEnv, id: Seq<u8>) -> bool {
        (self.propose_creates(env, id) && self.confirmation_threshold <= 1) || (
        self.propose_merges(env, id) && self.proposal_op(id)@.approvals.len() + 1
            >= self.confirmation_threshold)
    }

    /// An accepted `confirm` finds the id settled and does nothing.
    pub open spec fn confirm_noop(&self, env: CallEnv, id: Seq<u8>) -> bool {
        self.expired_after_prune(id, env.height) || self.executed_after_prune(id, env.height)
    }

    /// An accepted `confirm` finds the id pending and the caller not yet
    /// among its approvals, so it appends the confirmation.
    pub open spec fn confirm_appends(&self, env: CallEnv, id: Seq<u8>) -> bool {
        self.pending_after_prune(id, env.height) && !self.proposal_op(id)@.approvals.contains(
            env.sender.unwrap()@,
        )
    }

    /// An accepted `confirm` reaches the live confirmation threshold and
    /// executes the operation.
    pub open spec fn confirm_executes(&self, env: CallEnv, id: Seq<u8>) -> bool {
        self.pending_after_prune(id, env.height) && (if self.proposal_op(
            id,
        )@.approvals.contains(env.sender.unwrap()@) {
            self.proposal_op(id)@.approvals.len() as int
        } else {
            (self.proposal_op(id)@.approvals.len() + 1) as int
        }) >= self.confirmation_threshold
    }

    /// Executes the pending operation under `id` when its approvals reach
    /// the live confirmation threshold: consumes the proposal, records a
    /// tombstone expiring a replay window from now, and hands out the
    /// target call. Below the threshold, nothing happens.
    fn try_execute(&mut self, id: &OpId, now: u64, events: &mut Vec<Event>) -> (r: Option<
        ExecRequest,
    >)
        requires
            old(self).wf(),
            old(self).has_proposal(id@),
            now <= old(self).proposal_deadline(id@),
            now + old(self).tombstone_ttl <= u64::MAX,
        ensures
            final(self).wf(),
            final(self).admins@ == old(self).admins@,
            final(self).admin_nonce == old(self).admin_nonce,
            final(self).confirmation_threshold == old(self).confirmation_threshold,
            final(self).admin_threshold == old(self).admin_threshold,
            final(self).proposal_ttl == old(self).proposal_ttl,
            final(self).tombstone_ttl == old(self).tombstone_ttl,
            final(self).this_address == old(self).this_address,
            old(self).proposal_op(id@)@.approvals.len() < old(self).confirmation_threshold
                ==> *final(self) == *old(self) && final(events)@ == old(events)@ && r is None,
            old(self).proposal_op(id@)@.approvals.len() >= old(self).confirmation_threshold
                ==> {
                &&& final(self).proposal_count() + 1 == old(self).proposal_count()
                &&& final(self).tombstone_count() == old(self).tombstone_count() + 1
                &&& !final(self).has_proposal(id@)
                &&& forall|x: Seq<u8>|
                    x != id@ ==> (#[trigger] final(self).has_proposal(x)
                        <==> old(self).has_proposal(x))
                &&& forall|x: Seq<u8>|
                    x != id@ && final(self).has_proposal(x)
                        ==> #[trigger] final(self).proposal_op(x) == old(self).proposal_op(x)
                        && final(self).proposal_deadline(x) == old(self).proposal_deadline(x)
                &&& forall|x: Seq<u8>|
                    #[trigger] final(self).has_tombstone(x) <==> old(self).has_tombstone(x) || x
                        == id@
                &&& final(self).tombstone_expiry(id@) == now + old(self).tombstone_ttl
                &&& forall|x: Seq<u8>|
                    x != id@ && final(self).has_tombstone(x)
                        ==> #[trigger] final(self).tombstone_expiry(x)
                        == old(self).tombstone_expiry(x)
                &&& final(events)@ == old(events)@.push(Event::Executing(*id))
                &&& (r matches Some(req) && req.id == *id && req.call@ == old(self).proposal_op(
                    id@,
                ).target@.call)
            },
    {
        let i = match self.proposals.find(id) {
            Some(i) => i,
            None => {
                proof {
                    assert(false);
                }
                return None;
            },
        };
        proof {
            crate::registry::lemma_entry_index_unique(self.proposals.entries@, id@, i as int);
        }
        if self.proposals.entries[i].val.approvals.len() < self.confirmation_threshold as usize {
            return None;
        }
        events.push(Event::Executing(*id));
        let e = self.proposals.remove(id);
        let ghost old_props = old(self).proposals.entries@;
        proof {
            let k = crate::registry::entry_index_of(old_props, id@);
            assert(self.proposals.entries@ == old_props.remove(k));
            crate::registry::lemma_entries_remove(old_props, k);
            assert forall|q: int|
                0 <= q < self.proposals.entries@.len() implies #[trigger] self.proposals.entries@[q]
                == old_props[
                if q < k {
                    q
                } else {
                    q + 1
                }
            ] by {}
            assert(!entries_has(self.proposals.entries@, id@));
            assert(!self.tombstones.has(id@)) by {
                assert(entries_has(old_props, id@));
            }
        }
        let expiry = now + self.tombstone_ttl;
        self.tombstones.insert(*id, expiry, ());
        proof {
            assert(self.tombstones.entries@.last().id@ == id@);
            assert(self.tombstones.has(id@)) by {
                assert(self.tombstones.entries@[self.tombstones.entries@.len() - 1].id@ == id@);
            }
            crate::registry::lemma_entry_index_unique(
                self.tombstones.entries@,
                id@,
                self.tombstones.entries@.len() - 1,
            );
            assert forall|x: Seq<u8>|
                #[trigger] entries_has(self.tombstones.entries@, x) <==> entries_has(
                old(self).tombstones.entries@,
                x,
            ) || x == id@ by {
                if entries_has(self.tombstones.entries@, x) {
                    let q = choose|q: int|
                        0 <= q < self.tombstones.entries@.len() && self.tombstones.entries@[q].id@
                            == x;
                    if q < self.tombstones.entries@.len() - 1 {
                        assert(entries_has(old(self).tombstones.entries@, x));
                    }
                }
                if entries_has(old(self).tombstones.entries@, x) {
                    let q = choose|q: int|
                        0 <= q < old(self).tombstones.entries@.len() && old(
                            self,
                        ).tombstones.entries@[q].id@ == x;
                    assert(self.tombstones.entries@[q].id@ == x);
                }
            }
            assert forall|x: Seq<u8>|
                x != id@ && entries_has(old(self).tombstones.entries@, x) implies #[trigger] entry_of(
                self.tombstones.entries@,
                x,
            ) == entry_of(old(self).tombstones.entries@, x) by {
                let q = choose|q: int|
                    0 <= q < old(self).tombstones.entries@.len() && old(
                        self,
                    ).tombstones.entries@[q].id@ == x;
                crate::registry::lemma_entry_index_unique(old(self).tombstones.entries@, x, q);
                crate::registry::lemma_entry_index_unique(self.tombstones.entries@, x, q);
            }
            // the registry invariants that go beyond the registries
            assert forall|x: Seq<u8>|
                #[trigger] entries_has(self.proposals.entries@, x) implies !entries_has(
                self.tombstones.entries@,
                x,
            ) by {
                assert(entries_has(old(self).proposals.entries@, x));
                assert(x != id@);
            }
        }
        Some(ExecRequest { id: *id, call: e.val.target.call })
    }
}

impl MultiSigV2 {
    /// Creates or merges a proposal for `target` under `id`, the host's
    /// digest of the encoded target call and salt.
    ///
    /// A directly calling admin is required and the time parameters must
    /// be configured. Both structures are pruned (at most a fixed cap of
    /// entries each); an id already executed or past its deadline is a
    /// silent no-op; an unknown id starts a pending proposal whose first
    /// confirmation is the caller; a pending id gains the caller's
    /// confirmation unless the caller already confirmed, which is
    /// rejected. Reaching the live confirmation threshold executes the
    /// operation. An error leaves the state exactly as it was.
    #[verifier::loop_isolation(false)]
    #[verifier::rlimit(60)]
    pub fn propose(&mut self, env: &CallEnv, target: Target, id: OpId) -> (r: Result<
        Outcome,
        Error,
    >)
        requires
            old(self).wf(),
            env.height + old(self).proposal_ttl <= u64::MAX,
            env.height + old(self).tombstone_ttl <= u64::MAX,
        ensures
            final(self).wf(),
            old(self).propose_error(*env, id@) matches Some(e) ==> r == Err::<Outcome, Error>(e)
                && *final(self) == *old(self),
            old(self).propose_error(*env, id@) is None ==> r is Ok,
            final(self).admins@ == old(self).admins@,
            final(self).admin_nonce == old(self).admin_nonce,
            final(self).confirmation_threshold == old(self).confirmation_threshold,
            final(self).admin_threshold == old(self).admin_threshold,
            final(self).proposal_ttl == old(self).proposal_ttl,
            final(self).tombstone_ttl == old(self).tombstone_ttl,
            final(self).this_address == old(self).this_address,
            r is Ok ==> final(self).proposal_count() + 33 >= old(self).proposal_count()
                && old(self).tombstone_count() <= final(self).tombstone_count() + 32,
            r is Ok ==> {
                &&& forall|x: Seq<u8>|
                    x != id@ ==> (#[trigger] final(self).has_proposal(x) <==> old(
                        self,
                    ).has_proposal(x) && !old(self).prop_removed(env.height).contains(x))
                &&& forall|x: Seq<u8>|
                    x != id@ && final(self).has_proposal(x)
                        ==> #[trigger] final(self).proposal_op(x) == old(self).proposal_op(x)
                        && final(self).proposal_deadline(x) == old(self).proposal_deadline(x)
                &&& forall|x: Seq<u8>|
                    #[trigger] final(self).has_tombstone(x) <==> ((old(self).has_tombstone(x)
                        && !old(self).tomb_removed(env.height).contains(x)) || (old(
                        self,
                    ).propose_executes(*env, id@) && x == id@))
                &&& forall|x: Seq<u8>|
                    x != id@ && final(self).has_tombstone(x)
                        ==> #[trigger] final(self).tombstone_expiry(x)
                        == old(self).tombstone_expiry(x)
                &&& old(self).propose_executes(*env, id@) ==> final(self).tombstone_expiry(id@)
                    == env.height + old(self).tombstone_ttl
                &&& !old(self).propose_executes(*env, id@) && final(self).has_tombstone(id@)
                    ==> final(self).tombstone_expiry(id@) == old(self).tombstone_expiry(id@)
                &&& old(self).propose_noop(*env, id@) ==> ((final(self).has_proposal(id@) <==> old(
                    self,
                ).has_proposal(id@) && !old(self).prop_removed(env.height).contains(id@)) && (
                final(self).has_proposal(id@) ==> final(self).proposal_op(id@) == old(
                    self,
                ).proposal_op(id@)))
                &&& old(self).propose_executes(*env, id@) ==> !final(self).has_proposal(id@)
                &&& old(self).propose_creates(*env, id@) && !old(self).propose_executes(*env, id@)
                    ==> {
                    &&& final(self).has_proposal(id@)
                    &&& final(self).proposal_op(id@)@.target == target@
                    &&& final(self).proposal_op(id@)@.approvals =~= seq![env.sender.unwrap()@]
                    &&& final(self).proposal_op(id@)@.deadline == env.height + old(
                        self,
                    ).proposal_ttl
                    &&& final(self).proposal_op(id@)@.threshold == old(
                        self,
                    ).confirmation_threshold
                    &&& final(self).proposal_deadline(id@) == env.height + old(self).proposal_ttl
                }
                &&& old(self).propose_merges(*env, id@) && !old(self).propose_executes(*env, id@)
                    ==> {
                    &&& final(self).has_proposal(id@)
                    &&& final(self).proposal_op(id@)@.target == old(self).proposal_op(
                        id@,
                    )@.target
                    &&& final(self).proposal_op(id@)@.approvals =~= old(self).proposal_op(
                        id@,
                    )@.approvals.push(env.sender.unwrap()@)
                    &&& final(self).proposal_op(id@)@.threshold == old(self).proposal_op(
                        id@,
                    )@.threshold
                    &&& final(self).proposal_deadline(id@) == old(self).proposal_deadline(id@)
                }
            },
            r matches Ok(o) ==> {
                &&& (old(self).propose_noop(*env, id@) ==> o.events@.len() == 0 && o.execute
                    is None)
                &&& (old(self).propose_creates(*env, id@) ==> o.events@.len() >= 1 && (o.events@[0]
                    matches Event::Proposed(m) && m.id@ == id@ && m.from@
                    == env.sender.unwrap()@))
                &&& (old(self).propose_merges(*env, id@) ==> o.events@.len() >= 1 && (o.events@[0]
                    matches Event::Confirmed(m) && m.id@ == id@ && m.from@
                    == env.sender.unwrap()@))
                &&& (old(self).propose_executes(*env, id@) ==> o.events@.len() == 2 && (
                o.events@[1] matches Event::Executing(e) && e@ == id@) && (o.execute matches Some(
                    req,
                ) && req.id@ == id@))
                &&& (old(self).propose_executes(*env, id@) && old(self).propose_creates(*env, id@)
                    ==> (o.execute matches Some(req) && req.call@ == target@.call))
                &&& (old(self).propose_executes(*env, id@) && old(self).propose_merges(*env, id@)
                    ==> (o.execute matches Some(req) && req.call@ == old(self).proposal_op(
                        id@,
                    ).target@.call))
                &&& (!old(self).propose_executes(*env, id@) ==> o.execute is None
                    && o.events@.len() <= 1)
            },
    {
        let from = match self.direct_admin(env) {
            Ok(k) => k,
            Err(e) => {
                return Err(e);
            },
        };
        if self.confirmation_threshold == 0 {
            return Err(Error::ThresholdNotConfigured);
        }
        if self.proposal_ttl == 0 {
            return Err(Error::TtlNotConfigured);
        }
        if self.tombstone_ttl == 0 {
            return Err(Error::ReplayWindowNotConfigured);
        }
        match self.proposals.find(&id) {
            Some(i) => {
                proof {
                    crate::registry::lemma_entry_index_unique(
                        self.proposals.entries@,
                        id@,
                        i as int,
                    );
                }
                if env.height <= self.proposals.entries[i].height && self.proposals.entries[i].val.approved_by(
                    &from,
                ) {
                    if !self.proposals.would_remove(&id, env.height, MAX_PROPOSALS_TO_PRUNE) {
                        return Err(Error::AlreadyConfirmed);
                    }
                }
            },
            None => {},
        }
        proof {
            assert(self.propose_error(*env, id@) is None);
        }
        let ghost orig = *self;
        self.tombstones.prune(env.height, MAX_TOMBSTONES_TO_PRUNE);
        self.proposals.prune(env.height, MAX_PROPOSALS_TO_PRUNE);
        let ghost pruned = *self;
        proof {
            assert forall|x: Seq<u8>|
                #[trigger] entries_has(pruned.proposals.entries@, x) implies entries_has(
                orig.proposals.entries@,
                x,
            ) by {
                assert(pruned.proposals.has(x));
                assert(orig.proposals.has(x));
            }
            assert forall|x: Seq<u8>|
                #[trigger] entries_has(pruned.tombstones.entries@, x) implies entries_has(
                orig.tombstones.entries@,
                x,
            ) by {
                assert(pruned.tombstones.has(x));
                assert(orig.tombstones.has(x));
            }
            lemma_wf_after_thinning(orig, pruned);
        }
        let mut events: Vec<Event> = Vec::new();
        match self.proposals.find(&id) {
            Some(i) => {
                proof {
                    crate::registry::lemma_entry_index_unique(
                        self.proposals.entries@,
                        id@,
                        i as int,
                    );
                    assert(orig.has_proposal(id@) && !orig.prop_removed(env.height).contains(
                        id@,
                    ));
                    assert(pruned.proposal_op(id@) == orig.proposal_op(id@));
                }
                let deadline = self.proposals.entries[i].height;
                if env.height > deadline {
                    proof {
                        assert(orig.propose_noop(*env, id@));
                        assert(!orig.propose_executes(*env, id@));
                        assert(!orig.propose_merges(*env, id@));
                        assert(!orig.propose_creates(*env, id@));
                        lemma_noop_glue(orig, pruned, env.height);
                    }
                    return Ok(Outcome { events, execute: None });
                }
                proof {
                    assert(orig.propose_merges(*env, id@));
                    assert(!orig.proposal_op(id@)@.approvals.contains(env.sender.unwrap()@));
                }
                let mut e = self.proposals.remove(&id);
                let ghost mid = *self;
                let ghost removed_entry = e;
                proof {
                    crate::registry::lemma_entries_remove(
                        pruned.proposals.entries@,
                        crate::registry::entry_index_of(pruned.proposals.entries@, id@),
                    );
                    lemma_wf_after_thinning(pruned, mid);
                }
                e.val.approvals.push(from.clone());
                let h = e.height;
                proof {
                    assert(e.val@.approvals =~= removed_entry.val@.approvals.push(
                        env.sender.unwrap()@,
                    ));
                    assert(approvals_distinct(e.val)) by {
                        let ap = e.val.approvals@;
                        assert forall|a: int, b: int|
                            0 <= a < b < ap.len() implies ap[a]@ != ap[b]@ by {
                            if b < ap.len() - 1 {
                                assert(approvals_distinct(removed_entry.val));
                            } else {
                                assert(ap[b]@ == env.sender.unwrap()@);
                                assert(removed_entry.val@.approvals[a] == ap[a]@);
                            }
                        }
                    }
                }
                let ghost en = crate::registry::Entry { id, height: h, val: e.val };
                self.proposals.insert(id, h, e.val);
                proof {
                    let n = self.proposals.entries@.len() - 1;
                    assert(self.proposals.entries@[n] == en);
                    assert(self.proposals.entries@[n].id@ == id@);
                    assert(entries_has(self.proposals.entries@, id@));
                    crate::registry::lemma_entry_index_unique(self.proposals.entries@, id@, n);
                    assert(en.val.deadline == en.height);
                    lemma_wf_after_add(mid, *self, en);
                }
                events.push(Event::Confirmed(MultisigOperation { id, from }));
                let ghost before_try = *self;
                proof {
                    assert(before_try.proposal_op(id@) == en.val);
                    assert(removed_entry == entry_of(pruned.proposals.entries@, id@));
                    assert(entry_of(pruned.proposals.entries@, id@) == entry_of(
                        orig.proposals.entries@,
                        id@,
                    ));
                    assert(en.val@.approvals.len() == removed_entry.val@.approvals.len() + 1);
                    assert(!pruned.has_tombstone(id@)) by {
                        assert(entries_has(pruned.proposals.entries@, id@));
                    }
                }
                let exec = self.try_execute(&id, env.height, &mut events);
                proof {
                    let executed = en.val@.approvals.len()
                        >= orig.confirmation_threshold as int;
                    lemma_settle_glue(
                        orig,
                        pruned,
                        mid,
                        before_try,
                        *self,
                        id@,
                        en,
                        env.height,
                        true,
                        executed,
                    );
                    assert(orig.propose_executes(*env, id@) <==> executed);
                    assert(!orig.propose_noop(*env, id@));
                    assert(!orig.propose_creates(*env, id@));
                    if !executed {
                        assert(self.proposal_op(id@)@.approvals =~= orig.proposal_op(
                            id@,
                        )@.approvals.push(env.sender.unwrap()@));
                    }
                }
                Ok(Outcome { events, execute: exec })
            },
            None => {
                if self.tombstones.contains(&id) {
                    proof {
                        assert(orig.propose_noop(*env, id@));
                        assert(!orig.propose_executes(*env, id@));
                        assert(!orig.propose_merges(*env, id@));
                        assert(!orig.propose_creates(*env, id@));
                        assert(!(orig.has_proposal(id@) && !orig.prop_removed(
                            env.height,
                        ).contains(id@)));
                        lemma_noop_glue(orig, pruned, env.height);
                    }
                    return Ok(Outcome { events, execute: None });
                }
                proof {
                    assert(orig.propose_creates(*env, id@));
                }
                let deadline = env.height + self.proposal_ttl;
                let op = Operation {
                    target,
                    approvals: vec![from.clone()],
                    deadline,
                    threshold: self.confirmation_threshold,
                };
                proof {
                    assert(op@.approvals =~= seq![env.sender.unwrap()@]);
                }
                let ghost en = crate::registry::Entry { id, height: deadline, val: op };
                self.proposals.insert(id, deadline, op);
                proof {
                    let n = self.proposals.entries@.len() - 1;
                    assert(self.proposals.entries@[n] == en);
                    assert(self.proposals.entries@[n].id@ == id@);
                    assert(entries_has(self.proposals.entries@, id@));
                    crate::registry::lemma_entry_index_unique(self.proposals.entries@, id@, n);
                    lemma_wf_after_add(pruned, *self, en);
                }
                events.push(Event::Proposed(MultisigOperation { id, from }));
                let ghost before_try = *self;
                proof {
                    assert(before_try.proposal_op(id@) == en.val);
                    assert(en.val@.approvals.len() == 1);
                }
                let exec = self.try_execute(&id, env.height, &mut events);
                proof {
                    let executed = 1 >= orig.confirmation_threshold as int;
                    lemma_settle_glue(
                        orig,
                        pruned,
                        pruned,
                        before_try,
                        *self,
                        id@,
                        en,
                        env.height,
                        false,
                        executed,
                    );
                    assert(orig.propose_executes(*env, id@) <==> executed);
                    assert(!orig.propose_noop(*env, id@));
                    assert(!orig.propose_merges(*env, id@));
                    if !executed {
                        assert(self.proposal_op(id@)@.approvals =~= seq![env.sender.unwrap()@]);
                    }
                }
                Ok(Outcome { events, execute: exec })
            },
        }
    }

    /// Confirms the pending operation under `id`.
    ///
    /// A directly calling admin is required. Both structures are pruned
    /// (at most a fixed cap of entries each); an unknown id is rejected;
    /// an executed or expired id is a silent no-op; a pending id gains
    /// the caller's confirmation unless the caller already confirmed,
    /// which is a no-op that still attempts execution. Reaching the live
    /// confirmation threshold executes the operation. An error leaves the
    /// state exactly as it was.
    #[verifier::loop_isolation(false)]
    #[verifier::rlimit(60)]
    pub fn confirm(&mut self, env: &CallEnv, id: OpId) -> (r: Result<Outcome, Error>)
        requires
            old(self).wf(),
            env.height + old(self).tombstone_ttl <= u64::MAX,
        ensures
            final(self).wf(),
            old(self).confirm_error(*env, id@) matches Some(e) ==> r == Err::<Outcome, Error>(e)
                && *final(self) == *old(self),
            old(self).confirm_error(*env, id@) is None ==> r is Ok,
            final(self).admins@ == old(self).admins@,
            final(self).admin_nonce == old(self).admin_nonce,
            final(self).confirmation_threshold == old(self).confirmation_threshold,
            final(self).admin_threshold == old(self).admin_threshold,
            final(self).proposal_ttl == old(self).proposal_ttl,
            final(self).tombstone_ttl == old(self).tombstone_ttl,
            final(self).this_address == old(self).this_address,
            r is Ok ==> final(self).proposal_count() + 33 >= old(self).proposal_count()
                && old(self).tombstone_count() <= final(self).tombstone_count() + 32,
            r is Ok ==> {
                &&& forall|x: Seq<u8>|
                    x != id@ ==> (#[trigger] final(self).has_proposal(x) <==> old(
                        self,
                    ).has_proposal(x) && !old(self).prop_removed(env.height).contains(x))
                &&& forall|x: Seq<u8>|
                    x != id@ && final(self).has_proposal(x)
                        ==> #[trigger] final(self).proposal_op(x) == old(self).proposal_op(x)
                        && final(self).proposal_deadline(x) == old(self).proposal_deadline(x)
                &&& forall|x: Seq<u8>|
                    #[trigger] final(self).has_tombstone(x) <==> ((old(self).has_tombstone(x)
                        && !old(self).tomb_removed(env.height).contains(x)) || (old(
                        self,
                    ).confirm_executes(*env, id@) && x == id@))
                &&& forall|x: Seq<u8>|
                    x != id@ && final(self).has_tombstone(x)
                        ==> #[trigger] final(self).tombstone_expiry(x)
                        == old(self).tombstone_expiry(x)
                &&& old(self).confirm_executes(*env, id@) ==> final(self).tombstone_expiry(id@)
                    == env.height + old(self).tombstone_ttl && !final(self).has_proposal(id@)
                &&& !old(self).confirm_executes(*env, id@) && final(self).has_tombstone(id@)
                    ==> final(self).tombstone_expiry(id@) == old(self).tombstone_expiry(id@)
                &&& old(self).confirm_noop(*env, id@) ==> ((final(self).has_proposal(id@) <==> old(
                    self,
                ).has_proposal(id@) && !old(self).prop_removed(env.height).contains(id@)) && (
                final(self).has_proposal(id@) ==> final(self).proposal_op(id@) == old(
                    self,
                ).proposal_op(id@)))
                &&& old(self).confirm_appends(*env, id@) && !old(self).confirm_executes(*env, id@)
                    ==> {
                    &&& final(self).has_proposal(id@)
                    &&& final(self).proposal_op(id@)@.target == old(self).proposal_op(
                        id@,
                    )@.target
                    &&& final(self).proposal_op(id@)@.approvals =~= old(self).proposal_op(
                        id@,
                    )@.approvals.push(env.sender.unwrap()@)
                    &&& final(self).proposal_deadline(id@) == old(self).proposal_deadline(id@)
                }
                &&& old(self).pending_after_prune(id@, env.height) && !old(self).confirm_appends(
                    *env,
                    id@,
                ) && !old(self).confirm_executes(*env, id@) ==> final(self).has_proposal(id@)
                    && final(self).proposal_op(id@) == old(self).proposal_op(id@)
            },
            r matches Ok(o) ==> {
                &&& (old(self).confirm_noop(*env, id@) ==> o.events@.len() == 0 && o.execute
                    is None)
                &&& (old(self).confirm_appends(*env, id@) ==> o.events@.len() >= 1 && (o.events@[0]
                    matches Event::Confirmed(m) && m.id@ == id@ && m.from@
                    == env.sender.unwrap()@))
                &&& (old(self).confirm_executes(*env, id@) ==> (o.events@.last() matches
                    Event::Executing(e) && e@ == id@) && (o.execute matches Some(req) && req.id@
                    == id@ && req.call@ == old(self).proposal_op(id@).target@.call))
                &&& (!old(self).confirm_executes(*env, id@) ==> o.execute is None
                    && o.events@.len() <= 1)
                &&& o.events@.len() <= 2
            },
    {
        let from = match self.direct_admin(env) {
            Ok(k) => k,
            Err(e) => {
                return Err(e);
            },
        };
        let prop_visible = match self.proposals.find(&id) {
            Some(_) => !self.proposals.would_remove(&id, env.height, MAX_PROPOSALS_TO_PRUNE),
            None => false,
        };
        let tomb_visible = if self.tombstones.contains(&id) {
            !self.tombstones.would_remove(&id, env.height, MAX_TOMBSTONES_TO_PRUNE)
        } else {
            false
        };
        if !prop_visible && !tomb_visible {
            proof {
                assert(self.unknown_after_prune(id@, env.height));
            }
            return Err(Error::OperationNotFound);
        }
        proof {
            assert(self.confirm_error(*env, id@) is None);
        }
        let ghost orig = *self;
        self.tombstones.prune(env.height, MAX_TOMBSTONES_TO_PRUNE);
        self.proposals.prune(env.height, MAX_PROPOSALS_TO_PRUNE);
        let ghost pruned = *self;
        proof {
            assert forall|x: Seq<u8>|
                #[trigger] entries_has(pruned.proposals.entries@, x) implies entries_has(
                orig.proposals.entries@,
                x,
            ) by {
                assert(pruned.proposals.has(x));
                assert(orig.proposals.has(x));
            }
            assert forall|x: Seq<u8>|
                #[trigger] entries_has(pruned.tombstones.entries@, x) implies entries_has(
                orig.tombstones.entries@,
                x,
            ) by {
                assert(pruned.tombstones.has(x));
                assert(orig.tombstones.has(x));
            }
            lemma_wf_after_thinning(orig, pruned);
        }
        let mut events: Vec<Event> = Vec::new();
        match self.proposals.find(&id) {
            Some(i) => {
                proof {
                    crate::registry::lemma_entry_index_unique(
                        self.proposals.entries@,
                        id@,
                        i as int,
                    );
                    assert(pruned.proposal_op(id@) == orig.proposal_op(id@));
                }
                let deadline = self.proposals.entries[i].height;
                if env.height > deadline {
                    proof {
                        assert(orig.confirm_noop(*env, id@));
                        assert(!orig.confirm_executes(*env, id@));
                        assert(!orig.confirm_appends(*env, id@));
                        lemma_noop_glue(orig, pruned, env.height);
                    }
                    return Ok(Outcome { events, execute: None });
                }
                proof {
                    assert(orig.pending_after_prune(id@, env.height));
                }
                if !self.proposals.entries[i].val.approved_by(&from) {
                    proof {
                        assert(orig.confirm_appends(*env, id@));
                    }
                    let mut e = self.proposals.remove(&id);
                    let ghost mid = *self;
                    let ghost removed_entry = e;
                    proof {
                        crate::registry::lemma_entries_remove(
                            pruned.proposals.entries@,
                            crate::registry::entry_index_of(pruned.proposals.entries@, id@),
                        );
                        lemma_wf_after_thinning(pruned, mid);
                    }
                    e.val.approvals.push(from.clone());
                    let h = e.height;
                    proof {
                        assert(e.val@.approvals =~= removed_entry.val@.approvals.push(
                            env.sender.unwrap()@,
                        ));
                        assert(approvals_distinct(e.val)) by {
                            let ap = e.val.approvals@;
                            assert forall|a: int, b: int|
                                0 <= a < b < ap.len() implies ap[a]@ != ap[b]@ by {
                                if b < ap.len() - 1 {
                                    assert(approvals_distinct(removed_entry.val));
                                } else {
                                    assert(ap[b]@ == env.sender.unwrap()@);
                                    assert(removed_entry.val@.approvals[a] == ap[a]@);
                                }
                            }
                        }
                    }
                    let ghost en = crate::registry::Entry { id, height: h, val: e.val };
                    self.proposals.insert(id, h, e.val);
                    proof {
                        let n = self.proposals.entries@.len() - 1;
                        assert(self.proposals.entries@[n] == en);
                        assert(self.proposals.entries@[n].id@ == id@);
                        assert(entries_has(self.proposals.entries@, id@));
                        crate::registry::lemma_entry_index_unique(
                            self.proposals.entries@,
                            id@,
                            n,
                        );
                        assert(en.val.deadline == en.height);
                        lemma_wf_after_add(mid, *self, en);
                    }
                    events.push(Event::Confirmed(MultisigOperation { id, from }));
                    let ghost before_try = *self;
                    proof {
                        assert(before_try.proposal_op(id@) == en.val);
                        assert(removed_entry == entry_of(pruned.proposals.entries@, id@));
                        assert(entry_of(pruned.proposals.entries@, id@) == entry_of(
                            orig.proposals.entries@,
                            id@,
                        ));
                        assert(en.val@.approvals.len() == removed_entry.val@.approvals.len()
                            + 1);
                        assert(!pruned.has_tombstone(id@)) by {
                            assert(entries_has(pruned.proposals.entries@, id@));
                        }
                    }
                    let exec = self.try_execute(&id, env.height, &mut events);
                    proof {
                        let executed = en.val@.approvals.len()
                            >= orig.confirmation_threshold as int;
                        lemma_settle_glue(
                            orig,
                            pruned,
                            mid,
                            before_try,
                            *self,
                            id@,
                            en,
                            env.height,
                            true,
                            executed,
                        );
                        assert(orig.confirm_executes(*env, id@) <==> executed);
                        assert(!orig.confirm_noop(*env, id@));
                        if !executed {
                            assert(self.proposal_op(id@)@.approvals =~= orig.proposal_op(
                                id@,
                            )@.approvals.push(env.sender.unwrap()@));
                        }
                    }
                    return Ok(Outcome { events, execute: exec });
                }
                proof {
                    assert(!orig.confirm_appends(*env, id@));
                    assert(orig.proposal_op(id@)@.approvals.contains(env.sender.unwrap()@));
                    assert(!pruned.has_tombstone(id@)) by {
                        assert(entries_has(pruned.proposals.entries@, id@));
                    }
                }
                let ghost before_try = *self;
                let exec = self.try_execute(&id, env.height, &mut events);
                proof {
                    let executed = orig.proposal_op(id@)@.approvals.len()
                        >= orig.confirmation_threshold as int;
                    assert(before_try.proposal_op(id@) == orig.proposal_op(id@));
                    lemma_already_glue(orig, pruned, before_try, *self, id@, env.height, executed);
                    assert(orig.confirm_executes(*env, id@) <==> executed);
                    assert(!orig.confirm_noop(*env, id@));
                }
                Ok(Outcome { events, execute: exec })
            },
            None => {
                proof {
                    assert(orig.executed_after_prune(id@, env.height));
                    assert(orig.confirm_noop(*env, id@));
                    assert(!orig.confirm_executes(*env, id@));
                    assert(!orig.confirm_appends(*env, id@));
                    lemma_noop_glue(orig, pruned, env.height);
                }
                Ok(Outcome { events, execute: None })
            },
        }
    }
}

impl MultiSigV2 {
    /// The rejection an authority change gets from its static checks, in
    /// order: chain id, new admin set, new thresholds, then the signer
    /// list against the current admins and admin threshold. The verdict of
    /// the signature verifier itself is not part of this chain.
    pub open spec fn authority_static_error(&self, env: CallEnv, args: SetAuthority) -> Option<
        Error,
    > {
        if args.chain_id != env.chain_id {
            Some(Error::InvalidChainId)
        } else if args.new_admins@.len() == 0 {
            Some(Error::EmptyAdmins)
        } else if args.new_admins@.len() > MAX_ADMINS {
            Some(Error::TooManyAdmins)
        } else if exists|i: int, j: int|
            0 <= i < j < args.new_admins@.len() && args.new_admins@[i]@ == args.new_admins@[j]@ {
            Some(Error::DuplicateAdmin)
        } else if exists|i: int|
            0 <= i < args.new_admins@.len() && !key_valid(#[trigger] args.new_admins@[i]@) {
            Some(Error::InvalidAdminKey)
        } else if args.new_threshold > args.new_admins@.len() || args.new_admin_threshold
            > args.new_admins@.len() {
            Some(Error::ThresholdExceedsAdmins)
        } else if args.new_threshold == 0 || args.new_admin_threshold == 0 {
            Some(Error::ThresholdZero)
        } else if self.admin_threshold == 0 {
            Some(Error::ThresholdZero)
        } else if signers_have_dup(args.signers@) {
            Some(Error::DuplicateSigner)
        } else if args.signers@.len() < self.admin_threshold {
            Some(Error::ThresholdNotMet)
        } else if !signers_in_range(args.signers@, self.admins@.len() as int) {
            Some(Error::SignerNotFound)
        } else {
            None
        }
    }

    /// The rejection a time-parameter change gets from its static checks.
    pub open spec fn time_limits_static_error(&self, env: CallEnv, args: SetTimeLimits) -> Option<
        Error,
    > {
        if args.chain_id != env.chain_id {
            Some(Error::InvalidChainId)
        } else if args.proposal_ttl_blocks == 0 || args.replay_window_blocks == 0 {
            Some(Error::ZeroDuration)
        } else if self.admin_threshold == 0 {
            Some(Error::ThresholdZero)
        } else if signers_have_dup(args.signers@) {
            Some(Error::DuplicateSigner)
        } else if args.signers@.len() < self.admin_threshold {
            Some(Error::ThresholdNotMet)
        } else if !signers_in_range(args.signers@, self.admins@.len() as int) {
            Some(Error::SignerNotFound)
        } else {
            None
        }
    }

    /// Applies an authority change for a given signature-check outcome:
    /// after the static checks pass and with a positive outcome,
    /// swaps the admin set and both thresholds, bumps the nonce, and
    /// discards every pending proposal, reporting one removal record per
    /// discarded id. Tombstones are untouched.
    #[verifier::loop_isolation(false)]
    pub fn apply_authority_update(&mut self, env: &CallEnv, args: SetAuthority, sig_ok: bool) -> (r:
        Result<Outcome, Error>)
        requires
            old(self).wf(),
            old(self).admin_nonce < u64::MAX,
        ensures
            final(self).wf(),
            old(self).authority_static_error(*env, args) matches Some(e) ==> r == Err::<
                Outcome,
                Error,
            >(e) && *final(self) == *old(self),
            old(self).authority_static_error(*env, args) is None && !sig_ok ==> r == Err::<
                Outcome,
                Error,
            >(Error::InvalidSignature) && *final(self) == *old(self),
            old(self).authority_static_error(*env, args) is None && sig_ok ==> r is Ok,
            r is Ok ==> {
                &&& final(self).admins_view() == keys_view(args.new_admins@)
                &&& final(self).spec_confirmation_threshold() == args.new_threshold
                &&& final(self).spec_admin_threshold() == args.new_admin_threshold
                &&& final(self).spec_admin_nonce() == old(self).spec_admin_nonce() + 1
                &&& final(self).spec_proposal_ttl() == old(self).spec_proposal_ttl()
                &&& final(self).spec_tombstone_ttl() == old(self).spec_tombstone_ttl()
                &&& final(self).this_address == old(self).this_address
                &&& final(self).proposal_count() == 0
                &&& (forall|x: Seq<u8>| !final(self).has_proposal(x))
                &&& final(self).tombstones == old(self).tombstones
            },
            r matches Ok(o) ==> {
                &&& o.execute is None
                &&& o.events@.len() == 1 + old(self).proposal_count()
                &&& (o.events@[0] matches Event::AuthorityUpdated(u)
                    && keys_view(u.prev_admins@) == old(self).admins_view()
                    && u.prev_admin_threshold == old(self).spec_admin_threshold()
                    && u.prev_threshold == old(self).spec_confirmation_threshold()
                    && keys_view(u.new_admins@) == keys_view(args.new_admins@)
                    && u.new_admin_threshold == args.new_admin_threshold
                    && u.new_threshold == args.new_threshold)
                &&& (forall|i: int|
                    1 <= i < o.events@.len() ==> (#[trigger] o.events@[i] matches Event::Removed(
                        rid,
                    ) && rid@ == old(self).proposals.entries@[i - 1].id@))
            },
    {
        if args.chain_id != env.chain_id {
            return Err(Error::InvalidChainId);
        }
        match Self::check_admins(&args.new_admins) {
            Ok(()) => (),
            Err(e) => {
                return Err(e);
            },
        }
        if args.new_threshold as usize > args.new_admins.len() || args.new_admin_threshold
            as usize > args.new_admins.len() {
            return Err(Error::ThresholdExceedsAdmins);
        }
        if args.new_threshold == 0 || args.new_admin_threshold == 0 {
            return Err(Error::ThresholdZero);
        }
        match self.check_signers(self.admin_threshold, &args.signers) {
            Ok(_) => (),
            Err(e) => {
                return Err(e);
            },
        }
        if !sig_ok {
            return Err(Error::InvalidSignature);
        }
        proof {
            assert(self.initialized()) by {
                if !self.initialized() {
                    assert(self.admin_threshold == 0);
                }
            }
        }
        let prev_admin_threshold = self.admin_threshold;
        let prev_threshold = self.confirmation_threshold;
        let prev_admins = clone_keys(&self.admins);
        self.admins = clone_keys(&args.new_admins);
        self.admin_threshold = args.new_admin_threshold;
        self.confirmation_threshold = args.new_threshold;
        self.admin_nonce = self.admin_nonce + 1;
        let removed_ids = self.proposals.clear();
        let mut events: Vec<Event> = Vec::new();
        proof {
            assert(keys_view(prev_admins@) =~= old(self).admins_view());
            assert(keys_view(self.admins@) =~= keys_view(args.new_admins@));
        }
        events.push(
            Event::AuthorityUpdated(
                UpdateAuthority {
                    prev_admins,
                    prev_admin_threshold,
                    prev_threshold,
                    new_admins: args.new_admins,
                    new_admin_threshold: args.new_admin_threshold,
                    new_threshold: args.new_threshold,
                },
            ),
        );
        let mut i: usize = 0;
        while i < removed_ids.len()
            invariant
                i <= removed_ids@.len(),
                events@.len() == 1 + i,
                forall|k: int|
                    1 <= k < events@.len() ==> (#[trigger] events@[k] matches Event::Removed(rid)
                        && rid@ == old(self).proposals.entries@[k - 1].id@),
                (events@[0] matches Event::AuthorityUpdated(u)
                    && keys_view(u.prev_admins@) == old(self).admins_view()
                    && u.prev_admin_threshold == old(self).spec_admin_threshold()
                    && u.prev_threshold == old(self).spec_confirmation_threshold()
                    && keys_view(u.new_admins@) == keys_view(args.new_admins@)
                    && u.new_admin_threshold == args.new_admin_threshold
                    && u.new_threshold == args.new_threshold),
            decreases removed_ids@.len() - i,
        {
            events.push(Event::Removed(removed_ids[i]));
            i += 1;
        }
        proof {
            assert forall|x: Seq<u8>| !final(self).has_proposal(x) by {}
        }
        Ok(Outcome { events, execute: None })
    }

    /// Changes the admin set and both thresholds, authorized by an
    /// aggregated signature of the *current* admins over the canonical
    /// authority message built from the current nonce. On success all
    /// pending proposals are discarded, with one removal record each;
    /// tombstones survive.
    pub fn set_authority(&mut self, env: &CallEnv, args: SetAuthority) -> (r: Result<
        Outcome,
        Error,
    >)
        requires
            old(self).wf(),
            old(self).admin_nonce < u64::MAX,
        ensures
            final(self).wf(),
            old(self).authority_static_error(*env, args) matches Some(e) ==> r == Err::<
                Outcome,
                Error,
            >(e) && *final(self) == *old(self),
            r == Err::<Outcome, Error>(Error::InvalidSignature) ==> *final(self) == *old(self),
            r is Ok <==> (old(self).authority_static_error(*env, args) is None && sig_verdict(
                spec_authority_message(
                    args.chain_id,
                    old(self).admin_nonce,
                    old(self).this_address@,
                    args.new_admin_threshold,
                    args.new_threshold,
                    keys_view(args.new_admins@),
                ),
                resolved_keys(old(self).admins_view(), args.signers@),
                args.sig@,
            )),
            r == Err::<Outcome, Error>(Error::InvalidSignature) <==> (old(
                self,
            ).authority_static_error(*env, args) is None && !sig_verdict(
                spec_authority_message(
                    args.chain_id,
                    old(self).admin_nonce,
                    old(self).this_address@,
                    args.new_admin_threshold,
                    args.new_threshold,
                    keys_view(args.new_admins@),
                ),
                resolved_keys(old(self).admins_view(), args.signers@),
                args.sig@,
            )),
            r is Ok ==> {
                &&& final(self).admins_view() == keys_view(args.new_admins@)
                &&& final(self).spec_confirmation_threshold() == args.new_threshold
                &&& final(self).spec_admin_threshold() == args.new_admin_threshold
                &&& final(self).spec_admin_nonce() == old(self).spec_admin_nonce() + 1
                &&& final(self).spec_proposal_ttl() == old(self).spec_proposal_ttl()
                &&& final(self).spec_tombstone_ttl() == old(self).spec_tombstone_ttl()
                &&& final(self).this_address == old(self).this_address
                &&& final(self).proposal_count() == 0
                &&& (forall|x: Seq<u8>| !final(self).has_proposal(x))
                &&& final(self).tombstones == old(self).tombstones
            },
            r matches Ok(o) ==> {
                &&& o.execute is None
                &&& o.events@.len() == 1 + old(self).proposal_count()
                &&& (o.events@[0] matches Event::AuthorityUpdated(u)
                    && keys_view(u.prev_admins@) == old(self).admins_view()
                    && u.prev_admin_threshold == old(self).spec_admin_threshold()
                    && u.prev_threshold == old(self).spec_confirmation_threshold()
                    && keys_view(u.new_admins@) == keys_view(args.new_admins@)
                    && u.new_admin_threshold == args.new_admin_threshold
                    && u.new_threshold == args.new_threshold)
                &&& (forall|i: int|
                    1 <= i < o.events@.len() ==> (#[trigger] o.events@[i] matches Event::Removed(
                        rid,
                    ) && rid@ == old(self).proposals.entries@[i - 1].id@))
            },
    {
        if args.chain_id != env.chain_id {
            return Err(Error::InvalidChainId);
        }
        match Self::check_admins(&args.new_admins) {
            Ok(()) => (),
            Err(e) => {
                return Err(e);
            },
        }
        if args.new_threshold as usize > args.new_admins.len() || args.new_admin_threshold
            as usize > args.new_admins.len() {
            return Err(Error::ThresholdExceedsAdmins);
        }
        if args.new_threshold == 0 || args.new_admin_threshold == 0 {
            return Err(Error::ThresholdZero);
        }
        let msg = SetAuthority::signature_message(
            args.chain_id,
            self.admin_nonce,
            &self.this_address,
            args.new_admin_threshold,
            args.new_threshold,
            &args.new_admins,
        );
        match self.verify_sig(self.admin_threshold, msg, &args.sig, &args.signers) {
            Ok(()) => self.apply_authority_update(env, args, true),
            Err(e) => Err(e),
        }
    }

    /// Applies a time-parameter change for a given signature-check
    /// outcome: with the static checks passed and a positive outcome,
    /// swaps both durations and bumps the nonce. Existing proposals and
    /// tombstones keep their already-computed deadlines.
    pub fn apply_time_limits_update(
        &mut self,
        env: &CallEnv,
        args: SetTimeLimits,
        sig_ok: bool,
    ) -> (r: Result<Outcome, Error>)
        requires
            old(self).wf(),
            old(self).admin_nonce < u64::MAX,
        ensures
            final(self).wf(),
            old(self).time_limits_static_error(*env, args) matches Some(e) ==> r == Err::<
                Outcome,
                Error,
            >(e) && *final(self) == *old(self),
            old(self).time_limits_static_error(*env, args) is None && !sig_ok ==> r == Err::<
                Outcome,
                Error,
            >(Error::InvalidSignature) && *final(self) == *old(self),
            old(self).time_limits_static_error(*env, args) is None && sig_ok ==> r is Ok,
            r is Ok ==> {
                &&& final(self).spec_proposal_ttl() == args.proposal_ttl_blocks
                &&& final(self).spec_tombstone_ttl() == args.replay_window_blocks
                &&& final(self).spec_admin_nonce() == old(self).spec_admin_nonce() + 1
                &&& final(self).admins@ == old(self).admins@
                &&& final(self).spec_confirmation_threshold() == old(
                    self,
                ).spec_confirmation_threshold()
                &&& final(self).spec_admin_threshold() == old(self).spec_admin_threshold()
                &&& final(self).this_address == old(self).this_address
                &&& final(self).proposals == old(self).proposals
                &&& final(self).tombstones == old(self).tombstones
            },
            r matches Ok(o) ==> {
                &&& o.execute is None
                &&& o.events@.len() == 1
                &&& (o.events@[0] matches Event::TimeLimitsUpdated(u)
                    && u.prev_proposal_ttl_blocks == old(self).spec_proposal_ttl()
                    && u.prev_replay_window_blocks == old(self).spec_tombstone_ttl()
                    && u.proposal_ttl_blocks == args.proposal_ttl_blocks
                    && u.replay_window_blocks == args.replay_window_blocks)
            },
    {
        if args.chain_id != env.chain_id {
            return Err(Error::InvalidChainId);
        }
        if args.proposal_ttl_blocks == 0 || args.replay_window_blocks == 0 {
            return Err(Error::ZeroDuration);
        }
        match self.check_signers(self.admin_threshold, &args.signers) {
            Ok(_) => (),
            Err(e) => {
                return Err(e);
            },
        }
        if !sig_ok {
            return Err(Error::InvalidSignature);
        }
        proof {
            assert(self.initialized()) by {
                if !self.initialized() {
                    assert(self.admin_threshold == 0);
                }
            }
        }
        let prev_proposal_ttl_blocks = self.proposal_ttl;
        let prev_replay_window_blocks = self.tombstone_ttl;
        self.proposal_ttl = args.proposal_ttl_blocks;
        self.tombstone_ttl = args.replay_window_blocks;
        self.admin_nonce = self.admin_nonce + 1;
        let mut events: Vec<Event> = Vec::new();
        events.push(
            Event::TimeLimitsUpdated(
                UpdateTimeLimits {
                    prev_proposal_ttl_blocks,
                    prev_replay_window_blocks,
                    proposal_ttl_blocks: args.proposal_ttl_blocks,
                    replay_window_blocks: args.replay_window_blocks,
                },
            ),
        );
        Ok(Outcome { events, execute: None })
    }

    /// Changes the proposal TTL and the replay window, authorized by an
    /// aggregated signature of the current admins over the canonical
    /// time-parameter message built from the current nonce.
    pub fn set_time_limits(&mut self, env: &CallEnv, args: SetTimeLimits) -> (r: Result<
        Outcome,
        Error,
    >)
        requires
            old(self).wf(),
            old(self).admin_nonce < u64::MAX,
        ensures
            final(self).wf(),
            old(self).time_limits_static_error(*env, args) matches Some(e) ==> r == Err::<
                Outcome,
                Error,
            >(e) && *final(self) == *old(self),
            r == Err::<Outcome, Error>(Error::InvalidSignature) ==> *final(self) == *old(self),
            r is Ok <==> (old(self).time_limits_static_error(*env, args) is None && sig_verdict(
                spec_time_limits_message(
                    args.chain_id,
                    old(self).admin_nonce,
                    old(self).this_address@,
                    args.proposal_ttl_blocks,
                    args.replay_window_blocks,
                ),
                resolved_keys(old(self).admins_view(), args.signers@),
                args.sig@,
            )),
            r == Err::<Outcome, Error>(Error::InvalidSignature) <==> (old(
                self,
            ).time_limits_static_error(*env, args) is None && !sig_verdict(
                spec_time_limits_message(
                    args.chain_id,
                    old(self).admin_nonce,
                    old(self).this_address@,
                    args.proposal_ttl_blocks,
                    args.replay_window_blocks,
                ),
                resolved_keys(old(self).admins_view(), args.signers@),
                args.sig@,
            )),
            r is Ok ==> {
                &&& final(self).spec_proposal_ttl() == args.proposal_ttl_blocks
                &&& final(self).spec_tombstone_ttl() == args.replay_window_blocks
                &&& final(self).spec_admin_nonce() == old(self).spec_admin_nonce() + 1
                &&& final(self).admins@ == old(self).admins@
                &&& final(self).spec_confirmation_threshold() == old(
                    self,
                ).spec_confirmation_threshold()
                &&& final(self).spec_admin_threshold() == old(self).spec_admin_threshold()
                &&& final(self).this_address == old(self).this_address
                &&& final(self).proposals == old(self).proposals
                &&& final(self).tombstones == old(self).tombstones
            },
            r matches Ok(o) ==> {
                &&& o.execute is None
                &&& o.events@.len() == 1
                &&& (o.events@[0] matches Event::TimeLimitsUpdated(u)
                    && u.prev_proposal_ttl_blocks == old(self).spec_proposal_ttl()
                    && u.prev_replay_window_blocks == old(self).spec_tombstone_ttl()
                    && u.proposal_ttl_blocks == args.proposal_ttl_blocks
                    && u.replay_window_blocks == args.replay_window_blocks)
            },
    {
        if args.chain_id != env.chain_id {
            return Err(Error::InvalidChainId);
        }
        if args.proposal_ttl_blocks == 0 || args.replay_window_blocks == 0 {
            return Err(Error::ZeroDuration);
        }
        let msg = SetTimeLimits::signature_message(
            args.chain_id,
            self.admin_nonce,
            &self.this_address,
            args.proposal_ttl_blocks,
            args.replay_window_blocks,
        );
        match self.verify_sig(self.admin_threshold, msg, &args.sig, &args.signers) {
            Ok(()) => self.apply_time_limits_update(env, args, true),
            Err(e) => Err(e),
        }
    }

    /// The pending proposal under the given id, if any.
    pub fn proposal(&self, id: OpId) -> (r: Option<Operation>)
        requires
            self.wf(),
        ensures
            r is Some <==> self.has_proposal(id@),
            r matches Some(op) ==> op@ == self.proposal_op(id@)@,
    {
        match self.proposals.find(&id) {
            Some(i) => {
                proof {
                    crate::registry::lemma_entry_index_unique(
                        self.proposals.entries@,
                        id@,
                        i as int,
                    );
                }
                Some(self.proposals.entries[i].val.clone())
            },
            None => None,
        }
    }

    /// All pending proposals, in registry order.
    #[verifier::loop_isolation(false)]
    pub fn feed_proposals(&self) -> (r: Vec<(OpId, Operation)>)
        ensures
            r@.len() == self.proposal_count(),
            forall|i: int|
                0 <= i < r@.len() ==> (#[trigger] r@[i]).0@ == self.proposals.entries@[i].id@
                    && r@[i].1@ == self.proposals.entries@[i].val@,
    {
        let mut r: Vec<(OpId, Operation)> = Vec::new();
        let mut i: usize = 0;
        while i < self.proposals.entries.len()
            invariant
                i <= self.proposals.entries@.len(),
                r@.len() == i,
                forall|k: int|
                    0 <= k < i ==> (#[trigger] r@[k]).0@ == self.proposals.entries@[k].id@
                        && r@[k].1@ == self.proposals.entries@[k].val@,
            decreases self.proposals.entries@.len() - i,
        {
            let e = &self.proposals.entries[i];
            r.push((e.id, e.val.clone()));
            i += 1;
        }
        r
    }

    /// All tombstones with their expiry heights, in registry order.
    #[verifier::loop_isolation(false)]
    pub fn feed_tombstones(&self) -> (r: Vec<(OpId, u64)>)
        ensures
            r@.len() == self.tombstone_count(),
            forall|i: int|
                0 <= i < r@.len() ==> (#[trigger] r@[i]).0@ == self.tombstones.entries@[i].id@
                    && r@[i].1 == self.tombstones.entries@[i].height,
    {
        let mut r: Vec<(OpId, u64)> = Vec::new();
        let mut i: usize = 0;
        while i < self.tombstones.entries.len()
            invariant
                i <= self.tombstones.entries@.len(),
                r@.len() == i,
                forall|k: int|
                    0 <= k < i ==> (#[trigger] r@[k]).0@ == self.tombstones.entries@[k].id@
                        && r@[k].1 == self.tombstones.entries@[k].height,
            decreases self.tombstones.entries@.len() - i,
        {
            let e = &self.tombstones.entries[i];
            r.push((e.id, e.height));
            i += 1;
        }
        r
    }
}

/// Composes one accepted create-or-merge call out of its steps: pruning
/// both structures, optionally taking out the pending entry of `id`,
/// putting in the entry `en` for `id`, and the execution attempt. Relates
/// the final state to the one before the call.
#[verifier::rlimit(80)]
proof fn lemma_settle_glue(
    orig: MultiSigV2,
    pruned: MultiSigV2,
    mid: MultiSigV2,
    before_try: MultiSigV2,
    fin: MultiSigV2,
    id: Seq<u8>,
    en: crate::registry::Entry<Operation>,
    now: u64,
    removed_one: bool,
    executed: bool,
)
    requires
        pruned.wf(),
        forall|x: Seq<u8>|
            #[trigger] pruned.proposals.has(x) <==> orig.proposals.has(x) && !orig.prop_removed(
                now,
            ).contains(x),
        forall|x: Seq<u8>|
            #[trigger] pruned.proposals.has(x) ==> entry_of(pruned.proposals.entries@, x)
                == entry_of(orig.proposals.entries@, x),
        forall|x: Seq<u8>|
            #[trigger] pruned.tombstones.has(x) <==> orig.tombstones.has(x)
                && !orig.tomb_removed(now).contains(x),
        forall|x: Seq<u8>|
            #[trigger] pruned.tombstones.has(x) ==> entry_of(pruned.tombstones.entries@, x)
                == entry_of(orig.tombstones.entries@, x),
        removed_one ==> pruned.has_proposal(id) && mid.proposals.entries@
            == pruned.proposals.entries@.remove(
            crate::registry::entry_index_of(pruned.proposals.entries@, id),
        ),
        !removed_one ==> mid == pruned && !pruned.has_proposal(id),
        !pruned.has_tombstone(id),
        mid.tombstones == pruned.tombstones,
        en.id@ == id,
        before_try.proposals.entries@ == mid.proposals.entries@.push(en),
        before_try.tombstones == mid.tombstones,
        before_try.tombstone_ttl == orig.tombstone_ttl,
        !executed ==> fin == before_try,
        executed ==> {
            &&& !fin.has_proposal(id)
            &&& (forall|x: Seq<u8>|
                x != id ==> (#[trigger] fin.has_proposal(x) <==> before_try.has_proposal(x)))
            &&& (forall|x: Seq<u8>|
                x != id && #[trigger] fin.has_proposal(x) ==> fin.proposal_op(x)
                    == before_try.proposal_op(x) && fin.proposal_deadline(x)
                    == before_try.proposal_deadline(x))
            &&& (forall|x: Seq<u8>|
                #[trigger] fin.has_tombstone(x) ==> before_try.has_tombstone(x) || x == id)
            &&& (forall|x: Seq<u8>|
                #[trigger] before_try.has_tombstone(x) ==> fin.has_tombstone(x))
            &&& fin.has_tombstone(id)
            &&& fin.tombstone_expiry(id) == now + orig.tombstone_ttl
            &&& (forall|x: Seq<u8>|
                x != id && #[trigger] fin.has_tombstone(x) ==> fin.tombstone_expiry(x)
                    == before_try.tombstone_expiry(x))
        },
    ensures
        forall|x: Seq<u8>|
            x != id ==> (#[trigger] fin.has_proposal(x) <==> orig.has_proposal(x)
                && !orig.prop_removed(now).contains(x)),
        forall|x: Seq<u8>|
            x != id && fin.has_proposal(x) ==> #[trigger] fin.proposal_op(x) == orig.proposal_op(
                x,
            ) && fin.proposal_deadline(x) == orig.proposal_deadline(x),
        forall|x: Seq<u8>|
            #[trigger] fin.has_tombstone(x) <==> ((orig.has_tombstone(x) && !orig.tomb_removed(
                now,
            ).contains(x)) || (executed && x == id)),
        forall|x: Seq<u8>|
            x != id && fin.has_tombstone(x) ==> #[trigger] fin.tombstone_expiry(x)
                == orig.tombstone_expiry(x),
        executed ==> fin.tombstone_expiry(id) == now + orig.tombstone_ttl && !fin.has_proposal(
            id,
        ),
        !executed ==> fin.has_proposal(id) && fin.proposal_op(id) == en.val
            && fin.proposal_deadline(id) == en.height,
{
    if removed_one {
        let k = crate::registry::entry_index_of(pruned.proposals.entries@, id);
        let w = choose|w: int|
            0 <= w < pruned.proposals.entries@.len() && pruned.proposals.entries@[w].id@ == id;
        crate::registry::lemma_entry_index_unique(pruned.proposals.entries@, id, w);
        crate::registry::lemma_entries_remove(pruned.proposals.entries@, k);
    }
    assert(crate::registry::entries_distinct(mid.proposals.entries@));
    assert(!entries_has(mid.proposals.entries@, id));
    crate::registry::lemma_entries_push(mid.proposals.entries@, en);
    assert(before_try.has_proposal(id)) by {
        assert(entries_has(mid.proposals.entries@.push(en), en.id@)) by {
            assert(mid.proposals.entries@.push(en)[mid.proposals.entries@.len() as int].id@
                == en.id@);
        }
    }
    assert(before_try.proposal_op(id) == en.val && before_try.proposal_deadline(id)
        == en.height) by {
        assert(entry_of(before_try.proposals.entries@, id) == en);
    }
    assert forall|x: Seq<u8>|
        x != id implies (#[trigger] fin.has_proposal(x) <==> orig.has_proposal(x)
        && !orig.prop_removed(now).contains(x)) by {
        assert(fin.has_proposal(x) <==> before_try.has_proposal(x));
        assert(before_try.has_proposal(x) <==> entries_has(mid.proposals.entries@, x));
        assert(entries_has(mid.proposals.entries@, x) <==> pruned.proposals.has(x));
        assert(pruned.proposals.has(x) <==> orig.proposals.has(x) && !orig.prop_removed(
            now,
        ).contains(x));
    }
    assert forall|x: Seq<u8>|
        x != id && fin.has_proposal(x) implies #[trigger] fin.proposal_op(x)
        == orig.proposal_op(x) && fin.proposal_deadline(x) == orig.proposal_deadline(x) by {
        if executed {
            assert(fin.has_proposal(x) <==> before_try.has_proposal(x));
            assert(fin.proposal_op(x) == before_try.proposal_op(x) && fin.proposal_deadline(x)
                == before_try.proposal_deadline(x));
        } else {
            assert(fin == before_try);
        }
        assert(entry_of(before_try.proposals.entries@, x) == entry_of(
            mid.proposals.entries@,
            x,
        )) by {
            assert(fin.has_proposal(x) <==> before_try.has_proposal(x));
            assert(before_try.has_proposal(x));
            assert(entries_has(mid.proposals.entries@, x));
        }
        assert(entries_has(pruned.proposals.entries@, x)) by {
            assert(entries_has(mid.proposals.entries@, x) <==> pruned.proposals.has(x));
        }
        if removed_one {
            let k = crate::registry::entry_index_of(pruned.proposals.entries@, id);
            assert(pruned.proposals.entries@[k].id@ == id);
            assert(mid.proposals.entries@ == pruned.proposals.entries@.remove(k));
            assert(entry_of(pruned.proposals.entries@.remove(k), x) == entry_of(
                pruned.proposals.entries@,
                x,
            ));
        }
        assert(entry_of(mid.proposals.entries@, x) == entry_of(pruned.proposals.entries@, x));
        assert(pruned.proposals.has(x));
        assert(entry_of(pruned.proposals.entries@, x) == entry_of(orig.proposals.entries@, x));
    }
    assert forall|x: Seq<u8>|
        #[trigger] fin.has_tombstone(x) <==> ((orig.has_tombstone(x) && !orig.tomb_removed(
        now,
    ).contains(x)) || (executed && x == id)) by {
        if executed {
            assert(fin.has_tombstone(x) <==> before_try.has_tombstone(x) || x == id);
        } else {
            assert(fin.has_tombstone(x) <==> before_try.has_tombstone(x));
        }
        assert(before_try.has_tombstone(x) <==> pruned.tombstones.has(x));
        assert(pruned.tombstones.has(x) <==> orig.tombstones.has(x) && !orig.tomb_removed(
            now,
        ).contains(x));
        if x == id {
            assert(!pruned.tombstones.has(id));
        }
    }
    assert forall|x: Seq<u8>|
        x != id && fin.has_tombstone(x) implies #[trigger] fin.tombstone_expiry(x)
        == orig.tombstone_expiry(x) by {
        assert(fin.tombstone_expiry(x) == before_try.tombstone_expiry(x)) by {
            if !executed {
            }
        }
        assert(before_try.has_tombstone(x)) by {
            if executed {
                assert(fin.has_tombstone(x) <==> before_try.has_tombstone(x) || x == id);
            }
        }
        assert(pruned.tombstones.has(x));
        assert(entry_of(pruned.tombstones.entries@, x) == entry_of(
            orig.tombstones.entries@,
            x,
        ));
    }
    if !executed {
        assert(fin.has_proposal(id) && fin.proposal_op(id) == en.val && fin.proposal_deadline(
            id,
        ) == en.height);
    }
}

/// Relates the state right after the two pruning passes to the state
/// before the call, in the vocabulary of the entry points' contracts.
proof fn lemma_noop_glue(orig: MultiSigV2, pruned: MultiSigV2, now: u64)
    requires
        forall|x: Seq<u8>|
            #[trigger] pruned.proposals.has(x) <==> orig.proposals.has(x) && !orig.prop_removed(
                now,
            ).contains(x),
        forall|x: Seq<u8>|
            #[trigger] pruned.proposals.has(x) ==> entry_of(pruned.proposals.entries@, x)
                == entry_of(orig.proposals.entries@, x),
        forall|x: Seq<u8>|
            #[trigger] pruned.tombstones.has(x) <==> orig.tombstones.has(x)
                && !orig.tomb_removed(now).contains(x),
        forall|x: Seq<u8>|
            #[trigger] pruned.tombstones.has(x) ==> entry_of(pruned.tombstones.entries@, x)
                == entry_of(orig.tombstones.entries@, x),
    ensures
        forall|x: Seq<u8>|
            #[trigger] pruned.has_proposal(x) <==> orig.has_proposal(x) && !orig.prop_removed(
                now,
            ).contains(x),
        forall|x: Seq<u8>|
            pruned.has_proposal(x) ==> #[trigger] pruned.proposal_op(x) == orig.proposal_op(x)
                && pruned.proposal_deadline(x) == orig.proposal_deadline(x),
        forall|x: Seq<u8>|
            #[trigger] pruned.has_tombstone(x) <==> orig.has_tombstone(x) && !orig.tomb_removed(
                now,
            ).contains(x),
        forall|x: Seq<u8>|
            pruned.has_tombstone(x) ==> #[trigger] pruned.tombstone_expiry(x)
                == orig.tombstone_expiry(x),
{
    assert forall|x: Seq<u8>|
        pruned.has_proposal(x) implies #[trigger] pruned.proposal_op(x) == orig.proposal_op(x)
        && pruned.proposal_deadline(x) == orig.proposal_deadline(x) by {
        assert(pruned.proposals.has(x));
        assert(entry_of(pruned.proposals.entries@, x) == entry_of(orig.proposals.entries@, x));
    }
    assert forall|x: Seq<u8>|
        pruned.has_tombstone(x) implies #[trigger] pruned.tombstone_expiry(x)
        == orig.tombstone_expiry(x) by {
        assert(pruned.tombstones.has(x));
        assert(entry_of(pruned.tombstones.entries@, x) == entry_of(
            orig.tombstones.entries@,
            x,
        ));
    }
}

/// Composes an accepted confirm whose caller had already confirmed: only
/// the pruning passes and the execution attempt touch the state.
proof fn lemma_already_glue(
    orig: MultiSigV2,
    pruned: MultiSigV2,
    before_try: MultiSigV2,
    fin: MultiSigV2,
    id: Seq<u8>,
    now: u64,
    executed: bool,
)
    requires
        pruned.wf(),
        forall|x: Seq<u8>|
            #[trigger] pruned.proposals.has(x) <==> orig.proposals.has(x) && !orig.prop_removed(
                now,
            ).contains(x),
        forall|x: Seq<u8>|
            #[trigger] pruned.proposals.has(x) ==> entry_of(pruned.proposals.entries@, x)
                == entry_of(orig.proposals.entries@, x),
        forall|x: Seq<u8>|
            #[trigger] pruned.tombstones.has(x) <==> orig.tombstones.has(x)
                && !orig.tomb_removed(now).contains(x),
        forall|x: Seq<u8>|
            #[trigger] pruned.tombstones.has(x) ==> entry_of(pruned.tombstones.entries@, x)
                == entry_of(orig.tombstones.entries@, x),
        pruned.has_proposal(id),
        !pruned.has_tombstone(id),
        before_try == pruned,
        before_try.tombstone_ttl == orig.tombstone_ttl,
        executed == (before_try.proposal_op(id)@.approvals.len()
            >= before_try.confirmation_threshold as int),
        !executed ==> fin == before_try,
        executed ==> {
            &&& !fin.has_proposal(id)
            &&& (forall|x: Seq<u8>|
                x != id ==> (#[trigger] fin.has_proposal(x) <==> before_try.has_proposal(x)))
            &&& (forall|x: Seq<u8>|
                x != id && #[trigger] fin.has_proposal(x) ==> fin.proposal_op(x)
                    == before_try.proposal_op(x) && fin.proposal_deadline(x)
                    == before_try.proposal_deadline(x))
            &&& (forall|x: Seq<u8>|
                #[trigger] fin.has_tombstone(x) ==> before_try.has_tombstone(x) || x == id)
            &&& (forall|x: Seq<u8>|
                #[trigger] before_try.has_tombstone(x) ==> fin.has_tombstone(x))
            &&& fin.has_tombstone(id)
            &&& fin.tombstone_expiry(id) == now + orig.tombstone_ttl
            &&& (forall|x: Seq<u8>|
                x != id && #[trigger] fin.has_tombstone(x) ==> fin.tombstone_expiry(x)
                    == before_try.tombstone_expiry(x))
        },
    ensures
        forall|x: Seq<u8>|
            x != id ==> (#[trigger] fin.has_proposal(x) <==> orig.has_proposal(x)
                && !orig.prop_removed(now).contains(x)),
        forall|x: Seq<u8>|
            x != id && fin.has_proposal(x) ==> #[trigger] fin.proposal_op(x) == orig.proposal_op(
                x,
            ) && fin.proposal_deadline(x) == orig.proposal_deadline(x),
        forall|x: Seq<u8>|
            #[trigger] fin.has_tombstone(x) <==> ((orig.has_tombstone(x) && !orig.tomb_removed(
                now,
            ).contains(x)) || (executed && x == id)),
        forall|x: Seq<u8>|
            x != id && fin.has_tombstone(x) ==> #[trigger] fin.tombstone_expiry(x)
                == orig.tombstone_expiry(x),
        executed ==> fin.tombstone_expiry(id) == now + orig.tombstone_ttl && !fin.has_proposal(
            id,
        ),
        !executed ==> fin.has_proposal(id) && fin.proposal_op(id) == orig.proposal_op(id)
            && fin.proposal_deadline(id) == orig.proposal_deadline(id),
{
    assert forall|x: Seq<u8>|
        x != id implies (#[trigger] fin.has_proposal(x) <==> orig.has_proposal(x)
        && !orig.prop_removed(now).contains(x)) by {
        assert(fin.has_proposal(x) <==> before_try.has_proposal(x));
        assert(pruned.proposals.has(x) <==> orig.proposals.has(x) && !orig.prop_removed(
            now,
        ).contains(x));
    }
    assert forall|x: Seq<u8>|
        x != id && fin.has_proposal(x) implies #[trigger] fin.proposal_op(x)
        == orig.proposal_op(x) && fin.proposal_deadline(x) == orig.proposal_deadline(x) by {
        assert(fin.proposal_op(x) == before_try.proposal_op(x) && fin.proposal_deadline(x)
            == before_try.proposal_deadline(x));
        assert(pruned.proposals.has(x));
        assert(entry_of(pruned.proposals.entries@, x) == entry_of(orig.proposals.entries@, x));
    }
    assert forall|x: Seq<u8>|
        #[trigger] fin.has_tombstone(x) <==> ((orig.has_tombstone(x) && !orig.tomb_removed(
        now,
    ).contains(x)) || (executed && x == id)) by {
        if executed {
            assert(fin.has_tombstone(x) <==> before_try.has_tombstone(x) || x == id);
        } else {
            assert(fin.has_tombstone(x) <==> before_try.has_tombstone(x));
        }
        assert(pruned.tombstones.has(x) <==> orig.tombstones.has(x) && !orig.tomb_removed(
            now,
        ).contains(x));
        if x == id {
            assert(!pruned.tombstones.has(id));
        }
    }
    assert forall|x: Seq<u8>|
        x != id && fin.has_tombstone(x) implies #[trigger] fin.tombstone_expiry(x)
        == orig.tombstone_expiry(x) by {
        assert(before_try.has_tombstone(x)) by {
            if executed {
                assert(fin.has_tombstone(x) <==> before_try.has_tombstone(x) || x == id);
            }
        }
        assert(pruned.tombstones.has(x));
        assert(entry_of(pruned.tombstones.entries@, x) == entry_of(
            orig.tombstones.entries@,
            x,
        ));
    }
    if !executed {
        assert(pruned.proposals.has(id));
        assert(entry_of(pruned.proposals.entries@, id) == entry_of(
            orig.proposals.entries@,
            id,
        ));
    }
}

/// The state invariant survives thinning: when both registries keep only
/// entries they already had, unchanged, under the same configuration, the
/// state-level conjuncts carry over.
proof fn lemma_wf_after_thinning(orig: MultiSigV2, cur: MultiSigV2)
    requires
        orig.wf(),
        cur.proposals.wf(),
        cur.tombstones.wf(),
        cur.admins == orig.admins,
        cur.confirmation_threshold == orig.confirmation_threshold,
        cur.admin_threshold == orig.admin_threshold,
        cur.proposal_ttl == orig.proposal_ttl,
        cur.tombstone_ttl == orig.tombstone_ttl,
        forall|x: Seq<u8>|
            #[trigger] entries_has(cur.proposals.entries@, x) ==> entries_has(
                orig.proposals.entries@,
                x,
            ) && entry_of(cur.proposals.entries@, x) == entry_of(orig.proposals.entries@, x),
        forall|x: Seq<u8>|
            #[trigger] entries_has(cur.tombstones.entries@, x) ==> entries_has(
                orig.tombstones.entries@,
                x,
            ),
    ensures
        cur.wf(),
{
    assert forall|i: int|
        0 <= i < cur.proposals.entries@.len() implies (#[trigger] cur.proposals.entries@[i]).val.deadline
        == cur.proposals.entries@[i].height && approvals_distinct(
        cur.proposals.entries@[i].val,
    ) by {
        let e = cur.proposals.entries@[i];
        assert(entries_has(cur.proposals.entries@, e.id@)) by {
            assert(cur.proposals.entries@[i].id@ == e.id@);
        }
        crate::registry::lemma_entry_index_unique(cur.proposals.entries@, e.id@, i);
        let k = choose|k: int|
            0 <= k < orig.proposals.entries@.len() && orig.proposals.entries@[k].id@ == e.id@;
        crate::registry::lemma_entry_index_unique(orig.proposals.entries@, e.id@, k);
        assert(orig.proposals.entries@[k] == e);
    }
    assert forall|x: Seq<u8>|
        #[trigger] entries_has(cur.proposals.entries@, x) implies !entries_has(
        cur.tombstones.entries@,
        x,
    ) by {
        assert(entries_has(orig.proposals.entries@, x));
        if entries_has(cur.tombstones.entries@, x) {
            assert(entries_has(orig.tombstones.entries@, x));
        }
    }
}

/// The state invariant survives appending one sound proposal entry for an
/// id that is neither pending nor tombstoned.
proof fn lemma_wf_after_add(
    base: MultiSigV2,
    cur: MultiSigV2,
    en: crate::registry::Entry<Operation>,
)
    requires
        base.wf(),
        cur.proposals.wf(),
        cur.tombstones == base.tombstones,
        cur.admins == base.admins,
        cur.confirmation_threshold == base.confirmation_threshold,
        cur.admin_threshold == base.admin_threshold,
        cur.proposal_ttl == base.proposal_ttl,
        cur.tombstone_ttl == base.tombstone_ttl,
        cur.proposals.entries@ == base.proposals.entries@.push(en),
        en.val.deadline == en.height,
        approvals_distinct(en.val),
        !entries_has(base.tombstones.entries@, en.id@),
    ensures
        cur.wf(),
{
    let n = base.proposals.entries@.len() as int;
    assert forall|i: int|
        0 <= i < cur.proposals.entries@.len() implies (#[trigger] cur.proposals.entries@[i]).val.deadline
        == cur.proposals.entries@[i].height && approvals_distinct(
        cur.proposals.entries@[i].val,
    ) by {
        if i < n {
            assert(cur.proposals.entries@[i] == base.proposals.entries@[i]);
        } else {
            assert(cur.proposals.entries@[i] == en);
        }
    }
    assert forall|x: Seq<u8>|
        #[trigger] entries_has(cur.proposals.entries@, x) implies !entries_has(
        cur.tombstones.entries@,
        x,
    ) by {
        let i = choose|i: int|
            0 <= i < cur.proposals.entries@.len() && cur.proposals.entries@[i].id@ == x;
        if i < n {
            assert(entries_has(base.proposals.entries@, x)) by {
                assert(base.proposals.entries@[i].id@ == x);
            }
        } else {
            assert(x == en.id@);
        }
    }
}

/// The approving keys of an operation are pairwise distinct.
pub open spec fn approvals_distinct(op: Operation) -> bool {
    forall|i: int, j: int|
        0 <= i < j < op.approvals@.len() ==> #[trigger] op.approvals@[i]@ != #[trigger] op.approvals@[j]@
}

} // verus!
