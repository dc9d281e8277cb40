//! Laws of the multisig state machine that relate several operations,
//! proved once and for all from the contracts in [`crate::state`].

use vstd::prelude::*;

use vstd::seq_lib::lemma_multiset_commutative;

use crate::state::{CallEnv, MultiSigV2};

verus! {

/// The approvals gathered for an operation do not depend on the order of
/// the confirmations. Each accepted confirmation appends its caller's key
/// (see the `propose` and `confirm` contracts), so after a fixed set of
/// distinct confirmers has been merged, in whatever order, the approval
/// list holds the same keys and the same number of them — hence whether
/// the live threshold is met is order-independent, and only which call
/// happens to trigger the execution can differ.
pub proof fn lemma_confirmation_order_irrelevant(
    base: Seq<Seq<u8>>,
    first_order: Seq<Seq<u8>>,
    second_order: Seq<Seq<u8>>,
)
    requires
        first_order.to_multiset() == second_order.to_multiset(),
    ensures
        (base + first_order).len() == (base + second_order).len(),
        forall|x: Seq<u8>|
            #[trigger] (base + first_order).contains(x) <==> (base + second_order).contains(x),
{
    lemma_multiset_commutative(base, first_order);
    lemma_multiset_commutative(base, second_order);
    first_order.to_multiset_ensures();
    second_order.to_multiset_ensures();
    (base + first_order).to_multiset_ensures();
    (base + second_order).to_multiset_ensures();
    assert((base + first_order).to_multiset() =~= (base + second_order).to_multiset());
    assert forall|x: Seq<u8>|
        #[trigger] (base + first_order).contains(x) <==> (base + second_order).contains(x) by {
        assert((base + first_order).contains(x) <==> (base + first_order).to_multiset().count(x)
            > 0);
        assert((base + second_order).contains(x) <==> (base + second_order).to_multiset().count(
            x,
        ) > 0);
    }
}

/// An executed operation cannot start over before its replay window ends:
/// while the tombstone of `id` has not expired, a `propose` or `confirm`
/// at the current height resolves `id` to its executed state, is a silent
/// no-op, and can execute nothing — execution fires at most once per id.
pub proof fn lemma_tombstone_blocks_reproposal(s: MultiSigV2, env: CallEnv, id: Seq<u8>)
    requires
        s.wf(),
        s.has_tombstone(id),
        env.height < s.tombstone_expiry(id),
    ensures
        s.executed_after_prune(id, env.height),
        s.propose_noop(env, id),
        s.confirm_noop(env, id),
        !s.propose_executes(env, id),
        !s.confirm_executes(env, id),
        !s.has_proposal(id),
{
    s.tombstones.lemma_undue_survives(
        id,
        env.height,
        crate::state::MAX_TOMBSTONES_TO_PRUNE,
    );
    assert(!s.has_proposal(id)) by {
        if crate::registry::entries_has(s.proposals.entries@, id) {
            assert(!crate::registry::entries_has(s.tombstones.entries@, id));
        }
    }
}

/// A proposal that is past its deadline but still stored settles every
/// `propose` or `confirm` on its id as a silent no-op, and can execute
/// nothing. (Once pruning has removed the entry, the id is unknown again
/// and a `propose` starts a fresh lifecycle, as the contracts state.)
pub proof fn lemma_expired_entry_is_noop(s: MultiSigV2, env: CallEnv, id: Seq<u8>)
    requires
        s.wf(),
        s.has_proposal(id),
        env.height > s.proposal_deadline(id),
        !s.prop_removed(env.height).contains(id),
    ensures
        s.expired_after_prune(id, env.height),
        s.propose_noop(env, id),
        s.confirm_noop(env, id),
        !s.propose_executes(env, id),
        !s.confirm_executes(env, id),
{
}

/// A proposal whose deadline has not yet passed survives this call's
/// pruning pass: pruning removes only entries already due.
pub proof fn lemma_live_proposal_survives_pruning(s: MultiSigV2, env: CallEnv, id: Seq<u8>)
    requires
        s.wf(),
        s.has_proposal(id),
        env.height < s.proposal_deadline(id),
    ensures
        !s.prop_removed(env.height).contains(id),
        s.pending_after_prune(id, env.height),
{
    s.proposals.lemma_undue_survives(id, env.height, crate::state::MAX_PROPOSALS_TO_PRUNE);
}

} // verus!
