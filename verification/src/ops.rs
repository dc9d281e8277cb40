//! Operations: identifiers, target call descriptions, and pending proposals.

use vstd::prelude::*;

use crate::bls::{key_raw_bytes, key_raw_encoding, key_valid};
use crate::keys::{clone_bytes, clone_keys, keys_contain, keys_view, AdminKey, AggregateSig};

verus! {

/// Operation identifier: the host's 32-byte digest of the encoded target
/// call concatenated with the salt. The state machine treats it as the
/// operation's unique key.
#[derive(Clone, Copy, Debug)]
pub struct OpId(pub [u8; 32]);

impl View for OpId {
    type V = Seq<u8>;

    open spec fn view(&self) -> Seq<u8> {
        self.0@
    }
}

/// Compares two operation identifiers.
pub fn op_id_eq(a: &OpId, b: &OpId) -> (r: bool)
    ensures
        r == (a@ == b@),
{
    let mut i: usize = 0;
    while i < 32
        invariant
            i <= 32,
            a@.len() == 32,
            b@.len() == 32,
            forall|k: int| 0 <= k < i ==> a@[k] == b@[k],
        decreases 32 - i,
    {
        if a.0[i] != b.0[i] {
            return false;
        }
        i += 1;
    }
    proof {
        assert(a@ =~= b@);
    }
    true
}

/// A call to be made on a target contract, kept as plain values: the
/// destination identifier, the function name as raw bytes, and the encoded
/// arguments. The host turns this back into its own call representation
/// when it executes the operation.
#[derive(Debug)]
pub struct CallData {
    /// The 32-byte identifier of the destination contract.
    pub contract: [u8; 32],
    /// The name of the function to call, as raw bytes.
    pub fn_name: Vec<u8>,
    /// The already-encoded arguments of the call.
    pub fn_args: Vec<u8>,
}

/// The mathematical value of a [`CallData`].
pub ghost struct CallDataView {
    /// The destination contract identifier bytes.
    pub contract: Seq<u8>,
    /// The function name bytes.
    pub fn_name: Seq<u8>,
    /// The encoded argument bytes.
    pub fn_args: Seq<u8>,
}

impl View for CallData {
    type V = CallDataView;

    open spec fn view(&self) -> CallDataView {
        CallDataView {
            contract: self.contract@,
            fn_name: self.fn_name@,
            fn_args: self.fn_args@,
        }
    }
}

impl Clone for CallData {
    fn clone(&self) -> (r: Self)
        ensures
            r@ == self@,
    {
        CallData {
            contract: self.contract,
            fn_name: clone_bytes(&self.fn_name),
            fn_args: clone_bytes(&self.fn_args),
        }
    }
}

/// A target call description. The salt lets otherwise identical calls get
/// distinct operation identifiers on purpose.
#[derive(Debug)]
pub struct Target {
    /// The call to be made on the target contract.
    pub call: CallData,
    /// A salt to differentiate operations with the same target call.
    pub salt: [u8; 32],
}

/// The mathematical value of a [`Target`].
pub ghost struct TargetView {
    /// The call description.
    pub call: CallDataView,
    /// The salt bytes.
    pub salt: Seq<u8>,
}

impl View for Target {
    type V = TargetView;

    open spec fn view(&self) -> TargetView {
        TargetView { call: self.call@, salt: self.salt@ }
    }
}

impl Clone for Target {
    fn clone(&self) -> (r: Self)
        ensures
            r@ == self@,
    {
        Target { call: self.call.clone(), salt: self.salt }
    }
}

/// A pending proposal: the target call, the distinct admin keys that have
/// approved it so far in confirmation order, its expiry deadline, and the
/// confirmation threshold recorded when it was created.
///
/// Execution compares the approvals against the *live* global confirmation
/// threshold, not against the recorded one; the recorded value documents
/// the threshold in force at creation. A change of authority discards all
/// pending proposals, so the two can only diverge transiently.
#[derive(Debug)]
pub struct Operation {
    /// The target call.
    pub target: Target,
    /// The distinct admins that approved this operation, in order.
    pub approvals: Vec<AdminKey>,
    /// The block-height deadline after which this proposal expires.
    pub deadline: u64,
    /// The confirmation threshold recorded when the proposal was created.
    pub threshold: u8,
}

/// The mathematical value of an [`Operation`].
pub ghost struct OperationView {
    /// The target call.
    pub target: TargetView,
    /// The encodings of the approving keys, in confirmation order.
    pub approvals: Seq<Seq<u8>>,
    /// The expiry deadline height.
    pub deadline: u64,
    /// The recorded confirmation threshold.
    pub threshold: u8,
}

impl View for Operation {
    type V = OperationView;

    open spec fn view(&self) -> OperationView {
        OperationView {
            target: self.target@,
            approvals: Seq::new(self.approvals@.len(), |i: int| self.approvals@[i]@),
            deadline: self.deadline,
            threshold: self.threshold,
        }
    }
}

impl Clone for Operation {
    fn clone(&self) -> (r: Self)
        ensures
            r@ == self@,
    {
        let r = Operation {
            target: self.target.clone(),
            approvals: clone_keys(&self.approvals),
            deadline: self.deadline,
            threshold: self.threshold,
        };
        proof {
            assert(r@.approvals =~= self@.approvals);
        }
        r
    }
}

impl Operation {
    /// Returns `true` if the given key has approved this operation.
    pub fn approved_by(&self, pk: &AdminKey) -> (r: bool)
        ensures
            r == self@.approvals.contains(pk@),
    {
        let r = keys_contain(&self.approvals, pk);
        proof {
            if r {
                let i = choose|i: int|
                    0 <= i < self.approvals@.len() && self.approvals@[i]@ == pk@;
                assert(self@.approvals[i] == pk@);
            }
            if self@.approvals.contains(pk@) {
                let i = choose|i: int|
                    0 <= i < self@.approvals.len() && self@.approvals[i] == pk@;
                assert(self.approvals@[i]@ == pk@);
            }
        }
        r
    }

    /// Returns `true` if the operation has gathered at least its recorded
    /// threshold of approvals.
    pub fn is_ready(&self) -> (r: bool)
        ensures
            r == (self@.approvals.len() >= self@.threshold as int),
    {
        self.approvals.len() >= self.threshold as usize
    }
}

/// The big-endian bytes of a 64-bit value.
pub open spec fn u64_be_bytes(x: u64) -> Seq<u8> {
    seq![
        (x >> 56) as u8,
        (x >> 48) as u8,
        (x >> 40) as u8,
        (x >> 32) as u8,
        (x >> 24) as u8,
        (x >> 16) as u8,
        (x >> 8) as u8,
        x as u8,
    ]
}

/// Appends the big-endian bytes of `x`.
#[verifier::loop_isolation(false)]
pub fn push_u64_be(dst: &mut Vec<u8>, x: u64)
    ensures
        final(dst)@ == old(dst)@ + u64_be_bytes(x),
{
    dst.push(#[verifier::truncate] ((x >> 56) as u8));
    dst.push(#[verifier::truncate] ((x >> 48) as u8));
    dst.push(#[verifier::truncate] ((x >> 40) as u8));
    dst.push(#[verifier::truncate] ((x >> 32) as u8));
    dst.push(#[verifier::truncate] ((x >> 24) as u8));
    dst.push(#[verifier::truncate] ((x >> 16) as u8));
    dst.push(#[verifier::truncate] ((x >> 8) as u8));
    dst.push(#[verifier::truncate] (x as u8));
    proof {
        assert(dst@ =~= old(dst)@ + u64_be_bytes(x));
    }
}

/// Appends all of `src`.
#[verifier::loop_isolation(false)]
pub fn append_bytes(dst: &mut Vec<u8>, src: &Vec<u8>)
    ensures
        final(dst)@ == old(dst)@ + src@,
{
    let mut i: usize = 0;
    while i < src.len()
        invariant
            i <= src@.len(),
            dst@ == old(dst)@ + src@.take(i as int),
        decreases src@.len() - i,
    {
        dst.push(src[i]);
        proof {
            assert(dst@ =~= old(dst)@ + src@.take(i as int + 1));
        }
        i += 1;
    }
    proof {
        assert(src@.take(src@.len() as int) =~= src@);
    }
}

/// Appends a 32-byte identifier.
#[verifier::loop_isolation(false)]
pub fn append_id32(dst: &mut Vec<u8>, src: &[u8; 32])
    ensures
        final(dst)@ == old(dst)@ + src@,
{
    let mut i: usize = 0;
    while i < 32
        invariant
            i <= 32,
            src@.len() == 32,
            dst@ == old(dst)@ + src@.take(i as int),
        decreases 32 - i,
    {
        dst.push(src[i]);
        proof {
            assert(dst@ =~= old(dst)@ + src@.take(i as int + 1));
        }
        i += 1;
    }
    proof {
        assert(src@.take(32) =~= src@);
    }
}

/// The concatenation of the raw fixed-width encodings of the given keys,
/// in order.
pub open spec fn concat_raw(keys: Seq<Seq<u8>>) -> Seq<u8>
    decreases keys.len(),
{
    if keys.len() == 0 {
        Seq::empty()
    } else {
        key_raw_encoding(keys[0]) + concat_raw(keys.drop_first())
    }
}

/// Growing the concatenation by one key appends that key's raw encoding.
pub proof fn lemma_concat_raw_snoc(keys: Seq<Seq<u8>>, i: int)
    requires
        0 <= i < keys.len(),
    ensures
        concat_raw(keys.take(i + 1)) == concat_raw(keys.take(i)) + key_raw_encoding(keys[i]),
    decreases i,
{
    if i == 0 {
        assert(keys.take(1).drop_first() =~= Seq::<Seq<u8>>::empty());
        assert(keys.take(0) =~= Seq::<Seq<u8>>::empty());
        assert(concat_raw(keys.take(1)) == key_raw_encoding(keys[0]) + concat_raw(
            Seq::<Seq<u8>>::empty(),
        ));
        assert(concat_raw(keys.take(1)) =~= concat_raw(keys.take(0)) + key_raw_encoding(keys[0]));
    } else {
        let t = keys.drop_first();
        lemma_concat_raw_snoc(t, i - 1);
        assert(keys.take(i + 1).drop_first() =~= t.take(i));
        assert(keys.take(i).drop_first() =~= t.take(i - 1));
        assert(keys.take(i + 1)[0] == keys[0]);
        assert(keys.take(i)[0] == keys[0]);
        assert(concat_raw(keys.take(i + 1)) == key_raw_encoding(keys[0]) + concat_raw(t.take(i)));
        assert(concat_raw(keys.take(i)) == key_raw_encoding(keys[0]) + concat_raw(t.take(i - 1)));
        assert(t[i - 1] == keys[i]);
        assert(key_raw_encoding(keys[0]) + (concat_raw(t.take(i - 1)) + key_raw_encoding(keys[i]))
            =~= (key_raw_encoding(keys[0]) + concat_raw(t.take(i - 1))) + key_raw_encoding(
            keys[i],
        ));
    }
}

/// The canonical message signed to change the authority: chain id,
/// admin nonce in big-endian, the instance's own identifier, the new admin
/// threshold, the new confirmation threshold, and the raw encodings of the
/// new admin keys in their given order.
pub open spec fn spec_authority_message(
    chain_id: u8,
    admin_nonce: u64,
    contract: Seq<u8>,
    new_admin_threshold: u8,
    new_threshold: u8,
    admin_keys: Seq<Seq<u8>>,
) -> Seq<u8> {
    seq![chain_id] + u64_be_bytes(admin_nonce) + contract + seq![new_admin_threshold, new_threshold]
        + concat_raw(admin_keys)
}

/// The canonical message signed to change the time parameters: chain id,
/// admin nonce in big-endian, the instance's own identifier, the new
/// proposal TTL, and the new replay window.
pub open spec fn spec_time_limits_message(
    chain_id: u8,
    admin_nonce: u64,
    contract: Seq<u8>,
    proposal_ttl_blocks: u64,
    replay_window_blocks: u64,
) -> Seq<u8> {
    seq![chain_id] + u64_be_bytes(admin_nonce) + contract + u64_be_bytes(proposal_ttl_blocks)
        + u64_be_bytes(replay_window_blocks)
}

/// Arguments for changing the admin set and both thresholds, authorized by
/// an aggregated signature of the current admins.
#[derive(Debug)]
pub struct SetAuthority {
    /// The chain id for which the authority is being set.
    pub chain_id: u8,
    /// List of new admin keys.
    pub new_admins: Vec<AdminKey>,
    /// Required number of confirmations to execute a pending proposal.
    pub new_threshold: u8,
    /// Required number of signatures to approve an admin operation.
    pub new_admin_threshold: u8,
    /// The aggregated admin signature, as its compressed encoding.
    pub sig: AggregateSig,
    /// The indices of the signing admins.
    pub signers: Vec<u8>,
}

impl SetAuthority {
    /// Builds the canonical authority-change message,
    /// [`spec_authority_message`], over well-formed new admin keys.
    #[verifier::loop_isolation(false)]
    pub fn signature_message(
        chain_id: u8,
        admin_nonce: u64,
        contract: &[u8; 32],
        new_admin_threshold: u8,
        new_threshold: u8,
        new_admins: &Vec<AdminKey>,
    ) -> (r: Vec<u8>)
        requires
            forall|i: int| 0 <= i < new_admins@.len() ==> key_valid(#[trigger] new_admins@[i]@),
        ensures
            r@ == spec_authority_message(
                chain_id,
                admin_nonce,
                contract@,
                new_admin_threshold,
                new_threshold,
                keys_view(new_admins@),
            ),
    {
        let mut msg: Vec<u8> = Vec::new();
        msg.push(chain_id);
        push_u64_be(&mut msg, admin_nonce);
        append_id32(&mut msg, contract);
        msg.push(new_admin_threshold);
        msg.push(new_threshold);
        let ghost prefix = msg@;
        proof {
            assert(prefix =~= seq![chain_id] + u64_be_bytes(admin_nonce) + contract@ + seq![
                new_admin_threshold,
                new_threshold,
            ]);
            assert(keys_view(new_admins@).take(0) =~= Seq::<Seq<u8>>::empty());
            assert(msg@ =~= prefix + concat_raw(keys_view(new_admins@).take(0)));
        }
        let mut i: usize = 0;
        while i < new_admins.len()
            invariant
                i <= new_admins@.len(),
                msg@ == prefix + concat_raw(keys_view(new_admins@).take(i as int)),
            decreases new_admins@.len() - i,
        {
            let raw = key_raw_bytes(&new_admins[i]);
            append_bytes(&mut msg, &raw);
            proof {
                lemma_concat_raw_snoc(keys_view(new_admins@), i as int);
                assert(keys_view(new_admins@)[i as int] == new_admins@[i as int]@);
                assert(msg@ =~= prefix + concat_raw(keys_view(new_admins@).take(i as int + 1)));
            }
            i += 1;
        }
        proof {
            assert(keys_view(new_admins@).take(new_admins@.len() as int) =~= keys_view(
                new_admins@,
            ));
        }
        msg
    }
}

/// Arguments for changing the proposal TTL and the replay window,
/// authorized by an aggregated signature of the current admins.
#[derive(Debug)]
pub struct SetTimeLimits {
    /// The chain id for which the time limits are being set.
    pub chain_id: u8,
    /// Proposal TTL in blocks.
    pub proposal_ttl_blocks: u64,
    /// Replay window in blocks.
    pub replay_window_blocks: u64,
    /// Aggregated admin signature, as its compressed encoding.
    pub sig: AggregateSig,
    /// Indices of signing admins.
    pub signers: Vec<u8>,
}

impl SetTimeLimits {
    /// Builds the canonical time-parameter message,
    /// [`spec_time_limits_message`].
    pub fn signature_message(
        chain_id: u8,
        admin_nonce: u64,
        contract: &[u8; 32],
        proposal_ttl_blocks: u64,
        replay_window_blocks: u64,
    ) -> (r: Vec<u8>)
        ensures
            r@ == spec_time_limits_message(
                chain_id,
                admin_nonce,
                contract@,
                proposal_ttl_blocks,
                replay_window_blocks,
            ),
    {
        let mut msg: Vec<u8> = Vec::new();
        msg.push(chain_id);
        push_u64_be(&mut msg, admin_nonce);
        append_id32(&mut msg, contract);
        push_u64_be(&mut msg, proposal_ttl_blocks);
        push_u64_be(&mut msg, replay_window_blocks);
        proof {
            assert(msg@ =~= spec_time_limits_message(
                chain_id,
                admin_nonce,
                contract@,
                proposal_ttl_blocks,
                replay_window_blocks,
            ));
        }
        msg
    }
}

/// Arguments for one-time initialization.
#[derive(Debug)]
pub struct InitArgs {
    /// List of admin public keys.
    pub admins: Vec<AdminKey>,
    /// Required number of signatures to approve an admin operation.
    pub admin_threshold: u8,
    /// Required number of confirmations to execute a pending proposal.
    pub approval_threshold: u8,
    /// Proposal TTL in blocks.
    pub proposal_ttl: u64,
    /// Replay window in blocks.
    pub tombstone_ttl: u64,
}

} // verus!
