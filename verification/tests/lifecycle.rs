use dusk_bytes::Serializable;
use dusk_core::signatures::bls::{PublicKey, SecretKey};
use rand::rngs::StdRng;
use rand::SeedableRng;

use multisig::error::Error;
use multisig::events::Event;
use multisig::keys::AdminKey;
use multisig::ops::{CallData, InitArgs, OpId, Target};
use multisig::state::{CallEnv, MultiSigV2};

fn admin(seed: u64) -> (SecretKey, AdminKey) {
    let mut rng = StdRng::seed_from_u64(seed);
    let sk = SecretKey::random(&mut rng);
    let pk = PublicKey::from(&sk);
    (sk, AdminKey::new(pk.to_bytes().to_vec()))
}

fn env(height: u64, sender: &AdminKey) -> CallEnv {
    CallEnv { height, chain_id: 1, callstack_depth: 1, sender: Some(sender.clone()) }
}

fn target(tag: u8) -> Target {
    Target {
        call: CallData { contract: [tag; 32], fn_name: b"run".to_vec(), fn_args: vec![tag] },
        salt: [0u8; 32],
    }
}

fn opid(tag: u8) -> OpId {
    OpId([tag; 32])
}

fn fresh_state(
    n: usize,
    admin_threshold: u8,
    approval_threshold: u8,
    proposal_ttl: u64,
    tombstone_ttl: u64,
) -> (Vec<SecretKey>, Vec<AdminKey>, MultiSigV2) {
    let mut sks = Vec::new();
    let mut keys = Vec::new();
    for i in 0..n {
        let (sk, key) = admin(100 + i as u64);
        sks.push(sk);
        keys.push(key);
    }
    let mut state = MultiSigV2::new();
    let admins: Vec<AdminKey> = keys.iter().map(|k| k.clone()).collect();
    state
        .init(
            InitArgs { admins, admin_threshold, approval_threshold, proposal_ttl, tombstone_ttl },
            &[7u8; 32],
        )
        .unwrap();
    (sks, keys, state)
}

#[test]
fn full_lifecycle_with_tombstone_replay_window() {
    // admins = [A, B, C], thresholds 2/2, TTL 100, replay window 50.
    let (_sks, keys, mut state) = fresh_state(3, 2, 2, 100, 50);
    let id = opid(9);

    // A proposes at height 10: pending with only A, deadline 110.
    let out = state.propose(&env(10, &keys[0]), target(9), id).unwrap();
    assert_eq!(out.events.len(), 1);
    assert!(matches!(&out.events[0], Event::Proposed(m) if m.id.0 == id.0));
    assert!(out.execute.is_none());
    let op = state.proposal(id).unwrap();
    assert_eq!(op.approvals.len(), 1);
    assert_eq!(op.approvals[0].bytes, keys[0].bytes);
    assert_eq!(op.deadline, 110);

    // B confirms at height 10: threshold reached, executes, tombstone at 60.
    let out = state.confirm(&env(10, &keys[1]), id).unwrap();
    assert_eq!(out.events.len(), 2);
    assert!(matches!(&out.events[0], Event::Confirmed(m) if m.id.0 == id.0));
    assert!(matches!(&out.events[1], Event::Executing(e) if e.0 == id.0));
    let req = out.execute.unwrap();
    assert_eq!(req.id.0, id.0);
    assert_eq!(req.call.contract, [9u8; 32]);
    assert!(state.proposal(id).is_none());
    let tombs = state.feed_tombstones();
    assert_eq!(tombs.len(), 1);
    assert_eq!(tombs[0].0 .0, id.0);
    assert_eq!(tombs[0].1, 60);

    // C proposes the identical operation at height 20: silent no-op.
    let out = state.propose(&env(20, &keys[2]), target(9), id).unwrap();
    assert_eq!(out.events.len(), 0);
    assert!(out.execute.is_none());
    assert!(state.proposal(id).is_none());

    // At height 61 the tombstone is expired; pruning frees the id and the
    // proposal starts a fresh lifecycle: pending with only C.
    let out = state.propose(&env(61, &keys[2]), target(9), id).unwrap();
    assert_eq!(out.events.len(), 1);
    assert!(matches!(&out.events[0], Event::Proposed(m) if m.id.0 == id.0));
    let op = state.proposal(id).unwrap();
    assert_eq!(op.approvals.len(), 1);
    assert_eq!(op.approvals[0].bytes, keys[2].bytes);
    assert_eq!(op.deadline, 161);
    assert_eq!(state.feed_tombstones().len(), 0);
}

#[test]
fn duplicate_proposal_rejected_duplicate_confirm_noop() {
    let (_sks, keys, mut state) = fresh_state(3, 2, 2, 100, 50);
    let id = opid(1);
    state.propose(&env(10, &keys[0]), target(1), id).unwrap();

    // The same admin re-proposing the identical operation is rejected.
    let r = state.propose(&env(11, &keys[0]), target(1), id);
    assert!(matches!(r, Err(Error::AlreadyConfirmed)));
    assert_eq!(state.proposal(id).unwrap().approvals.len(), 1);

    // Re-confirming via `confirm` is a silent no-op: no event, no change.
    let out = state.confirm(&env(11, &keys[0]), id).unwrap();
    assert_eq!(out.events.len(), 0);
    assert!(out.execute.is_none());
    assert_eq!(state.proposal(id).unwrap().approvals.len(), 1);
}

#[test]
fn executes_exactly_at_threshold_and_only_once() {
    // 3-of-3: no execution before the third distinct confirmation.
    let (_sks, keys, mut state) = fresh_state(3, 2, 3, 100, 50);
    let id = opid(2);
    let out = state.propose(&env(5, &keys[0]), target(2), id).unwrap();
    assert!(out.execute.is_none());
    let out = state.confirm(&env(6, &keys[1]), id).unwrap();
    assert!(out.execute.is_none());
    assert_eq!(state.proposal(id).unwrap().approvals.len(), 2);
    let out = state.confirm(&env(7, &keys[2]), id).unwrap();
    assert!(out.execute.is_some());
    assert!(state.proposal(id).is_none());

    // Execution fired exactly once: the id is settled now.
    let out = state.confirm(&env(8, &keys[0]), id).unwrap();
    assert_eq!(out.events.len(), 0);
    assert!(out.execute.is_none());
}

#[test]
fn confirmation_order_does_not_change_outcome() {
    let id = opid(3);
    let run = |order: [usize; 3]| {
        let (_sks, keys, mut state) = fresh_state(3, 2, 3, 100, 50);
        state.propose(&env(5, &keys[order[0]]), target(3), id).unwrap();
        state.confirm(&env(6, &keys[order[1]]), id).unwrap();
        let out = state.confirm(&env(7, &keys[order[2]]), id).unwrap();
        let mut approvals: Vec<Vec<u8>> = Vec::new();
        for (oid, op) in state.feed_proposals() {
            assert_eq!(oid.0, id.0);
            for k in &op.approvals {
                approvals.push(k.bytes.clone());
            }
        }
        (out.execute.is_some(), approvals)
    };
    let (exec_a, _) = run([0, 1, 2]);
    let (exec_b, _) = run([2, 0, 1]);
    // Under every submission order the third distinct confirmation
    // executes; afterwards no proposal is left in either run.
    assert!(exec_a && exec_b);
}

#[test]
fn pruning_is_capped_and_expired_entries_are_noops() {
    // 40 proposals, all expiring at height 2.
    let (_sks, keys, mut state) = fresh_state(3, 2, 2, 1, 50);
    for tag in 0..40u8 {
        state.propose(&env(1, &keys[0]), target(tag), opid(tag)).unwrap();
    }
    assert_eq!(state.feed_proposals().len(), 40);

    // An expired entry that the capped pruning pass cannot reach yet is a
    // silent no-op for `confirm`: the pass removes the 32 entries drained
    // from the back of the due bucket, the first 8 survive this call.
    let out = state.confirm(&env(100, &keys[1]), opid(0)).unwrap();
    assert_eq!(out.events.len(), 0);
    assert!(out.execute.is_none());
    assert_eq!(state.feed_proposals().len(), 8);

    // A fresh proposal prunes at most another cap's worth.
    state.propose(&env(100, &keys[0]), target(41), opid(41)).unwrap();
    assert_eq!(state.feed_proposals().len(), 1);

    // An id whose entry pruning already removed is unknown to `confirm`.
    let r = state.confirm(&env(100, &keys[1]), opid(39));
    assert!(matches!(r, Err(Error::OperationNotFound)));
}

#[test]
fn authentication_is_required() {
    let (_sks, keys, mut state) = fresh_state(3, 2, 2, 100, 50);
    let id = opid(4);

    let indirect = CallEnv {
        height: 10,
        chain_id: 1,
        callstack_depth: 2,
        sender: Some(keys[0].clone()),
    };
    assert!(matches!(
        state.propose(&indirect, target(4), id),
        Err(Error::IndirectCall)
    ));

    let shielded = CallEnv { height: 10, chain_id: 1, callstack_depth: 1, sender: None };
    assert!(matches!(state.propose(&shielded, target(4), id), Err(Error::ShieldedCall)));

    let (_sk, outsider) = admin(999);
    assert!(matches!(
        state.propose(&env(10, &outsider), target(4), id),
        Err(Error::NotAdmin)
    ));

    assert!(matches!(
        state.confirm(&env(10, &keys[0]), id),
        Err(Error::OperationNotFound)
    ));
    assert_eq!(state.feed_proposals().len(), 0);
}

#[test]
fn init_validates_everything_once() {
    let (_sk_a, a) = admin(1);
    let (_sk_b, b) = admin(2);
    let args = |admins: Vec<AdminKey>, at: u8, ct: u8, ttl: u64, tt: u64| InitArgs {
        admins,
        admin_threshold: at,
        approval_threshold: ct,
        proposal_ttl: ttl,
        tombstone_ttl: tt,
    };

    let mut s = MultiSigV2::new();
    assert!(matches!(
        s.init(args(vec![], 1, 1, 10, 10), &[7u8; 32]),
        Err(Error::EmptyAdmins)
    ));
    assert!(matches!(
        s.init(args(vec![a.clone(), a.clone()], 1, 1, 10, 10), &[7u8; 32]),
        Err(Error::DuplicateAdmin)
    ));
    assert!(matches!(
        s.init(args(vec![AdminKey::new(vec![1, 2, 3])], 1, 1, 10, 10), &[7u8; 32]),
        Err(Error::InvalidAdminKey)
    ));
    assert!(matches!(
        s.init(args(vec![a.clone()], 0, 1, 10, 10), &[7u8; 32]),
        Err(Error::ThresholdZero)
    ));
    assert!(matches!(
        s.init(args(vec![a.clone()], 1, 1, 0, 10), &[7u8; 32]),
        Err(Error::ZeroDuration)
    ));
    assert!(matches!(
        s.init(args(vec![a.clone()], 1, 2, 10, 10), &[7u8; 32]),
        Err(Error::ThresholdExceedsAdmins)
    ));
    assert!(matches!(
        s.init(args(vec![a.clone()], 1, 1, 10, 10), &[0u8; 32]),
        Err(Error::MissingSelfId)
    ));
    assert!(s.init(args(vec![a.clone(), b.clone()], 2, 2, 10, 10), &[7u8; 32]).is_ok());
    assert_eq!(s.admin_threshold(), 2);
    assert_eq!(s.confirmation_threshold(), 2);
    assert_eq!(s.proposal_ttl(), 10);
    assert_eq!(s.tombstone_ttl(), 10);
    assert_eq!(s.admins().len(), 2);
    assert!(matches!(
        s.init(args(vec![a.clone()], 1, 1, 10, 10), &[7u8; 32]),
        Err(Error::AlreadyInitialized)
    ));
}

#[test]
fn propose_on_surviving_expired_entry_is_noop() {
    // 34 proposals all expire at height 2; one pass prunes at most 32,
    // drained from the back of the bucket, so ids 0 and 1 survive.
    let (_sks, keys, mut state) = fresh_state(3, 2, 2, 1, 50);
    for tag in 0..34u8 {
        state.propose(&env(1, &keys[0]), target(tag), opid(tag)).unwrap();
    }
    let out = state.propose(&env(100, &keys[1]), target(0), opid(0)).unwrap();
    assert_eq!(out.events.len(), 0);
    assert!(out.execute.is_none());
    assert_eq!(state.feed_proposals().len(), 2);
}
