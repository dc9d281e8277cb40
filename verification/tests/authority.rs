use dusk_bytes::Serializable;
use dusk_core::signatures::bls::{MultisigSignature, PublicKey, SecretKey};
use multisig::keys::AggregateSig;
use rand::rngs::StdRng;
use rand::SeedableRng;

use multisig::error::Error;
use multisig::events::Event;
use multisig::keys::AdminKey;
use multisig::ops::{CallData, InitArgs, OpId, SetAuthority, SetTimeLimits, Target};
use multisig::state::{CallEnv, MultiSigV2};

const SELF_ID: [u8; 32] = [7u8; 32];
const CHAIN_ID: u8 = 1;

fn admin(seed: u64) -> (SecretKey, AdminKey) {
    let mut rng = StdRng::seed_from_u64(seed);
    let sk = SecretKey::random(&mut rng);
    let pk = PublicKey::from(&sk);
    (sk, AdminKey::new(pk.to_bytes().to_vec()))
}

fn env(height: u64) -> CallEnv {
    CallEnv { height, chain_id: CHAIN_ID, callstack_depth: 1, sender: None }
}

fn env_from(height: u64, sender: &AdminKey) -> CallEnv {
    CallEnv { height, chain_id: CHAIN_ID, callstack_depth: 1, sender: Some(sender.clone()) }
}

fn fresh_state(n: usize, admin_threshold: u8) -> (Vec<SecretKey>, Vec<AdminKey>, MultiSigV2) {
    let mut sks = Vec::new();
    let mut keys = Vec::new();
    for i in 0..n {
        let (sk, key) = admin(200 + i as u64);
        sks.push(sk);
        keys.push(key);
    }
    let mut state = MultiSigV2::new();
    let admins: Vec<AdminKey> = keys.iter().map(|k| k.clone()).collect();
    state
        .init(
            InitArgs {
                admins,
                admin_threshold,
                approval_threshold: 2,
                proposal_ttl: 100,
                tombstone_ttl: 50,
            },
            &SELF_ID,
        )
        .unwrap();
    (sks, keys, state)
}

/// Aggregates real multisignatures of the signers with the given indices,
/// handing back the compressed encoding the library carries.
fn sign_all(sks: &[SecretKey], idxs: &[u8], msg: &[u8]) -> AggregateSig {
    let mut parts: Vec<MultisigSignature> = idxs
        .iter()
        .map(|i| {
            let sk = &sks[*i as usize];
            sk.sign_multisig(&PublicKey::from(sk), msg)
        })
        .collect();
    let first = parts.remove(0);
    AggregateSig::new(first.aggregate(&parts).to_bytes().to_vec())
}

#[test]
fn set_authority_swaps_everything_and_discards_proposals() {
    let (sks, keys, mut state) = fresh_state(3, 2);

    // Two pending proposals before the change.
    state.propose(&env_from(10, &keys[0]), target(1), OpId([1u8; 32])).unwrap();
    state.propose(&env_from(10, &keys[1]), target(2), OpId([2u8; 32])).unwrap();
    // And one executed operation, so one tombstone survives the change.
    state.propose(&env_from(10, &keys[0]), target(3), OpId([3u8; 32])).unwrap();
    state.confirm(&env_from(10, &keys[1]), OpId([3u8; 32])).unwrap();
    assert_eq!(state.feed_proposals().len(), 2);
    assert_eq!(state.feed_tombstones().len(), 1);

    let (_nk_sk, new_a) = admin(301);
    let (_nk_sk2, new_b) = admin(302);
    let new_admins = vec![new_a, new_b];
    let msg = SetAuthority::signature_message(
        CHAIN_ID,
        state.admin_nonce(),
        &SELF_ID,
        1,
        2,
        &new_admins,
    );
    let sig = sign_all(&sks, &[0, 2], &msg);
    let args = SetAuthority {
        chain_id: CHAIN_ID,
        new_admins,
        new_threshold: 2,
        new_admin_threshold: 1,
        sig,
        signers: vec![0, 2],
    };
    let out = state.set_authority(&env(10), args).unwrap();

    // One update record plus exactly one removal per discarded proposal.
    assert_eq!(out.events.len(), 3);
    assert!(matches!(&out.events[0], Event::AuthorityUpdated(u)
        if u.prev_admin_threshold == 2 && u.prev_threshold == 2
        && u.new_admin_threshold == 1 && u.new_threshold == 2
        && u.prev_admins.len() == 3 && u.new_admins.len() == 2));
    let mut removed: Vec<u8> = Vec::new();
    for ev in &out.events[1..] {
        match ev {
            Event::Removed(rid) => removed.push(rid.0[0]),
            other => panic!("unexpected record: {other:?}"),
        }
    }
    removed.sort();
    assert_eq!(removed, vec![1, 2]);

    assert_eq!(state.admin_nonce(), 1);
    assert_eq!(state.admin_threshold(), 1);
    assert_eq!(state.admins().len(), 2);
    assert_eq!(state.feed_proposals().len(), 0);
    // Tombstones survive unchanged.
    assert_eq!(state.feed_tombstones().len(), 1);
}

fn target(tag: u8) -> Target {
    Target {
        call: CallData { contract: [tag; 32], fn_name: b"run".to_vec(), fn_args: vec![tag] },
        salt: [0u8; 32],
    }
}

#[test]
fn signer_index_out_of_range_is_rejected_without_change() {
    let (sks, _keys, mut state) = fresh_state(3, 2);
    let (_sk, new_admin) = admin(303);
    let new_admins = vec![new_admin];
    let msg = SetAuthority::signature_message(
        CHAIN_ID,
        state.admin_nonce(),
        &SELF_ID,
        1,
        1,
        &new_admins,
    );
    let sig = sign_all(&sks, &[0, 1], &msg);
    let args = SetAuthority {
        chain_id: CHAIN_ID,
        new_admins,
        new_threshold: 1,
        new_admin_threshold: 1,
        sig,
        signers: vec![0, 5],
    };
    let r = state.set_authority(&env(10), args);
    assert!(matches!(r, Err(Error::SignerNotFound)));
    assert_eq!(state.admin_nonce(), 0);
    assert_eq!(state.admins().len(), 3);
    assert_eq!(state.admin_threshold(), 2);
}

#[test]
fn signature_checks_reject_bad_authorizations() {
    let (sks, _keys, mut state) = fresh_state(3, 2);
    let msg = SetTimeLimits::signature_message(CHAIN_ID, 0, &SELF_ID, 11, 12);
    let good = sign_all(&sks, &[0, 1], &msg);

    // Wrong chain id.
    let r = state.set_time_limits(
        &env(10),
        SetTimeLimits {
            chain_id: CHAIN_ID + 1,
            proposal_ttl_blocks: 11,
            replay_window_blocks: 12,
            sig: good,
            signers: vec![0, 1],
        },
    );
    assert!(matches!(r, Err(Error::InvalidChainId)));

    // Zero durations.
    let good = sign_all(&sks, &[0, 1], &msg);
    let r = state.set_time_limits(
        &env(10),
        SetTimeLimits {
            chain_id: CHAIN_ID,
            proposal_ttl_blocks: 0,
            replay_window_blocks: 12,
            sig: good,
            signers: vec![0, 1],
        },
    );
    assert!(matches!(r, Err(Error::ZeroDuration)));

    // Duplicate signers.
    let good = sign_all(&sks, &[0, 1], &msg);
    let r = state.set_time_limits(
        &env(10),
        SetTimeLimits {
            chain_id: CHAIN_ID,
            proposal_ttl_blocks: 11,
            replay_window_blocks: 12,
            sig: good,
            signers: vec![0, 0],
        },
    );
    assert!(matches!(r, Err(Error::DuplicateSigner)));

    // Too few signers for the admin threshold.
    let one = sign_all(&sks, &[0], &msg);
    let r = state.set_time_limits(
        &env(10),
        SetTimeLimits {
            chain_id: CHAIN_ID,
            proposal_ttl_blocks: 11,
            replay_window_blocks: 12,
            sig: one,
            signers: vec![0],
        },
    );
    assert!(matches!(r, Err(Error::ThresholdNotMet)));

    // A signature over a different message fails verification.
    let wrong = sign_all(&sks, &[0, 1], b"something else");
    let r = state.set_time_limits(
        &env(10),
        SetTimeLimits {
            chain_id: CHAIN_ID,
            proposal_ttl_blocks: 11,
            replay_window_blocks: 12,
            sig: wrong,
            signers: vec![0, 1],
        },
    );
    assert!(matches!(r, Err(Error::InvalidSignature)));
    assert_eq!(state.admin_nonce(), 0);
    assert_eq!(state.proposal_ttl(), 100);
}

#[test]
fn nonce_increases_by_one_per_successful_update() {
    let (sks, _keys, mut state) = fresh_state(3, 2);
    assert_eq!(state.admin_nonce(), 0);

    let msg = SetTimeLimits::signature_message(CHAIN_ID, 0, &SELF_ID, 11, 12);
    let sig = sign_all(&sks, &[1, 2], &msg);
    let out = state
        .set_time_limits(
            &env(10),
            SetTimeLimits {
                chain_id: CHAIN_ID,
                proposal_ttl_blocks: 11,
                replay_window_blocks: 12,
                sig,
                signers: vec![1, 2],
            },
        )
        .unwrap();
    assert_eq!(state.admin_nonce(), 1);
    assert_eq!(state.proposal_ttl(), 11);
    assert_eq!(state.tombstone_ttl(), 12);
    assert_eq!(out.events.len(), 1);
    assert!(matches!(&out.events[0], Event::TimeLimitsUpdated(u)
        if u.prev_proposal_ttl_blocks == 100 && u.prev_replay_window_blocks == 50
        && u.proposal_ttl_blocks == 11 && u.replay_window_blocks == 12));

    // Replaying the same authorization fails: the nonce moved on.
    let sig = sign_all(&sks, &[1, 2], &msg);
    let r = state.set_time_limits(
        &env(10),
        SetTimeLimits {
            chain_id: CHAIN_ID,
            proposal_ttl_blocks: 11,
            replay_window_blocks: 12,
            sig,
            signers: vec![1, 2],
        },
    );
    assert!(matches!(r, Err(Error::InvalidSignature)));
    assert_eq!(state.admin_nonce(), 1);
}

#[test]
fn canonical_messages_have_exact_layout() {
    let (_sks, keys, _state) = fresh_state(2, 1);
    let nonce: u64 = 0x0102030405060708;
    let msg = SetTimeLimits::signature_message(9, nonce, &SELF_ID, 3, 4);
    assert_eq!(msg.len(), 1 + 8 + 32 + 8 + 8);
    assert_eq!(msg[0], 9);
    assert_eq!(&msg[1..9], &[1, 2, 3, 4, 5, 6, 7, 8]);
    assert_eq!(&msg[9..41], &SELF_ID[..]);
    assert_eq!(&msg[41..49], &[0, 0, 0, 0, 0, 0, 0, 3]);
    assert_eq!(&msg[49..57], &[0, 0, 0, 0, 0, 0, 0, 4]);

    // The authority message carries each admin key in its fixed 193-byte
    // raw encoding, in the given order.
    let admins = vec![keys[0].clone(), keys[1].clone()];
    let msg = SetAuthority::signature_message(9, nonce, &SELF_ID, 5, 6, &admins);
    assert_eq!(msg.len(), 1 + 8 + 32 + 1 + 1 + 2 * 193);
    assert_eq!(msg[41], 5);
    assert_eq!(msg[42], 6);
}

#[test]
fn verify_sig_resolves_signers_against_current_admins() {
    let (sks, _keys, state) = fresh_state(3, 2);
    let msg = b"payload".to_vec();
    let sig = sign_all(&sks, &[0, 2], msg.as_slice());
    assert!(state.verify_sig(2, msg.clone(), &sig, &vec![0, 2]).is_ok());
    // The same signature under the wrong indices does not verify.
    let sig = sign_all(&sks, &[0, 2], msg.as_slice());
    assert!(matches!(
        state.verify_sig(2, msg.clone(), &sig, &vec![0, 1]),
        Err(Error::InvalidSignature)
    ));
    let sig = sign_all(&sks, &[0, 2], msg.as_slice());
    assert!(matches!(
        state.verify_sig(0, msg, &sig, &vec![0, 2]),
        Err(Error::ThresholdZero)
    ));
}

#[test]
fn apply_updates_follow_the_signature_outcome() {
    // The commit logic is fully determined once the signature outcome is
    // fixed: a negative outcome changes nothing, a positive one commits.
    let (_sks, keys, mut state) = fresh_state(3, 2);
    let msg = SetTimeLimits::signature_message(CHAIN_ID, 0, &SELF_ID, 11, 12);
    let sig = sign_all(&_sks, &[0, 1], &msg);
    let args = SetTimeLimits {
        chain_id: CHAIN_ID,
        proposal_ttl_blocks: 11,
        replay_window_blocks: 12,
        sig,
        signers: vec![0, 1],
    };
    let r = state.apply_time_limits_update(&env(10), args, false);
    assert!(matches!(r, Err(Error::InvalidSignature)));
    assert_eq!(state.proposal_ttl(), 100);

    let sig = sign_all(&_sks, &[0, 1], &msg);
    let args = SetTimeLimits {
        chain_id: CHAIN_ID,
        proposal_ttl_blocks: 11,
        replay_window_blocks: 12,
        sig,
        signers: vec![0, 1],
    };
    state.apply_time_limits_update(&env(10), args, true).unwrap();
    assert_eq!(state.proposal_ttl(), 11);
    assert_eq!(state.admin_nonce(), 1);

    let (_sk, new_admin) = admin(401);
    let new_admins = vec![new_admin];
    let msg =
        SetAuthority::signature_message(CHAIN_ID, 1, &SELF_ID, 1, 1, &new_admins);
    let sig = sign_all(&_sks, &[0, 1], &msg);
    let args = SetAuthority {
        chain_id: CHAIN_ID,
        new_admins,
        new_threshold: 1,
        new_admin_threshold: 1,
        sig,
        signers: vec![0, 1],
    };
    state.apply_authority_update(&env(10), args, true).unwrap();
    assert_eq!(state.admins().len(), 1);
    assert_eq!(state.admin_nonce(), 2);
    let _ = keys;
}

#[test]
fn garbled_signature_bytes_never_verify() {
    let (sks, _keys, state) = fresh_state(3, 2);
    let msg = b"payload".to_vec();
    let good = sign_all(&sks, &[0, 1], msg.as_slice());
    assert!(state.verify_sig(2, msg.clone(), &good, &vec![0, 1]).is_ok());

    // Flipping one bit of the encoding makes the verdict negative.
    let mut bad = good.bytes.clone();
    bad[0] ^= 1;
    let bad = AggregateSig::new(bad);
    assert!(matches!(
        state.verify_sig(2, msg.clone(), &bad, &vec![0, 1]),
        Err(Error::InvalidSignature)
    ));

    // An encoding of the wrong length cannot decode, so it never verifies.
    let short = AggregateSig::new(vec![1, 2, 3]);
    assert!(matches!(
        state.verify_sig(2, msg, &short, &vec![0, 1]),
        Err(Error::InvalidSignature)
    ));
}
