use mutator_set::digest::Digest;
use mutator_set::error::MutatorSetError;
use mutator_set::mutator_set::archival::ArchivalMutatorSet;
use mutator_set::mutator_set::commitment::commit;
use mutator_set::mutator_set::commitment::compute_index_set;
use mutator_set::mutator_set::commitment::receiver_digest;
use mutator_set::mutator_set::lifecycle::ProofEvent;
use mutator_set::mutator_set::lifecycle::ProofState;
use mutator_set::mutator_set::removal_record::RemovalRecord;
use mutator_set::swbf::params::Params;

fn digest(seed: u64) -> Digest {
    Digest { e0: seed, e1: seed + 1, e2: seed + 2, e3: seed + 3, e4: seed + 4 }
}

const STATES: [ProofState; 4] =
    [ProofState::Fresh, ProofState::Valid, ProofState::StaleButUpdatable, ProofState::Invalid];

const EVENTS: [ProofEvent; 5] = [
    ProofEvent::Accepted,
    ProofEvent::SetChanged,
    ProofEvent::Updated,
    ProofEvent::UpdateFailed,
    ProofEvent::Spent,
];

#[test]
fn fresh_proof_becomes_valid_when_checked() {
    assert_eq!(ProofState::Fresh.next(ProofEvent::Accepted), ProofState::Valid);
}

#[test]
fn change_of_the_set_makes_a_proof_stale() {
    assert_eq!(ProofState::Fresh.next(ProofEvent::SetChanged), ProofState::StaleButUpdatable);
    assert_eq!(ProofState::Valid.next(ProofEvent::SetChanged), ProofState::StaleButUpdatable);
    assert_eq!(
        ProofState::StaleButUpdatable.next(ProofEvent::SetChanged),
        ProofState::StaleButUpdatable
    );
}

#[test]
fn update_makes_a_stale_proof_valid() {
    assert_eq!(ProofState::StaleButUpdatable.next(ProofEvent::Updated), ProofState::Valid);
    assert_eq!(ProofState::StaleButUpdatable.next(ProofEvent::UpdateFailed), ProofState::Invalid);
}

#[test]
fn invalid_proof_stays_invalid() {
    for event in EVENTS {
        assert_eq!(ProofState::Invalid.next(event), ProofState::Invalid);
    }
    for state in STATES {
        assert_eq!(state.next(ProofEvent::Spent), ProofState::Invalid);
        for event in EVENTS {
            assert_eq!(state.next(ProofEvent::Spent).next(event), ProofState::Invalid);
        }
    }
}

#[test]
fn proof_state_follows_the_set() {
    let params = Params::new(64, 8, 2, 3).unwrap();
    let mut set = ArchivalMutatorSet::new(params).unwrap();
    let item = digest(1);
    let sender_randomness = digest(2);
    let receiver_preimage = digest(3);
    let commitment =
        commit(&item, &sender_randomness, &receiver_digest(&receiver_preimage)).canonical_commitment;
    set.add(commitment);
    let proof = set.prove_membership(&item, &sender_randomness, &receiver_preimage, 0).unwrap();
    assert_eq!(set.proof_state(&item, &proof), ProofState::Valid);
    assert_eq!(set.proof_state(&digest(9), &proof), ProofState::Invalid);

    for seed in 10..14u64 {
        set.add(digest(seed));
    }
    assert_eq!(set.proof_state(&item, &proof), ProofState::StaleButUpdatable);
    assert_eq!(set.update_membership_proof(&item, &proof, 0).err(), Some(MutatorSetError::CannotUpdate));
    assert_eq!(set.update_membership_proof(&item, &proof, 6).err(), Some(MutatorSetError::CannotUpdate));
    assert_eq!(
        set.update_membership_proof(&digest(9), &proof, 1).err(),
        Some(MutatorSetError::CannotUpdate)
    );
    let mended = set.update_membership_proof(&item, &proof, 1).unwrap();
    assert_eq!(set.proof_state(&item, &mended), ProofState::Valid);
    assert!(set.accumulator().verify(&item, &mended));
    assert!(!set.any_bit_set(&item, &sender_randomness, &receiver_preimage, 0));

    let indices = compute_index_set(&params, &item, &sender_randomness, &receiver_preimage, 0);
    let record = RemovalRecord::from_proof(indices, &mended);
    assert_eq!(set.remove(&record), Ok(()));
    assert!(set.any_bit_set(&item, &sender_randomness, &receiver_preimage, 0));
    assert_eq!(set.proof_state(&item, &mended), ProofState::Invalid);
    assert_eq!(set.proof_state(&item, &proof), ProofState::Invalid);
    assert_eq!(
        set.update_membership_proof(&item, &proof, 1).err(),
        Some(MutatorSetError::AlreadySpent)
    );
}
