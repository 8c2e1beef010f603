use mutator_set::digest::hash_pair;
use mutator_set::digest::hash_varlen;
use mutator_set::digest::Digest;
use mutator_set::error::MutatorSetError;
use mutator_set::mutator_set::accumulator::MutatorSetAccumulator;
use mutator_set::mutator_set::archival::ArchivalMutatorSet;
use mutator_set::mutator_set::commitment::commit;
use mutator_set::mutator_set::commitment::compute_index_set;
use mutator_set::mutator_set::commitment::index_seed;
use mutator_set::mutator_set::commitment::indices_of_seed;
use mutator_set::mutator_set::commitment::receiver_digest;
use mutator_set::mutator_set::interface::MutatorSet;
use mutator_set::mutator_set::interface::Restore;
use mutator_set::mutator_set::membership_proof::MembershipProof;
use mutator_set::mutator_set::removal_record::RemovalRecord;
use mutator_set::mutator_set::update::Operation;
use mutator_set::swbf::params::Params;

fn digest(seed: u64) -> Digest {
    Digest { e0: seed, e1: seed + 1, e2: seed + 2, e3: seed + 3, e4: seed + 4 }
}

/// An item with what is needed to open the commitment to it.
struct Opening {
    item: Digest,
    sender_randomness: Digest,
    receiver_preimage: Digest,
}

fn opening(seed: u64) -> Opening {
    Opening {
        item: digest(1000 * seed),
        sender_randomness: digest(1000 * seed + 100),
        receiver_preimage: digest(1000 * seed + 200),
    }
}

fn commitment(o: &Opening) -> Digest {
    commit(&o.item, &o.sender_randomness, &receiver_digest(&o.receiver_preimage)).canonical_commitment
}

fn small() -> Params {
    Params::new(64, 8, 2, 3).unwrap()
}

fn record_for(params: &Params, o: &Opening, proof: &MembershipProof) -> RemovalRecord {
    let indices = compute_index_set(
        params,
        &o.item,
        &o.sender_randomness,
        &o.receiver_preimage,
        proof.aocl_leaf_index,
    );
    RemovalRecord::from_proof(indices, proof)
}

#[test]
fn params_are_checked() {
    assert!(Params::new(64, 8, 2, 3).is_some());
    assert!(Params::new(63, 8, 2, 3).is_some());
    assert!(Params::new(0, 8, 2, 3).is_none());
    assert!(Params::new(0, 0, 2, 3).is_none());
    assert!(Params::new(64, 0, 2, 3).is_none());
    assert!(Params::new(64, 65, 2, 3).is_none());
    assert!(Params::new(64, 64, 2, 3).is_some());
    assert!(Params::new(64, 8, 0, 3).is_none());
    assert!(Params::new(64, 8, 2, 0).is_none());
    assert!(Params::new(u32::MAX, u32::MAX, u64::MAX, usize::MAX).is_some());
    let bad = Params { window_size: 3, chunk_size: 4, batch_size: 1, num_trials: 1 };
    assert!(!bad.is_valid());
    assert!(MutatorSetAccumulator::new(bad).is_none());
    assert!(ArchivalMutatorSet::new(bad).is_none());
}

#[test]
fn index_set_lies_in_the_window_of_the_batch() {
    let params = small();
    let o = opening(1);
    for leaf_index in [0u64, 1, 2, 3, 17, 1000] {
        let indices = compute_index_set(
            &params,
            &o.item,
            &o.sender_randomness,
            &o.receiver_preimage,
            leaf_index,
        );
        assert_eq!(indices.len(), 3);
        let offset = (leaf_index / 2) as u128 * 8;
        for index in &indices {
            assert!(*index >= offset);
            assert!(*index < offset + 64);
        }
        let again = compute_index_set(
            &params,
            &o.item,
            &o.sender_randomness,
            &o.receiver_preimage,
            leaf_index,
        );
        assert_eq!(indices, again);
    }
}

#[test]
fn index_set_is_drawn_from_the_hash_of_seed_and_trial() {
    let params = Params::new(1000, 10, 4, 5).unwrap();
    let o = opening(2);
    let seed = index_seed(&o.item, &o.sender_randomness, &o.receiver_preimage, 9);
    let mut input = vec![
        o.item.e0, o.item.e1, o.item.e2, o.item.e3, o.item.e4,
        o.sender_randomness.e0, o.sender_randomness.e1, o.sender_randomness.e2,
        o.sender_randomness.e3, o.sender_randomness.e4,
        o.receiver_preimage.e0, o.receiver_preimage.e1, o.receiver_preimage.e2,
        o.receiver_preimage.e3, o.receiver_preimage.e4,
    ];
    input.push(9);
    input.push(0);
    assert_eq!(seed, hash_varlen(&input));
    let large = index_seed(&o.item, &o.sender_randomness, &o.receiver_preimage, (7 << 32) + 5);
    let len = input.len();
    input[len - 2] = 5;
    input[len - 1] = 7;
    assert_eq!(large, hash_varlen(&input));

    let indices = compute_index_set(&params, &o.item, &o.sender_randomness, &o.receiver_preimage, 9);
    assert_eq!(indices, indices_of_seed(&params, &seed, 9));
    for (trial, index) in indices.iter().enumerate() {
        let drawn = hash_varlen(&vec![seed.e0, seed.e1, seed.e2, seed.e3, seed.e4, trial as u64]).e0 % 1000;
        assert_eq!(*index, 20 + drawn as u128);
    }
}

#[test]
fn index_set_depends_on_every_input() {
    let params = Params::new(1 << 20, 1 << 12, 8, 45).unwrap();
    let o = opening(1);
    let base = compute_index_set(&params, &o.item, &o.sender_randomness, &o.receiver_preimage, 5);
    assert_eq!(base.len(), 45);
    let other_item = compute_index_set(&params, &digest(7), &o.sender_randomness, &o.receiver_preimage, 5);
    let other_randomness = compute_index_set(&params, &o.item, &digest(7), &o.receiver_preimage, 5);
    let other_preimage = compute_index_set(&params, &o.item, &o.sender_randomness, &digest(7), 5);
    let other_leaf = compute_index_set(&params, &o.item, &o.sender_randomness, &o.receiver_preimage, 6);
    assert_ne!(base, other_item);
    assert_ne!(base, other_randomness);
    assert_ne!(base, other_preimage);
    assert_ne!(base, other_leaf);
}

#[test]
fn commitment_is_a_chain_of_two_hashes() {
    let o = opening(3);
    let receiver = hash_pair(&o.receiver_preimage, &Digest { e0: 0, e1: 0, e2: 0, e3: 0, e4: 0 });
    assert_eq!(receiver_digest(&o.receiver_preimage), receiver);
    let expected = hash_pair(&hash_pair(&o.item, &o.sender_randomness), &receiver);
    assert_eq!(commitment(&o), expected);
}

#[test]
fn round_trip_on_the_light_form() {
    let mut set = MutatorSetAccumulator::new(small()).unwrap();
    for seed in 1..40u64 {
        let o = opening(seed);
        let record = set.add(commitment(&o));
        assert_eq!(record.canonical_commitment, commitment(&o));
        let proof = set
            .prove_membership(&o.item, &o.sender_randomness, &o.receiver_preimage, seed - 1)
            .unwrap();
        assert!(set.verify(&o.item, &proof));
        assert!(!set.verify(&digest(5), &proof));
    }
}

#[test]
fn light_form_proves_the_last_item_only() {
    let mut set = MutatorSetAccumulator::new(small()).unwrap();
    let o = opening(1);
    assert_eq!(
        set.prove_membership(&o.item, &o.sender_randomness, &o.receiver_preimage, 0).err(),
        Some(MutatorSetError::IndexOutOfRange)
    );
    set.add(commitment(&o));
    set.add(commitment(&opening(2)));
    assert_eq!(
        set.prove_membership(&o.item, &o.sender_randomness, &o.receiver_preimage, 0).err(),
        Some(MutatorSetError::LeafNotRetained)
    );
    assert_eq!(
        set.prove_membership(&o.item, &o.sender_randomness, &o.receiver_preimage, 2).err(),
        Some(MutatorSetError::IndexOutOfRange)
    );
    assert!(set.prove_membership(&o.item, &o.sender_randomness, &o.receiver_preimage, 1).is_ok());
}

#[test]
fn round_trip_on_the_full_form() {
    let mut set = ArchivalMutatorSet::new(small()).unwrap();
    let mut openings = Vec::new();
    for seed in 1..40u64 {
        let o = opening(seed);
        set.add(commitment(&o));
        openings.push(o);
        for (leaf_index, o) in openings.iter().enumerate() {
            let proof = set
                .prove_membership(&o.item, &o.sender_randomness, &o.receiver_preimage, leaf_index as u64)
                .unwrap();
            assert!(set.verify(&o.item, &proof));
            assert!(set.accumulator().verify(&o.item, &proof));
        }
    }
}

#[test]
fn scenario_add_three_remove_the_second() {
    let params = small();
    let mut set = ArchivalMutatorSet::new(params).unwrap();
    let mut light = MutatorSetAccumulator::new(params).unwrap();
    let a = opening(1);
    let b = opening(2);
    let c = opening(3);
    for o in [&a, &b, &c] {
        set.add(commitment(o));
        light.add(commitment(o));
    }
    assert_eq!(set.accumulator_digest(), light.accumulator_digest());
    let proof_a = set.prove_membership(&a.item, &a.sender_randomness, &a.receiver_preimage, 0).unwrap();
    let proof_b = set.prove_membership(&b.item, &b.sender_randomness, &b.receiver_preimage, 1).unwrap();
    let proof_c = set.prove_membership(&c.item, &c.sender_randomness, &c.receiver_preimage, 2).unwrap();
    assert!(set.verify(&a.item, &proof_a));
    assert!(set.verify(&b.item, &proof_b));
    assert!(set.verify(&c.item, &proof_c));
    assert!(light.verify(&a.item, &proof_a));
    assert!(light.verify(&b.item, &proof_b));
    assert!(light.verify(&c.item, &proof_c));

    let before = set.accumulator_digest();
    let record = record_for(&params, &b, &proof_b);
    let updated_a = light.update_from_removal(&proof_a, &record).unwrap();
    let updated_c = light.update_from_removal(&proof_c, &record).unwrap();
    assert_eq!(set.remove(&record), Ok(()));
    assert_eq!(light.remove(&record), Ok(()));

    assert!(set.verify(&a.item, &updated_a));
    assert!(set.verify(&c.item, &updated_c));
    assert!(light.verify(&a.item, &updated_a));
    assert!(light.verify(&c.item, &updated_c));
    assert!(!set.verify(&b.item, &proof_b));
    assert!(!light.verify(&b.item, &proof_b));
    assert_ne!(set.accumulator_digest(), before);
    assert_eq!(set.accumulator_digest(), light.accumulator_digest());

    assert_eq!(set.remove(&record), Err(MutatorSetError::AlreadySpent));
    assert_eq!(light.remove(&record), Err(MutatorSetError::AlreadySpent));
    assert_eq!(
        set.restore_membership_proof(&b.item, &b.sender_randomness, &b.receiver_preimage, 1).err(),
        Some(MutatorSetError::AlreadySpent)
    );
}

#[test]
fn first_chunk_is_kept_after_window_and_chunk() {
    let params = small();
    let mut set = ArchivalMutatorSet::new(params).unwrap();
    assert_eq!(set.num_chunks(), 0);
    for seed in 0..(64 + 8) as u64 {
        set.add(commitment(&opening(seed)));
    }
    assert_eq!(set.num_leafs(), 72);
    assert_eq!(set.num_chunks(), 35);
    for index in 0..8u128 {
        assert_eq!(set.get_bit(index), Ok(false));
    }
    let end = 35 * 8 + 64;
    assert_eq!(set.get_bit(end - 1), Ok(false));
    assert_eq!(set.get_bit(end), Err(MutatorSetError::IndexOutOfRange));
}

#[test]
fn window_slides_when_a_batch_begins() {
    let params = Params::new(16, 4, 3, 2).unwrap();
    let mut set = ArchivalMutatorSet::new(params).unwrap();
    let mut light = MutatorSetAccumulator::new(params).unwrap();
    let expected_chunks = [0usize, 0, 0, 1, 1, 1, 2, 2, 2, 3];
    for (added, chunks) in expected_chunks.iter().enumerate() {
        set.add(commitment(&opening(added as u64)));
        light.add(commitment(&opening(added as u64)));
        assert_eq!(set.num_chunks(), *chunks);
        assert_eq!(light.chunk_peaks().num_leafs(), *chunks as u64);
        assert_eq!(light.window_start(), *chunks as u128 * 4);
        assert_eq!(light.window().len(), 16);
    }
}

#[test]
fn light_form_keeps_no_chunk() {
    let params = Params::new(16, 4, 1, 2).unwrap();
    let mut light = MutatorSetAccumulator::new(params).unwrap();
    for seed in 0..5u64 {
        light.add(commitment(&opening(seed)));
    }
    assert_eq!(light.window_start(), 16);
    assert_eq!(light.get_bit(15), Err(MutatorSetError::ChunkNotFound));
    assert_eq!(light.get_bit(16), Ok(false));
    assert_eq!(light.get_bit(31), Ok(false));
    assert_eq!(light.get_bit(32), Err(MutatorSetError::IndexOutOfRange));
}

#[test]
fn proofs_follow_the_set_on_the_light_form() {
    let params = small();
    let mut set = ArchivalMutatorSet::new(params).unwrap();
    let mut light = MutatorSetAccumulator::new(params).unwrap();
    let mut held: Vec<(Opening, MembershipProof)> = Vec::new();
    let mut removed = 0;
    for seed in 1..80u64 {
        let o = opening(seed);
        let c = commitment(&o);
        for (_, proof) in held.iter_mut() {
            *proof = light.update_from_addition(proof, &c);
        }
        light.add(c);
        set.add(c);
        let proof = light
            .prove_membership(&o.item, &o.sender_randomness, &o.receiver_preimage, seed - 1)
            .unwrap();
        held.push((o, proof));
        if seed % 5 == 0 {
            let (spent, spent_proof) = held.remove(held.len() / 2);
            let record = record_for(&params, &spent, &spent_proof);
            for (_, proof) in held.iter_mut() {
                *proof = light.update_from_removal(proof, &record).unwrap();
            }
            let outcome = light.remove(&record);
            assert_eq!(set.remove(&record), outcome);
            removed += 1;
            assert!(!light.verify(&spent.item, &spent_proof));
        }
        assert_eq!(light.accumulator_digest(), set.accumulator_digest());
        for (o, proof) in held.iter() {
            let indices = compute_index_set(
                &params,
                &o.item,
                &o.sender_randomness,
                &o.receiver_preimage,
                proof.aocl_leaf_index,
            );
            let untouched = indices.iter().all(|i| set.get_bit(*i) == Ok(false));
            assert_eq!(light.verify(&o.item, proof), untouched);
            assert_eq!(set.verify(&o.item, proof), untouched);
        }
    }
    assert_eq!(removed, 15);
}

#[test]
fn update_membership_proof_replays_a_log() {
    let params = small();
    let mut light = MutatorSetAccumulator::new(params).unwrap();
    let first = opening(1);
    light.add(commitment(&first));
    let start = light.clone();
    let proof = light
        .prove_membership(&first.item, &first.sender_randomness, &first.receiver_preimage, 0)
        .unwrap();
    let mut log = Vec::new();
    for seed in 2..30u64 {
        let c = commitment(&opening(seed));
        light.add(c);
        log.push(Operation::Addition(c));
    }
    assert!(!light.verify(&first.item, &proof));
    let updated = start.update_membership_proof(&proof, &log).unwrap();
    assert!(light.verify(&first.item, &updated));
    assert!(!updated.chunk_proofs.is_empty());
}

#[test]
fn update_membership_proof_gives_up_on_a_bad_record() {
    let params = small();
    let mut light = MutatorSetAccumulator::new(params).unwrap();
    let first = opening(1);
    light.add(commitment(&first));
    let proof = light
        .prove_membership(&first.item, &first.sender_randomness, &first.receiver_preimage, 0)
        .unwrap();
    let beyond = RemovalRecord { index_set: vec![64], chunk_proofs: Vec::new() };
    let log = vec![Operation::Removal(beyond)];
    assert_eq!(
        light.update_membership_proof(&proof, &log).err(),
        Some(MutatorSetError::CannotUpdate)
    );
    let fine = RemovalRecord { index_set: vec![63], chunk_proofs: Vec::new() };
    let log = vec![Operation::Removal(fine)];
    assert!(light.update_membership_proof(&proof, &log).is_ok());
}

#[test]
fn removal_is_turned_down_without_a_change() {
    let params = Params::new(16, 4, 1, 2).unwrap();
    let mut set = ArchivalMutatorSet::new(params).unwrap();
    let mut light = MutatorSetAccumulator::new(params).unwrap();
    for seed in 0..4u64 {
        set.add(commitment(&opening(seed)));
        light.add(commitment(&opening(seed)));
    }
    assert_eq!(light.window_start(), 12);
    let before = light.accumulator_digest();

    let beyond = RemovalRecord { index_set: vec![13, 28], chunk_proofs: Vec::new() };
    assert_eq!(light.remove(&beyond), Err(MutatorSetError::IndexOutOfRange));
    assert_eq!(set.remove(&beyond), Err(MutatorSetError::IndexOutOfRange));
    assert_eq!(light.accumulator_digest(), before);
    assert_eq!(set.accumulator_digest(), before);
    assert_eq!(light.get_bit(13), Ok(false));

    let uncovered = RemovalRecord { index_set: vec![13, 5], chunk_proofs: Vec::new() };
    assert_eq!(light.remove(&uncovered), Err(MutatorSetError::BadChunkProof));
    assert_eq!(light.accumulator_digest(), before);
    assert_eq!(light.get_bit(13), Ok(false));

    let o = opening(0);
    let proof = set.prove_membership(&o.item, &o.sender_randomness, &o.receiver_preimage, 0).unwrap();
    let mut record = record_for(&params, &o, &proof);
    if !record.chunk_proofs.is_empty() {
        let flipped = !record.chunk_proofs[0].chunk[0];
        record.chunk_proofs[0].chunk[0] = flipped;
        assert_eq!(light.remove(&record), Err(MutatorSetError::BadChunkProof));
        assert_eq!(light.accumulator_digest(), before);
    }
}

#[test]
fn restoration_gives_the_same_proof_twice() {
    let params = small();
    let mut set = ArchivalMutatorSet::new(params).unwrap();
    let mut openings = Vec::new();
    for seed in 1..50u64 {
        let o = opening(seed);
        set.add(commitment(&o));
        openings.push(o);
    }
    let light = set.accumulator();
    for (leaf_index, o) in openings.iter().enumerate() {
        let one = set
            .restore_membership_proof(&o.item, &o.sender_randomness, &o.receiver_preimage, leaf_index as u64)
            .unwrap();
        let two = set
            .restore_membership_proof(&o.item, &o.sender_randomness, &o.receiver_preimage, leaf_index as u64)
            .unwrap();
        assert!(set.verify(&o.item, &one));
        assert!(set.verify(&o.item, &two));
        assert!(light.verify(&o.item, &one));
        assert!(light.verify(&o.item, &two));
        assert_eq!(one.aocl_auth_path, two.aocl_auth_path);
        assert_eq!(one.index_set_seed, two.index_set_seed);
        assert_eq!(one.chunk_proofs.len(), two.chunk_proofs.len());
    }
}

#[test]
fn restoration_fails_for_a_leaf_that_is_not_kept() {
    let mut set = ArchivalMutatorSet::new(small()).unwrap();
    let o = opening(1);
    set.add(commitment(&o));
    assert_eq!(
        set.restore_membership_proof(&o.item, &o.sender_randomness, &o.receiver_preimage, 1).err(),
        Some(MutatorSetError::LeafPruned)
    );
    assert_eq!(
        set.restore_membership_proof(&digest(9), &o.sender_randomness, &o.receiver_preimage, 0).err(),
        Some(MutatorSetError::LeafPruned)
    );
    assert_eq!(
        set.prove_membership(&o.item, &o.sender_randomness, &o.receiver_preimage, 1).err(),
        Some(MutatorSetError::IndexOutOfRange)
    );
    assert_eq!(set.get_leaf(0), Ok(commitment(&o)));
    assert_eq!(set.get_leaf(1), Err(MutatorSetError::IndexOutOfRange));
}

#[test]
fn digest_is_the_same_for_the_same_operations() {
    let params = small();
    let mut one = MutatorSetAccumulator::new(params).unwrap();
    let mut two = MutatorSetAccumulator::new(params).unwrap();
    assert_eq!(one.accumulator_digest(), two.accumulator_digest());
    for seed in 1..20u64 {
        one.add(commitment(&opening(seed)));
        two.add(commitment(&opening(seed)));
        assert_eq!(one.accumulator_digest(), two.accumulator_digest());
    }
    let record = RemovalRecord { index_set: vec![80, 81], chunk_proofs: Vec::new() };
    assert_eq!(one.remove(&record), Ok(()));
    assert_ne!(one.accumulator_digest(), two.accumulator_digest());
    assert_eq!(two.remove(&record), Ok(()));
    assert_eq!(one.accumulator_digest(), two.accumulator_digest());
}

#[test]
fn digest_depends_on_the_order_of_additions() {
    let params = small();
    let mut one = MutatorSetAccumulator::new(params).unwrap();
    let mut two = MutatorSetAccumulator::new(params).unwrap();
    one.add(commitment(&opening(1)));
    one.add(commitment(&opening(2)));
    two.add(commitment(&opening(2)));
    two.add(commitment(&opening(1)));
    assert_ne!(one.accumulator_digest(), two.accumulator_digest());
}

#[test]
fn block_is_applied_as_one() {
    let params = small();
    let mut one = MutatorSetAccumulator::new(params).unwrap();
    let mut two = MutatorSetAccumulator::new(params).unwrap();
    let fine = vec![
        Operation::Addition(commitment(&opening(1))),
        Operation::Addition(commitment(&opening(2))),
        Operation::Removal(RemovalRecord { index_set: vec![23, 24], chunk_proofs: Vec::new() }),
        Operation::Addition(commitment(&opening(3))),
    ];
    assert_eq!(one.apply_block(&fine), Ok(()));
    two.add(commitment(&opening(1)));
    two.add(commitment(&opening(2)));
    assert_eq!(two.remove(&RemovalRecord { index_set: vec![23, 24], chunk_proofs: Vec::new() }), Ok(()));
    two.add(commitment(&opening(3)));
    assert_eq!(one.accumulator_digest(), two.accumulator_digest());
    assert_eq!(one.aocl().num_leafs(), 3);

    let before = one.accumulator_digest();
    let twice = vec![
        Operation::Addition(commitment(&opening(4))),
        Operation::Removal(RemovalRecord { index_set: vec![40, 24], chunk_proofs: Vec::new() }),
    ];
    assert_eq!(one.get_bit(24), Ok(true));
    assert_eq!(one.apply_block(&twice), Err(MutatorSetError::AlreadySpent));
    assert_eq!(one.accumulator_digest(), before);
    assert_eq!(one.aocl().num_leafs(), 3);
    assert_eq!(one.get_bit(40), Ok(false));

    let beyond = vec![
        Operation::Addition(commitment(&opening(4))),
        Operation::Removal(RemovalRecord { index_set: vec![10_000], chunk_proofs: Vec::new() }),
    ];
    assert_eq!(one.apply_block(&beyond), Err(MutatorSetError::IndexOutOfRange));
    assert_eq!(one.accumulator_digest(), before);

    let uncovered = vec![
        Operation::Addition(commitment(&opening(4))),
        Operation::Addition(commitment(&opening(5))),
        Operation::Removal(RemovalRecord { index_set: vec![0], chunk_proofs: Vec::new() }),
    ];
    assert_eq!(one.apply_block(&uncovered), Err(MutatorSetError::BadChunkProof));
    assert_eq!(one.accumulator_digest(), before);
    assert_eq!(one.apply_block(&Vec::new()), Ok(()));
    assert_eq!(one.accumulator_digest(), before);
}

fn accepts_with<S: MutatorSet>(set: &S, item: &Digest, proof: &MembershipProof) -> (bool, Digest) {
    (set.verify(item, proof), set.accumulator_digest())
}

#[test]
fn both_forms_answer_through_one_interface() {
    let params = small();
    let mut full = ArchivalMutatorSet::new(params).unwrap();
    let mut light = MutatorSetAccumulator::new(params).unwrap();
    let o = opening(1);
    full.add(commitment(&o));
    light.add(commitment(&o));
    let proof = Restore::restore_membership_proof(
        &full,
        &o.item,
        &o.sender_randomness,
        &o.receiver_preimage,
        0,
    )
    .unwrap();
    let (by_full, digest_of_full) = accepts_with(&full, &o.item, &proof);
    let (by_light, digest_of_light) = accepts_with(&light, &o.item, &proof);
    assert!(by_full);
    assert!(by_light);
    assert_eq!(digest_of_full, digest_of_light);
    assert_eq!(digest_of_full, full.accumulator_digest());
    assert!(!accepts_with(&full, &digest(7), &proof).0);
    assert!(!accepts_with(&light, &digest(7), &proof).0);
    assert!(Restore::restore_membership_proof(&full, &digest(7), &o.sender_randomness, &o.receiver_preimage, 0).is_err());
}
