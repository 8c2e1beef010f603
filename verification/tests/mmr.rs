use mutator_set::digest::hash_pair;
use mutator_set::digest::Digest;
use mutator_set::error::MutatorSetError;
use mutator_set::mmr::accumulator::climb_path;
use mutator_set::mmr::accumulator::reroute_path;
use mutator_set::mmr::accumulator::MmrAccumulator;
use mutator_set::mmr::archival::ArchivalMmr;

fn leaf(n: u64) -> Digest {
    Digest { e0: n, e1: 0, e2: 0, e3: 0, e4: n * n }
}

#[test]
fn empty_range_has_no_peaks() {
    let range = MmrAccumulator::new();
    assert_eq!(range.num_leafs(), 0);
    assert!(range.peaks().is_empty());
    assert!(range.next_path().is_empty());
    assert!(!range.verify(0, &leaf(0), &Vec::new()));
    let full = ArchivalMmr::new();
    assert_eq!(full.num_leafs(), 0);
    assert_eq!(full.get_leaf(0), Err(MutatorSetError::IndexOutOfRange));
    assert_eq!(full.authentication_path(0).err(), Some(MutatorSetError::IndexOutOfRange));
    assert!(full.accumulator().peaks().is_empty());
}

#[test]
fn peaks_are_the_roots_of_the_trees() {
    let mut range = MmrAccumulator::new();
    assert_eq!(range.append(leaf(0)), 0);
    assert_eq!(range.peaks(), &vec![Some(leaf(0))]);
    assert_eq!(range.append(leaf(1)), 1);
    let h01 = hash_pair(&leaf(0), &leaf(1));
    assert_eq!(range.peaks(), &vec![None, Some(h01)]);
    assert_eq!(range.append(leaf(2)), 2);
    assert_eq!(range.peaks(), &vec![Some(leaf(2)), Some(h01)]);
    assert_eq!(range.next_path(), vec![leaf(2), h01]);
    assert_eq!(range.append(leaf(3)), 3);
    let h23 = hash_pair(&leaf(2), &leaf(3));
    assert_eq!(range.peaks(), &vec![None, None, Some(hash_pair(&h01, &h23))]);
    assert_eq!(range.num_leafs(), 4);
}

#[test]
fn light_range_keeps_no_leaf() {
    let mut range = MmrAccumulator::new();
    range.append(leaf(0));
    assert_eq!(range.get_leaf(0), Err(MutatorSetError::LeafNotRetained));
    assert_eq!(range.get_leaf(1), Err(MutatorSetError::IndexOutOfRange));
}

#[test]
fn paths_of_the_full_range_are_accepted_by_the_light_one() {
    let mut full = ArchivalMmr::new();
    let mut light = MmrAccumulator::new();
    for n in 0..70u64 {
        let fresh = light.next_path();
        assert_eq!(full.append(leaf(n)), n);
        assert_eq!(light.append(leaf(n)), n);
        assert_eq!(full.accumulator().peaks(), light.peaks());
        assert_eq!(full.num_leafs() as u64, light.num_leafs());
        assert_eq!(full.authentication_path(n).unwrap(), fresh);
        for i in 0..=n {
            let path = full.authentication_path(i).unwrap();
            assert_eq!(full.get_leaf(i), Ok(leaf(i)));
            assert!(light.verify(i, &leaf(i), &path));
            assert!(!light.verify(i, &leaf(i + 1), &path));
            if n > 0 {
                assert!(!light.verify((i + 1) % (n + 1), &leaf(i), &path));
            }
        }
        assert!(full.authentication_path(n + 1).is_err());
        assert!(!light.verify(n + 1, &leaf(n + 1), &Vec::new()));
    }
}

#[test]
fn paths_are_extended_for_an_append() {
    let mut full = ArchivalMmr::new();
    let mut light = MmrAccumulator::new();
    let mut paths: Vec<Vec<Digest>> = Vec::new();
    for n in 0..50u64 {
        for path in paths.iter_mut() {
            *path = light.extend_path(&leaf(n), path);
        }
        paths.push(light.next_path());
        full.append(leaf(n));
        light.append(leaf(n));
        for (i, path) in paths.iter().enumerate() {
            assert_eq!(path, &full.authentication_path(i as u64).unwrap());
        }
    }
}

#[test]
fn replaced_leaf_changes_one_peak_and_reroutes_paths() {
    let mut full = ArchivalMmr::new();
    for n in 0..23u64 {
        full.append(leaf(n));
    }
    for changed in [0u64, 5, 15, 16, 21, 22] {
        let mut light = full.accumulator();
        let before: Vec<Vec<Digest>> =
            (0..23u64).map(|i| full.authentication_path(i).unwrap()).collect();
        let fresh = leaf(1000 + changed);
        light.replace_leaf(changed, &before[changed as usize], &fresh);
        assert_eq!(full.replace_leaf(changed, fresh), Ok(()));
        assert_eq!(full.get_leaf(changed), Ok(fresh));
        assert_eq!(full.accumulator().peaks(), light.peaks());
        for i in 0..23u64 {
            let rerouted = reroute_path(&before[i as usize], i, &before[changed as usize], changed, &fresh);
            assert_eq!(rerouted, full.authentication_path(i).unwrap());
            assert!(light.verify(i, &full.get_leaf(i).unwrap(), &rerouted));
        }
    }
    assert_eq!(full.replace_leaf(23, leaf(0)), Err(MutatorSetError::IndexOutOfRange));
}

#[test]
fn climb_hashes_left_and_right() {
    let a = leaf(1);
    let b = leaf(2);
    let c = leaf(3);
    assert_eq!(climb_path(&a, 6, &Vec::new()), a);
    assert_eq!(climb_path(&a, 6, &vec![b]), hash_pair(&a, &b));
    assert_eq!(climb_path(&a, 7, &vec![b]), hash_pair(&b, &a));
    assert_eq!(climb_path(&a, 2, &vec![b, c]), hash_pair(&c, &hash_pair(&a, &b)));
    assert_eq!(climb_path(&a, 1, &vec![b, c]), hash_pair(&hash_pair(&b, &a), &c));
}

#[test]
fn bagged_peaks_tell_ranges_apart() {
    let mut one = MmrAccumulator::new();
    let mut two = MmrAccumulator::new();
    assert_eq!(one.bag_peaks(), two.bag_peaks());
    one.append(leaf(1));
    assert_ne!(one.bag_peaks(), two.bag_peaks());
    two.append(leaf(1));
    assert_eq!(one.bag_peaks(), two.bag_peaks());
    one.append(leaf(2));
    two.append(leaf(3));
    assert_ne!(one.bag_peaks(), two.bag_peaks());
    assert_eq!(one.clone().bag_peaks(), one.bag_peaks());
}
