use mutator_set::digest::hash_varlen;
use mutator_set::swbf::bits::any_marked;
use mutator_set::swbf::bits::copy_bits;
use mutator_set::swbf::bits::digest_of_bits;
use mutator_set::swbf::bits::leaving_chunk;
use mutator_set::swbf::bits::mark;
use mutator_set::swbf::bits::set_bits;
use mutator_set::swbf::bits::slide_window;
use mutator_set::swbf::bits::zero_bits;
use mutator_set::swbf::params::Params;

#[test]
fn bits_are_hashed_by_the_places_that_are_set() {
    let bits = vec![false, true, true, false, true];
    assert_eq!(digest_of_bits(&bits), hash_varlen(&vec![1, 2, 4]));
    assert_eq!(digest_of_bits(&zero_bits(100)), hash_varlen(&Vec::new()));
    assert_eq!(digest_of_bits(&Vec::new()), hash_varlen(&Vec::new()));
    assert_ne!(digest_of_bits(&bits), digest_of_bits(&vec![false, true, true, false, false]));
}

#[test]
fn zero_bits_are_all_unset() {
    assert_eq!(zero_bits(0), Vec::<bool>::new());
    assert_eq!(zero_bits(3), vec![false, false, false]);
    assert_eq!(copy_bits(&vec![true, false]), vec![true, false]);
}

#[test]
fn mark_sets_the_bits_within_the_row() {
    let mut bits = zero_bits(8);
    mark(&mut bits, 100, &vec![99, 100, 103, 107, 108, 103, u128::MAX, 0]);
    assert_eq!(bits, vec![true, false, false, true, false, false, false, true]);
    mark(&mut bits, 100, &vec![101]);
    assert_eq!(bits, vec![true, true, false, true, false, false, false, true]);
    mark(&mut bits, 100, &Vec::new());
    assert_eq!(bits, vec![true, true, false, true, false, false, false, true]);
}

#[test]
fn any_marked_reads_the_bits_within_the_row() {
    let bits = vec![false, true, false];
    assert!(!any_marked(&bits, 10, &vec![10, 12, 13, 9, 1]));
    assert!(any_marked(&bits, 10, &vec![10, 11]));
    assert!(!any_marked(&bits, 10, &Vec::new()));
    assert!(!any_marked(&bits, 0, &vec![11]));
    assert!(any_marked(&bits, 0, &vec![1]));
}

#[test]
fn set_bits_says_whether_one_was_set_already() {
    let mut bits = zero_bits(4);
    assert!(!set_bits(&mut bits, 0, &vec![1, 3]));
    assert_eq!(bits, vec![false, true, false, true]);
    assert!(set_bits(&mut bits, 0, &vec![0, 1]));
    assert_eq!(bits, vec![true, true, false, true]);
    assert!(set_bits(&mut bits, 0, &vec![0, 1]));
    assert_eq!(bits, vec![true, true, false, true]);
    // setting a bit twice in one go is no second spending
    let mut bits = zero_bits(4);
    assert!(!set_bits(&mut bits, 0, &vec![2, 2]));
    assert!(!set_bits(&mut bits, 0, &vec![4, 5]));
    assert_eq!(bits, vec![false, false, true, false]);
}

#[test]
fn window_slides_by_one_chunk() {
    let mut window = vec![true, false, true, true, false, true];
    assert_eq!(leaving_chunk(&window, 2), vec![true, false]);
    assert_eq!(leaving_chunk(&window, 0), Vec::<bool>::new());
    let chunk = slide_window(&mut window, 2);
    assert_eq!(chunk, vec![true, false]);
    assert_eq!(window, vec![true, true, false, true, false, false]);
    let chunk = slide_window(&mut window, 6);
    assert_eq!(chunk, vec![true, true, false, true, false, false]);
    assert_eq!(window, zero_bits(6));
    let chunk = slide_window(&mut window, 0);
    assert!(chunk.is_empty());
    assert_eq!(window, zero_bits(6));
}

#[test]
fn window_slides_as_batches_begin() {
    let params = Params::new(8, 2, 3, 1).unwrap();
    assert!(params.is_valid());
    let slides: Vec<bool> = (0..8u64).map(|i| params.window_slides(i)).collect();
    assert_eq!(slides, vec![false, false, false, true, false, false, true, false]);
    let every = Params::new(8, 2, 1, 1).unwrap();
    assert!(!every.window_slides(0));
    assert!(every.window_slides(1));
    assert!(every.window_slides(u64::MAX));
}
