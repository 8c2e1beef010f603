use mutator_set::digest::Digest;
use mutator_set::mutator_set::archival::ArchivalMutatorSet;
use mutator_set::mutator_set::commitment::commit;
use mutator_set::mutator_set::commitment::compute_index_set;
use mutator_set::mutator_set::commitment::receiver_digest;
use mutator_set::mutator_set::removal_record::RemovalRecord;
use mutator_set::rpc::block_selector::BlockSelector;
use mutator_set::rpc::block_selector::BlockSelectorExtended;
use mutator_set::rpc::block_selector::BlockSelectorParseError;
use mutator_set::rpc::block_selector::HeightOrDigest;
use mutator_set::rpc::blocks::block_time;
use mutator_set::rpc::blocks::has_zero_prefix;
use mutator_set::rpc::blocks::last_heights;
use mutator_set::rpc::blocks::nonce_report;
use mutator_set::rpc::blocks::owner_blocks;
use mutator_set::rpc::blocks::report_summary;
use mutator_set::rpc::blocks::sibling_blocks;
use mutator_set::rpc::blocks::GuessedBlock;
use mutator_set::rpc::membership::generate_restore_membership_proof;
use mutator_set::rpc::membership::get_utxo_digest;
use mutator_set::rpc::membership::RequestMsMembershipProofEx;
use mutator_set::rpc::mempool::get_mempool;
use mutator_set::rpc::mempool::page;
use mutator_set::rpc::mempool::MempoolTransaction;
use mutator_set::rpc::send::calculate_utxo_commitment;
use mutator_set::rpc::send::check_fee_address;
use mutator_set::rpc::send::send_transaction;
use mutator_set::rpc::send::RestError;
use mutator_set::rpc::send::SendFacts;
use mutator_set::rpc::send::FEE_ADDRESS;
use mutator_set::rpc::status::get_transaction_status;
use mutator_set::rpc::status::TransactionStatus;
use mutator_set::swbf::params::Params;
use mutator_set::text::to_hex;

fn digest(seed: u64) -> Digest {
    Digest { e0: seed, e1: seed + 1, e2: seed + 2, e3: seed + 3, e4: seed + 4 }
}

#[test]
fn height_or_digest_reads_a_number_first() {
    assert_eq!(HeightOrDigest::from_str("17"), Ok(HeightOrDigest::Height(17)));
    assert_eq!(HeightOrDigest::from_str("0"), Ok(HeightOrDigest::Height(0)));
    let hex = to_hex(&digest(5));
    assert_eq!(HeightOrDigest::from_str(&hex), Ok(HeightOrDigest::Digest(digest(5))));
    assert_eq!(HeightOrDigest::from_str("tip"), Err(BlockSelectorParseError::InvalidDigest));
    assert_eq!(HeightOrDigest::from_str(""), Err(BlockSelectorParseError::InvalidDigest));
    assert_eq!("17".parse::<HeightOrDigest>(), Ok(HeightOrDigest::Height(17)));
    assert_eq!("x".parse::<HeightOrDigest>(), Err(BlockSelectorParseError::InvalidDigest));
    assert_eq!(HeightOrDigest::Height(17).into_selector(), BlockSelector::Height(17));
    assert_eq!(HeightOrDigest::Digest(digest(1)).into_selector(), BlockSelector::Digest(digest(1)));
}

#[test]
fn height_or_digest_is_shown_as_text() {
    assert_eq!(HeightOrDigest::Height(0).to_text(), "0");
    assert_eq!(HeightOrDigest::Height(1234567890).to_text(), "1234567890");
    assert_eq!(HeightOrDigest::Height(u64::MAX).to_text(), "18446744073709551615");
    assert_eq!(HeightOrDigest::Digest(digest(10)).to_text(), "10,11,12,13,14");
    let large = Digest { e0: 1 << 40, e1: 0xffff_ffff_0000_0000, e2: 257, e3: 256, e4: 0 };
    let shown = twenty_first::prelude::Digest::new([
        twenty_first::prelude::BFieldElement::new(1 << 40),
        twenty_first::prelude::BFieldElement::new(0xffff_ffff_0000_0000),
        twenty_first::prelude::BFieldElement::new(257),
        twenty_first::prelude::BFieldElement::new(256),
        twenty_first::prelude::BFieldElement::new(0),
    ])
    .to_string();
    assert_eq!(HeightOrDigest::Digest(large).to_text(), shown);
    assert_ne!(HeightOrDigest::Digest(large).to_text(), HeightOrDigest::Digest(digest(10)).to_text());
}

#[test]
fn extended_selector_takes_a_plain_one_as_it_is() {
    let plain = Ok(BlockSelector::Tip);
    assert_eq!(
        BlockSelectorExtended::from_str("tip", plain),
        Ok(BlockSelectorExtended(BlockSelector::Tip))
    );
    assert_eq!(
        BlockSelectorExtended::from_str("height_or_digest/12", Ok(BlockSelector::Genesis)),
        Ok(BlockSelectorExtended(BlockSelector::Genesis))
    );
}

#[test]
fn extended_selector_reads_height_or_digest() {
    let plain = Err(BlockSelectorParseError::InvalidSelector);
    assert_eq!(
        BlockSelectorExtended::from_str("height_or_digest/12", plain),
        Ok(BlockSelectorExtended(BlockSelector::Height(12)))
    );
    let hex = to_hex(&digest(9));
    let text = format!("height_or_digest/{}", hex);
    assert_eq!(
        BlockSelectorExtended::from_str(&text, plain),
        Ok(BlockSelectorExtended(BlockSelector::Digest(digest(9))))
    );
    assert_eq!(
        BlockSelectorExtended::from_str("height_or_digest/nothing", plain),
        Err(BlockSelectorParseError::InvalidDigest)
    );
    assert_eq!(
        BlockSelectorExtended::from_str("height_or_digest/", plain),
        Err(BlockSelectorParseError::InvalidDigest)
    );
    for text in [
        "",
        "12",
        "height_or_digest",
        "height_or_digest/12/13",
        "height_or_digest//12",
        "height_or_digestx/12",
        "height_or_diges/12",
        "Height_or_digest/12",
        "/height_or_digest/12",
        "height/12",
        "/",
    ] {
        assert_eq!(
            BlockSelectorExtended::from_str(text, plain),
            Err(BlockSelectorParseError::InvalidSelector)
        );
    }
    assert_eq!(
        BlockSelectorExtended::from(BlockSelector::Height(3)).into_selector(),
        BlockSelector::Height(3)
    );
    assert_eq!(
        BlockSelectorExtended::from(HeightOrDigest::Height(3)),
        BlockSelectorExtended(BlockSelector::Height(3))
    );
    assert_eq!(
        BlockSelector::from(BlockSelectorExtended(BlockSelector::Tip)),
        BlockSelector::Tip
    );
    assert_eq!(
        BlockSelector::from(HeightOrDigest::Digest(digest(4))),
        BlockSelector::Digest(digest(4))
    );
}

#[test]
fn send_transaction_names_the_first_check_that_fails() {
    let fee = digest(50);
    let outputs = vec![digest(1), fee, digest(2)];
    let none: Vec<Digest> = vec![digest(1), digest(2)];

    let wrong_address = SendFacts { fee_address: "nolgam1", fee_commitment: fee, outputs: &none, block_height: 9 };
    let answer = send_transaction(&wrong_address, 10);
    assert_eq!(answer.status, 1);
    assert_eq!(answer.message, "fee_address is not valid");

    let unpaid = SendFacts { fee_address: FEE_ADDRESS, fee_commitment: fee, outputs: &none, block_height: 9 };
    let answer = send_transaction(&unpaid, 10);
    assert_eq!(answer.status, 2);
    assert_eq!(answer.message, "Failed to pay the priority fee");

    let old = SendFacts { fee_address: FEE_ADDRESS, fee_commitment: fee, outputs: &outputs, block_height: 9 };
    let answer = send_transaction(&old, 10);
    assert_eq!(answer.status, 3);
    assert_eq!(
        answer.message,
        "Transaction expired. Please sync to the latest block height first. current block height: 10"
    );

    let fine = SendFacts { fee_address: FEE_ADDRESS, fee_commitment: fee, outputs: &outputs, block_height: 10 };
    let answer = send_transaction(&fine, 10);
    assert_eq!(answer.status, 0);
    assert_eq!(answer.message, "success");
}

#[test]
fn fee_address_is_compared_letter_by_letter() {
    assert!(check_fee_address(FEE_ADDRESS));
    assert!(!check_fee_address(""));
    assert!(!check_fee_address(&FEE_ADDRESS[1..]));
    assert!(!check_fee_address(&format!("{}x", FEE_ADDRESS)));
    assert!(FEE_ADDRESS.starts_with("nolgam1nurfm22evhpscn5ddwgwa96z"));
    assert_eq!(FEE_ADDRESS.len(), 3482);
}

#[test]
fn utxo_commitment_is_the_hex_of_the_commitment() {
    let hex = calculate_utxo_commitment(&digest(1), &digest(2), &digest(3));
    let expected = to_hex(&commit(&digest(1), &digest(2), &digest(3)).canonical_commitment);
    assert_eq!(hex, expected);
    assert_eq!(hex.len(), 80);
    assert_ne!(hex, calculate_utxo_commitment(&digest(1), &digest(2), &digest(4)));
}

#[test]
fn rest_error_carries_its_message() {
    let error = RestError::from_message("deserialize error".to_string());
    assert_eq!(error.0, "deserialize error");
}

#[test]
fn last_heights_end_at_the_tip() {
    assert_eq!(last_heights(10, 1), Some((10, 10)));
    assert_eq!(last_heights(10, 3), Some((8, 10)));
    assert_eq!(last_heights(10, 11), Some((0, 10)));
    assert_eq!(last_heights(10, 12), None);
    assert_eq!(last_heights(10, 0), None);
    assert_eq!(last_heights(0, 1), Some((0, 0)));
    assert_eq!(last_heights(u64::MAX, u64::MAX), Some((1, u64::MAX)));
    assert_eq!(last_heights(u64::MAX - 1, u64::MAX), Some((0, u64::MAX - 1)));
}

#[test]
fn block_time_is_in_seconds() {
    let time = block_time(7, 1_700_000_123_999);
    assert_eq!(time.height, 7);
    assert_eq!(time.time, 1_700_000_123);
    assert_eq!(block_time(0, 999).time, 0);
}

#[test]
fn nonce_report_counts_sixteen_zeros() {
    assert!(has_zero_prefix("0000000000000000"));
    assert!(has_zero_prefix("0000000000000000ab"));
    assert!(!has_zero_prefix("000000000000000"));
    assert!(!has_zero_prefix("0000000000000001"));
    assert!(!has_zero_prefix("1000000000000000"));
    assert!(!has_zero_prefix(""));
    let nonces = vec![
        "0000000000000000aa".to_string(),
        "00000000000000a0aa".to_string(),
        "0000000000000000bb".to_string(),
    ];
    let report = nonce_report(102, 3, &nonces).unwrap();
    assert_eq!(report.start, 100);
    assert_eq!(report.end, 102);
    assert_eq!(report.hits, 2);
    assert_eq!(report.total, 3);
    assert_eq!(report.percent, 66);
    assert_eq!(report_summary(&report), "block (100-102), 2/3 = 66%");
    assert!(nonce_report(102, 0, &Vec::new()).is_none());
    assert!(nonce_report(102, 104, &Vec::new()).is_none());
    assert!(nonce_report(102, 2, &nonces).is_none());
    let empty = nonce_report(102, 103, &Vec::new()).unwrap();
    assert_eq!(report_summary(&empty), "block (0-102), 0/103 = 0%");
}

fn guessed(height: u64, fee: i128, own: bool) -> GuessedBlock {
    GuessedBlock {
        block_id: digest(height),
        block_height: height,
        timestamp: 1000 * height,
        fee,
        guesser_digest: digest(7),
        own_guesser_digest: if own { digest(7) } else { digest(8) },
    }
}

#[test]
fn owner_blocks_sums_the_fees_of_own_blocks() {
    let blocks = vec![guessed(1, 10, true), guessed(2, 20, false), guessed(3, 30, true)];
    let reward = owner_blocks(1, 3, &blocks).unwrap();
    assert_eq!(reward.start, 1);
    assert_eq!(reward.end, 3);
    assert_eq!(reward.reward, 40);
    assert_eq!(reward.records.len(), 2);
    assert_eq!(reward.records[0].block_height, 1);
    assert_eq!(reward.records[0].amount, 10);
    assert_eq!(reward.records[1].block_id, digest(3));
    assert_eq!(reward.records[1].timestamp, 3000);
    let none = owner_blocks(5, 4, &Vec::new()).unwrap();
    assert_eq!(none.reward, 0);
    assert!(none.records.is_empty());
}

#[test]
fn owner_blocks_gives_up_where_the_sum_overflows() {
    let blocks = vec![guessed(1, i128::MAX, true), guessed(2, 1, true), guessed(3, -5, true)];
    assert!(owner_blocks(1, 3, &blocks).is_none());
    let blocks = vec![guessed(1, i128::MAX, true), guessed(2, 1, false), guessed(3, -5, true)];
    assert_eq!(owner_blocks(1, 3, &blocks).unwrap().reward, i128::MAX - 5);
}

#[test]
fn sibling_blocks_leave_out_the_block_itself() {
    let at_height = vec![digest(1), digest(2), digest(3), digest(2)];
    assert_eq!(sibling_blocks(&at_height, &digest(2)), vec![digest(1), digest(3)]);
    assert_eq!(sibling_blocks(&at_height, &digest(9)), at_height);
    assert!(sibling_blocks(&Vec::new(), &digest(9)).is_empty());
}

#[test]
fn transaction_status_follows_the_pool() {
    assert_eq!(
        get_transaction_status(Some((5, 9)), false),
        TransactionStatus::Success { created_at: 5, finished_at: 9 }
    );
    assert_eq!(get_transaction_status(Some((5, 0)), true), TransactionStatus::Executing { created_at: 5 });
    assert_eq!(get_transaction_status(None, true), TransactionStatus::Pending);
    assert_eq!(get_transaction_status(None, false), TransactionStatus::Outdated);
    assert_eq!(get_transaction_status(Some((5, 9)), false).label(), "success");
    assert_eq!(get_transaction_status(Some((5, 0)), false).label(), "executing");
    assert_eq!(get_transaction_status(None, true).label(), "pending");
    assert_eq!(get_transaction_status(None, false).label(), "outdated");
}

#[test]
fn mempool_page_skips_and_takes() {
    let ids: Vec<Digest> = (0..5).map(digest).collect();
    assert_eq!(page(&ids, 0, 5), ids);
    assert_eq!(page(&ids, 1, 2), vec![digest(1), digest(2)]);
    assert_eq!(page(&ids, 3, 10), vec![digest(3), digest(4)]);
    assert!(page(&ids, 5, 10).is_empty());
    assert!(page(&ids, 9, 10).is_empty());
    assert!(page(&ids, 2, 0).is_empty());
    assert_eq!(page(&ids, usize::MAX, usize::MAX), Vec::new());
    assert_eq!(page(&ids, 0, usize::MAX), ids);
}

#[test]
fn mempool_transaction_made_before_a_removal_is_not_synced() {
    let params = Params::new(64, 8, 2, 3).unwrap();
    let mut set = ArchivalMutatorSet::new(params).unwrap();
    for seed in 0..3u64 {
        set.add(digest(seed));
    }
    let before = set.accumulator_digest();
    let record = RemovalRecord { index_set: vec![30, 31], chunk_proofs: Vec::new() };
    assert!(set.remove(&record).is_ok());
    let tip = set.accumulator_digest();
    assert_ne!(before, tip);
    let pool = vec![
        MempoolTransaction { id: digest(1), mutator_set_hash: before },
        MempoolTransaction { id: digest(2), mutator_set_hash: tip },
    ];
    let report = get_mempool(&vec![digest(1), digest(2)], 0, 2, &pool, &tip, &Vec::new(), &Vec::new());
    assert_eq!(report.len(), 2);
    assert!(!report[0].synced);
    assert!(report[1].synced);
}

#[test]
fn mempool_report_marks_what_is_synced() {
    let ids: Vec<Digest> = (0..4).map(digest).collect();
    let tip = digest(100);
    let pool = vec![
        MempoolTransaction { id: digest(2), mutator_set_hash: tip },
        MempoolTransaction { id: digest(1), mutator_set_hash: digest(99) },
        MempoolTransaction { id: digest(7), mutator_set_hash: tip },
    ];
    let incoming = vec![(digest(1), 5), (digest(2), 6), (digest(1), 7)];
    let outgoing = vec![(digest(2), 3)];
    let report = get_mempool(&ids, 1, 3, &pool, &tip, &incoming, &outgoing);
    assert_eq!(report.len(), 2);
    assert_eq!(report[0].id, digest(1));
    assert!(!report[0].synced);
    assert_eq!(report[0].positive_balance_effect, 7);
    assert_eq!(report[0].negative_balance_effect, 0);
    assert_eq!(report[1].id, digest(2));
    assert!(report[1].synced);
    assert_eq!(report[1].positive_balance_effect, 6);
    assert_eq!(report[1].negative_balance_effect, 3);
}

#[test]
fn membership_proofs_are_restored_in_a_batch() {
    let params = Params::new(64, 8, 2, 3).unwrap();
    let mut set = ArchivalMutatorSet::new(params).unwrap();
    let mut requests = Vec::new();
    for seed in 0..20u64 {
        let request = RequestMsMembershipProofEx {
            item: digest(10 * seed),
            sender_randomness: digest(10 * seed + 1),
            receiver_preimage: digest(10 * seed + 2),
            aocl_leaf_index: seed,
        };
        let receiver = receiver_digest(&request.receiver_preimage);
        set.add(commit(&request.item, &request.sender_randomness, &receiver).canonical_commitment);
        requests.push(request);
    }
    let spent = requests[4];
    let indices = compute_index_set(
        &params,
        &spent.item,
        &spent.sender_randomness,
        &spent.receiver_preimage,
        spent.aocl_leaf_index,
    );
    let record = RemovalRecord { index_set: indices, chunk_proofs: Vec::new() };
    assert!(set.remove(&record).is_ok());
    let mut wrong_place = requests[3];
    wrong_place.aocl_leaf_index = 19;
    requests.push(wrong_place);
    let mut unknown = requests[3];
    unknown.aocl_leaf_index = 500;
    requests.push(unknown);

    let response = generate_restore_membership_proof(&set, &requests, 77, digest(1));
    assert_eq!(response.height, 77);
    assert_eq!(response.block_id, digest(1));
    let restorable: Vec<&RequestMsMembershipProofEx> = requests[..20]
        .iter()
        .filter(|r| {
            set.restore_membership_proof(&r.item, &r.sender_randomness, &r.receiver_preimage, r.aocl_leaf_index)
                .is_ok()
        })
        .collect();
    assert!(restorable.len() <= 19);
    assert!(!restorable.iter().any(|r| r.aocl_leaf_index == 4));
    assert_eq!(response.proofs.len(), restorable.len());
    for (proof, request) in response.proofs.iter().zip(restorable.iter()) {
        assert_eq!(proof.aocl_leaf_index, request.aocl_leaf_index);
        assert_eq!(proof.sender_randomness, request.sender_randomness);
    }
}

#[test]
fn utxo_digest_is_handed_out_for_every_leaf() {
    let params = Params::new(64, 8, 2, 3).unwrap();
    let mut set = ArchivalMutatorSet::new(params).unwrap();
    assert_eq!(get_utxo_digest(&set, 0), None);
    set.add(digest(0));
    assert_eq!(get_utxo_digest(&set, 0), Some(digest(0)));
    assert_eq!(get_utxo_digest(&set, 1), None);
    for seed in 1..3u64 {
        set.add(digest(seed));
    }
    assert_eq!(get_utxo_digest(&set, 0), Some(digest(0)));
    assert_eq!(get_utxo_digest(&set, 1), Some(digest(1)));
    assert_eq!(get_utxo_digest(&set, 2), Some(digest(2)));
    assert_eq!(get_utxo_digest(&set, 3), None);
    assert_eq!(get_utxo_digest(&set, u64::MAX), None);
}

#[test]
fn removal_leaves_every_commitment_in_its_place() {
    let params = Params::new(64, 8, 2, 3).unwrap();
    let mut set = ArchivalMutatorSet::new(params).unwrap();
    let mut commitments = Vec::new();
    let mut openings = Vec::new();
    for seed in 0..3u64 {
        let (item, sender_randomness, receiver_preimage) =
            (digest(10 * seed), digest(10 * seed + 1), digest(10 * seed + 2));
        let receiver = receiver_digest(&receiver_preimage);
        let commitment = commit(&item, &sender_randomness, &receiver).canonical_commitment;
        set.add(commitment);
        commitments.push(commitment);
        openings.push((item, sender_randomness, receiver_preimage));
    }
    let (item, sender_randomness, receiver_preimage) = openings[1];
    let indices = compute_index_set(&params, &item, &sender_randomness, &receiver_preimage, 1);
    let record = RemovalRecord { index_set: indices, chunk_proofs: Vec::new() };
    assert!(set.remove(&record).is_ok());
    assert_eq!(get_utxo_digest(&set, 0), Some(commitments[0]));
    assert_eq!(get_utxo_digest(&set, 1), Some(commitments[1]));
    assert_eq!(get_utxo_digest(&set, 2), Some(commitments[2]));
    assert_eq!(get_utxo_digest(&set, 3), None);
}
