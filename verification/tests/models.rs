use mutator_set::digest::hash_varlen;
use mutator_set::digest::Digest;
use mutator_set::models::block_header::BlockHeader;
use mutator_set::models::block_header::BlockHeaderField;
use mutator_set::models::block_header::HasDiscriminant;
use mutator_set::models::block_header::MastHash;
use mutator_set::models::block_header::MINIMUM_DIFFICULTY;
use mutator_set::models::block_header::PROOF_OF_WORK_COUNT_U32_SIZE;
use mutator_set::models::block_header::TARGET_BLOCK_INTERVAL;
use mutator_set::models::block_header::TARGET_DIFFICULTY_U32_SIZE;
use mutator_set::models::block_info::BlockFacts;
use mutator_set::models::block_info::BlockInfo;
use mutator_set::models::block_kernel::kernel_mast_sequences;
use mutator_set::models::block_kernel::BlockKernel;
use mutator_set::models::block_kernel::BlockKernelField;
use mutator_set::models::channel::BlockProposalNotification;
use mutator_set::models::channel::MainToMiner;
use mutator_set::models::channel::MainToPeerTask;
use mutator_set::models::channel::MainToPeerTaskBatchBlockRequest;
use mutator_set::models::channel::MinerToMain;
use mutator_set::models::channel::NewBlockFound;
use mutator_set::models::channel::PeerTaskToMain;
use mutator_set::models::channel::PeerTaskToMainTransaction;
use mutator_set::models::channel::RPCServerToMain;
use mutator_set::mutator_set::removal_record::index_set_digest;
use mutator_set::text::to_hex;

fn digest(seed: u64) -> Digest {
    Digest { e0: seed, e1: seed + 1, e2: seed + 2, e3: seed + 3, e4: seed + 4 }
}

#[test]
fn rpc_server_messages_have_names() {
    let broadcast: RPCServerToMain<u8> = RPCServerToMain::BroadcastTx(Box::new(1));
    assert_eq!(broadcast.get_type(), "broadcast transaction");
    assert_eq!(RPCServerToMain::<u8>::Shutdown.get_type(), "shutdown");
    assert_eq!(RPCServerToMain::<u8>::PauseMiner.get_type(), "pause miner");
    assert_eq!(RPCServerToMain::<u8>::RestartMiner.get_type(), "restart miner");
}

#[test]
fn peer_task_messages_have_names() {
    type ToPeer = MainToPeerTask<u8, u8, u16>;
    assert_eq!(ToPeer::Block(Box::new(1)).get_type(), "block");
    assert_eq!(
        ToPeer::RequestBlockBatch(MainToPeerTaskBatchBlockRequest {
            peer_addr_target: 80,
            known_blocks: vec![digest(1)],
        })
        .get_type(),
        "req block batch"
    );
    assert_eq!(ToPeer::PeerSynchronizationTimeout(80).get_type(), "peer sync timeout");
    assert_eq!(ToPeer::MakePeerDiscoveryRequest.get_type(), "make peer discovery req");
    assert_eq!(ToPeer::MakeSpecificPeerDiscoveryRequest(80).get_type(), "make specific peer discovery req");
    assert_eq!(ToPeer::TransactionNotification(3).get_type(), "transaction notification");
    assert_eq!(ToPeer::Disconnect(80).get_type(), "disconnect");
    assert_eq!(ToPeer::DisconnectAll().get_type(), "disconnect all");
    let news = BlockProposalNotification::new(digest(3), 12, 40);
    assert_eq!(news.body_mast_hash, digest(3));
    assert_eq!(news.guesser_fee, 12);
    assert_eq!(news.height, 40);
    assert_eq!(ToPeer::BlockProposalNotification(news).get_type(), "block proposal notification");

    type ToMain = PeerTaskToMain<u8, u8, u64, u32, u16>;
    assert_eq!(ToMain::NewBlocks(vec![1, 2]).get_type(), "new blocks");
    assert_eq!(ToMain::AddPeerMaxBlockHeight(9).get_type(), "add peer max block height");
    assert_eq!(ToMain::RemovePeerMaxBlockHeight(80).get_type(), "remove peer max block height");
    assert_eq!(ToMain::PeerDiscoveryAnswer(4).get_type(), "peer discovery answer");
    assert_eq!(
        ToMain::Transaction(Box::new(PeerTaskToMainTransaction {
            transaction: 1,
            confirmable_for_block: digest(1),
        }))
        .get_type(),
        "transaction"
    );
}

#[test]
fn miner_messages_carry_their_payload() {
    let to_miner: MainToMiner<u8> = MainToMiner::NewBlock(Box::new(7));
    assert!(matches!(to_miner.clone(), MainToMiner::NewBlock(block) if *block == 7));
    let found = NewBlockFound { block: Box::new(7u8), composer_utxos: vec![1u16], guesser_fee_utxo_infos: vec![2u16] };
    let to_main = MinerToMain::NewBlockFound(found.clone());
    assert!(matches!(to_main, MinerToMain::NewBlockFound(f) if f.composer_utxos == vec![1] && *f.block == 7));
    let proposal: MinerToMain<u8, u16> = MinerToMain::BlockProposal(3);
    assert!(matches!(proposal, MinerToMain::BlockProposal(3)));
}

#[test]
fn header_fields_are_numbered_in_their_order() {
    let fields = [
        BlockHeaderField::Version,
        BlockHeaderField::Height,
        BlockHeaderField::PrevBlockDigest,
        BlockHeaderField::Timestamp,
        BlockHeaderField::Nonce,
        BlockHeaderField::MaxBlockSize,
        BlockHeaderField::ProofOfWorkLine,
        BlockHeaderField::ProofOfWorkFamily,
        BlockHeaderField::Difficulty,
    ];
    for (number, field) in fields.iter().enumerate() {
        assert_eq!(field.discriminant(), number);
    }
    assert_eq!(BlockHeaderField::COUNT, 9);
    assert_eq!(BlockKernelField::Header.discriminant(), 0);
    assert_eq!(BlockKernelField::Body.discriminant(), 1);
    assert_eq!(TARGET_DIFFICULTY_U32_SIZE, 5);
    assert_eq!(PROOF_OF_WORK_COUNT_U32_SIZE, 5);
    assert_eq!(TARGET_BLOCK_INTERVAL, 588000);
    assert_eq!(MINIMUM_DIFFICULTY, 2);
}

#[test]
fn header_is_hashed_field_by_field() {
    let header = BlockHeader {
        version: 1,
        height: 2,
        prev_block_digest: digest(10),
        timestamp: 3,
        nonce: [4, 5, 6],
        max_block_size: 7,
        proof_of_work_line: [8, 9, 10, 11, 12],
        proof_of_work_family: [13, 14, 15, 16, 17],
        difficulty: [18, 19, 20, 21, 22],
    };
    assert_eq!(
        header.mast_sequences(),
        vec![
            vec![1],
            vec![2],
            vec![10, 11, 12, 13, 14],
            vec![3],
            vec![4, 5, 6],
            vec![7],
            vec![8, 9, 10, 11, 12],
            vec![13, 14, 15, 16, 17],
            vec![18, 19, 20, 21, 22],
        ]
    );
    assert_eq!(
        kernel_mast_sequences(&digest(1), &digest(6)),
        vec![vec![1, 2, 3, 4, 5], vec![6, 7, 8, 9, 10]]
    );
    let kernel = BlockKernel { header, body: vec![1u8, 2, 3] };
    assert_eq!(kernel.clone(), kernel);
    assert_eq!(kernel.header.height, 2);
    assert_eq!(kernel.body, vec![1, 2, 3]);
}

#[test]
fn block_info_sums_up_a_block() {
    let block = BlockFacts {
        digest: digest(1),
        nonce: digest(2),
        prev_block_digest: digest(3),
        height: 44,
        size: 1234,
        timestamp: 1_700_000_000_000,
        cumulative_proof_of_work: vec![1, 2, 3, 4, 5, 6],
        difficulty: vec![7, 8, 9, 10, 11],
        inputs: vec![vec![5, 1 << 100], vec![u128::MAX]],
        output_commitments: vec![digest(30)],
        num_public_announcements: 2,
        coinbase_amount: 128,
        fee: 5,
        txid: digest(4),
    };
    let info = BlockInfo::new(&block, digest(0), digest(1), vec![digest(9)], true);
    assert_eq!(info.height, 44);
    assert_eq!(info.size, 1234);
    assert_eq!(info.digest, digest(1));
    assert_eq!(info.nonce, digest(2));
    assert_eq!(info.prev_block_digest, digest(3));
    assert_eq!(info.timestamp, 1_700_000_000_000);
    assert_eq!(info.cumulative_proof_of_work, vec![1, 2, 3, 4, 5, 6]);
    assert_eq!(info.difficulty, vec![7, 8, 9, 10, 11]);
    assert_eq!(info.num_inputs, 2);
    assert_eq!(
        info.inputs,
        vec![
            to_hex(&index_set_digest(&vec![5, 1 << 100])),
            to_hex(&index_set_digest(&vec![u128::MAX])),
        ]
    );
    assert_ne!(info.inputs[0], info.inputs[1]);
    assert_eq!(info.num_outputs, 1);
    assert_eq!(info.outputs, vec![to_hex(&digest(30))]);
    assert_eq!(info.num_public_announcements, 2);
    assert_eq!(info.coinbase_amount, 128);
    assert_eq!(info.fee, 5);
    assert!(!info.is_genesis);
    assert!(info.is_tip);
    assert!(info.is_canonical);
    assert_eq!(info.sibling_blocks, vec![digest(9)]);
    assert_eq!(info.txid, digest(4));
    let first = BlockInfo::new(&block, digest(1), digest(5), Vec::new(), false);
    assert!(first.is_genesis);
    assert!(!first.is_tip);
    assert!(!first.is_canonical);
}

#[test]
fn inputs_are_shown_by_the_hash_of_their_indices() {
    let limbs = |index: u128| -> Vec<u64> {
        (0..4).map(|i| ((index >> (32 * i)) & 0xffff_ffff) as u64).collect()
    };
    let index: u128 = (7 << 96) + (6 << 64) + (5 << 32) + 4;
    assert_eq!(limbs(index), vec![4, 5, 6, 7]);
    assert_eq!(index_set_digest(&vec![index]), hash_varlen(&vec![4, 5, 6, 7]));
    assert_eq!(
        index_set_digest(&vec![1, u128::MAX]),
        hash_varlen(&vec![1, 0, 0, 0, 0xffff_ffff, 0xffff_ffff, 0xffff_ffff, 0xffff_ffff])
    );
    assert_eq!(index_set_digest(&Vec::new()), hash_varlen(&Vec::new()));
    assert_ne!(index_set_digest(&vec![1, 2]), index_set_digest(&vec![2, 1]));

    // the same as hashing the indices with the codec of twenty-first
    let outside = twenty_first::prelude::Tip5::hash(&[index, 1u128, u128::MAX]);
    let inside = index_set_digest(&vec![index, 1, u128::MAX]);
    let values = outside.values();
    assert_eq!(
        inside,
        Digest {
            e0: values[0].value(),
            e1: values[1].value(),
            e2: values[2].value(),
            e3: values[3].value(),
            e4: values[4].value(),
        }
    );
}
