//! The messages that pass between the main loop of a node and its tasks.
//!
//! A message carries its payload through without looking into it, so the
//! payloads are type parameters: `B` for a block, `U` for an expected output,
//! `T` for a transaction, `A` for the address of a peer, `H` for the height
//! that a peer claims, `D` for the peers that a peer knows of.

use vstd::prelude::*;

verus! {

/// What the main loop tells the miner.
#[derive(Clone, Debug)]
pub enum MainToMiner<B> {
    Empty,
    NewBlock(Box<B>),
    Shutdown,
    /// A block that the miner found has been taken in, so the next one can
    /// be mined on top of it.
    ReadyToMineNextBlock,
    StopMining,
    StartMining,
    StartSyncing,
    StopSyncing,
}

/// A block that the miner found, with the outputs that it pays.
#[derive(Clone, Debug)]
pub struct NewBlockFound<B, U> {
    pub block: Box<B>,
    pub composer_utxos: Vec<U>,
    pub guesser_fee_utxo_infos: Vec<U>,
}

/// What the miner tells the main loop.
#[derive(Clone, Debug)]
pub enum MinerToMain<B, U> {
    NewBlockFound(NewBlockFound<B, U>),
    BlockProposal(B),
}

/// A request for a batch of blocks, to be sent on to one peer.
#[derive(Clone, Debug)]
pub struct MainToPeerTaskBatchBlockRequest<A> {
    /// The peer to whom the request goes.
    pub peer_addr_target: A,
    /// The blocks on which the asking node would build, the most wanted
    /// first, each by its digest.
    pub known_blocks: Vec<crate::digest::Digest>,
}

/// The news of a block proposal: what the proposal holds, by the hash of its
/// body, and what it pays to the one who guesses its nonce.
#[derive(Clone, Copy, Debug, PartialEq, Eq, Structural)]
pub struct BlockProposalNotification {
    pub body_mast_hash: crate::digest::Digest,
    pub guesser_fee: i128,
    pub height: u64,
}

impl BlockProposalNotification {
    /// The news of the proposal whose body has the hash `body_mast_hash`.
    pub fn new(body_mast_hash: crate::digest::Digest, guesser_fee: i128, height: u64) -> (res:
        Self)
        ensures
            res == (BlockProposalNotification { body_mast_hash, guesser_fee, height }),
    {
        BlockProposalNotification { body_mast_hash, guesser_fee, height }
    }
}

/// What the main loop tells the task of a peer.
#[derive(Clone, Debug)]
pub enum MainToPeerTask<B, N, A> {
    Block(Box<B>),
    BlockProposalNotification(BlockProposalNotification),
    RequestBlockBatch(MainToPeerTaskBatchBlockRequest<A>),
    PeerSynchronizationTimeout(A),
    MakePeerDiscoveryRequest,
    MakeSpecificPeerDiscoveryRequest(A),
    TransactionNotification(N),
    Disconnect(A),
    DisconnectAll(),
}

/// A transaction that a peer sent, with the block that it can be confirmed in.
#[derive(Clone, Debug)]
pub struct PeerTaskToMainTransaction<T> {
    pub transaction: T,
    pub confirmable_for_block: crate::digest::Digest,
}

/// What the task of a peer tells the main loop.
#[derive(Clone, Debug)]
pub enum PeerTaskToMain<B, T, H, D, A> {
    NewBlocks(Vec<B>),
    AddPeerMaxBlockHeight(H),
    RemovePeerMaxBlockHeight(A),
    PeerDiscoveryAnswer(D),
    Transaction(Box<PeerTaskToMainTransaction<T>>),
}

/// What the RPC server tells the main loop.
#[derive(Clone, Debug)]
pub enum RPCServerToMain<T> {
    BroadcastTx(Box<T>),
    Shutdown,
    PauseMiner,
    RestartMiner,
}

impl<B, N, A> MainToPeerTask<B, N, A> {
    /// The name of the kind of message, as it is written into the log.
    pub open spec fn kind_name(&self) -> Seq<char> {
        match self {
            MainToPeerTask::Block(_) => "block"@,
            MainToPeerTask::RequestBlockBatch(_) => "req block batch"@,
            MainToPeerTask::PeerSynchronizationTimeout(_) => "peer sync timeout"@,
            MainToPeerTask::MakePeerDiscoveryRequest => "make peer discovery req"@,
            MainToPeerTask::MakeSpecificPeerDiscoveryRequest(_) => "make specific peer discovery req"@,
            MainToPeerTask::TransactionNotification(_) => "transaction notification"@,
            MainToPeerTask::Disconnect(_) => "disconnect"@,
            MainToPeerTask::DisconnectAll() => "disconnect all"@,
            MainToPeerTask::BlockProposalNotification(_) => "block proposal notification"@,
        }
    }

    /// The name of the kind of message.
    pub fn get_type(&self) -> (res: String)
        ensures
            res@ == self.kind_name(),
    {
        match self {
            MainToPeerTask::Block(_) => "block".to_string(),
            MainToPeerTask::RequestBlockBatch(_) => "req block batch".to_string(),
            MainToPeerTask::PeerSynchronizationTimeout(_) => "peer sync timeout".to_string(),
            MainToPeerTask::MakePeerDiscoveryRequest => "make peer discovery req".to_string(),
            MainToPeerTask::MakeSpecificPeerDiscoveryRequest(_) => {
                "make specific peer discovery req".to_string()
            },
            MainToPeerTask::TransactionNotification(_) => "transaction notification".to_string(),
            MainToPeerTask::Disconnect(_) => "disconnect".to_string(),
            MainToPeerTask::DisconnectAll() => "disconnect all".to_string(),
            MainToPeerTask::BlockProposalNotification(_) => {
                "block proposal notification".to_string()
            },
        }
    }
}

impl<B, T, H, D, A> PeerTaskToMain<B, T, H, D, A> {
    /// The name of the kind of message, as it is written into the log.
    pub open spec fn kind_name(&self) -> Seq<char> {
        match self {
            PeerTaskToMain::NewBlocks(_) => "new blocks"@,
            PeerTaskToMain::AddPeerMaxBlockHeight(_) => "add peer max block height"@,
            PeerTaskToMain::RemovePeerMaxBlockHeight(_) => "remove peer max block height"@,
            PeerTaskToMain::PeerDiscoveryAnswer(_) => "peer discovery answer"@,
            PeerTaskToMain::Transaction(_) => "transaction"@,
        }
    }

    /// The name of the kind of message.
    pub fn get_type(&self) -> (res: String)
        ensures
            res@ == self.kind_name(),
    {
        match self {
            PeerTaskToMain::NewBlocks(_) => "new blocks".to_string(),
            PeerTaskToMain::AddPeerMaxBlockHeight(_) => "add peer max block height".to_string(),
            PeerTaskToMain::RemovePeerMaxBlockHeight(_) => {
                "remove peer max block height".to_string()
            },
            PeerTaskToMain::PeerDiscoveryAnswer(_) => "peer discovery answer".to_string(),
            PeerTaskToMain::Transaction(_) => "transaction".to_string(),
        }
    }
}

impl<T> RPCServerToMain<T> {
    /// The name of the kind of message, as it is written into the log.
    pub open spec fn kind_name(&self) -> Seq<char> {
        match self {
            RPCServerToMain::BroadcastTx(_) => "broadcast transaction"@,
            RPCServerToMain::Shutdown => "shutdown"@,
            RPCServerToMain::PauseMiner => "pause miner"@,
            RPCServerToMain::RestartMiner => "restart miner"@,
        }
    }

    /// The name of the kind of message.
    pub fn get_type(&self) -> (res: String)
        ensures
            res@ == self.kind_name(),
    {
        match self {
            RPCServerToMain::BroadcastTx(_) => "broadcast transaction".to_string(),
            RPCServerToMain::Shutdown => "shutdown".to_string(),
            RPCServerToMain::PauseMiner => "pause miner".to_owned(),
            RPCServerToMain::RestartMiner => "restart miner".to_owned(),
        }
    }
}

} // verus!
