//! What the node reports of stretches of blocks.

use vstd::prelude::*;
use vstd::string::StrSliceExecFns;
use vstd::string::StringExecFns;
use crate::digest::Digest;
use crate::text::decimal;
use crate::text::decimal_string;

verus! {

/// The time of a block, in seconds.
#[derive(Clone, Copy, Debug, PartialEq, Eq, Structural)]
pub struct BlockTime {
    pub height: u64,
    pub time: u64,
}

/// How many of the latest blocks have a nonce that begins with sixteen
/// zeros.
#[derive(Clone, Copy, Debug, PartialEq, Eq, Structural)]
pub struct NonceReport {
    /// The height of the first block that was asked for.
    pub start: u64,
    /// The height of the last block that was asked for: the latest one.
    pub end: u64,
    /// The number of blocks whose nonce begins with sixteen zeros.
    pub hits: u64,
    /// The number of blocks that were asked for.
    pub total: u64,
    /// The hits in a hundred, rounded down.
    pub percent: u64,
}

/// A block as far as it matters to the one who may have guessed its nonce.
#[derive(Clone, Copy, Debug, PartialEq, Eq, Structural)]
pub struct GuessedBlock {
    pub block_id: Digest,
    pub block_height: u64,
    pub timestamp: u64,
    /// The fee that the guesser earns.
    pub fee: i128,
    /// The digest that the block names as that of its guesser.
    pub guesser_digest: Digest,
    /// The digest that this node would have put there.
    pub own_guesser_digest: Digest,
}

/// A block whose nonce this node guessed, with what it earned.
#[derive(Clone, Copy, Debug, PartialEq, Eq, Structural)]
pub struct RewardCard {
    pub block_id: Digest,
    pub block_height: u64,
    pub timestamp: u64,
    pub amount: i128,
}

/// What this node earned by guessing over a stretch of blocks.
#[derive(Debug)]
pub struct GuessReward {
    pub start: u64,
    pub end: u64,
    pub reward: i128,
    pub records: Vec<RewardCard>,
}

/// The heights of the first and the last of the `count` latest blocks, where
/// there are that many and at least one is asked for.
pub open spec fn heights_spec(tip: u64, count: u64) -> Option<(u64, u64)> {
    if 0 < count <= tip + 1 {
        Some(((tip - count + 1) as u64, tip))
    } else {
        None
    }
}

/// Whether a nonce in hex begins with sixteen zeros.
pub open spec fn zero_prefixed(hex: Seq<char>) -> bool {
    hex.len() >= 16 && forall|i: int| 0 <= i < 16 ==> hex[i] == '0'
}

/// The number of nonces that begin with sixteen zeros.
pub open spec fn zero_prefixed_count(nonces: Seq<String>) -> nat
    decreases nonces.len(),
{
    if nonces.len() == 0 {
        0
    } else {
        zero_prefixed_count(nonces.drop_last()) + if zero_prefixed(nonces.last()@) {
            1nat
        } else {
            0nat
        }
    }
}

/// The report on the nonces of the `count` latest blocks, of which `nonces`
/// are those of the blocks that were found. There is none where no block or
/// more than there are is asked for, or more nonces are handed in than
/// asked for.
pub open spec fn nonce_report_spec(tip: u64, count: u64, nonces: Seq<String>) -> Option<
    NonceReport,
> {
    match heights_spec(tip, count) {
        Some((start, end)) if nonces.len() <= count => Some(
            NonceReport {
                start,
                end,
                hits: zero_prefixed_count(nonces) as u64,
                total: count,
                percent: (zero_prefixed_count(nonces) * 100 / (count as nat)) as u64,
            },
        ),
        _ => None,
    }
}

/// What a report on nonces says in one line.
pub open spec fn report_line(report: NonceReport) -> Seq<char> {
    "block ("@ + decimal(report.start as nat) + "-"@ + decimal(report.end as nat) + "), "@
        + decimal(report.hits as nat) + "/"@ + decimal(report.total as nat) + " = "@ + decimal(
        report.percent as nat,
    ) + "%"@
}

/// Whether this node guessed the nonce of the block.
pub open spec fn is_own(block: GuessedBlock) -> bool {
    block.guesser_digest == block.own_guesser_digest
}

/// The card for a block that this node guessed.
pub open spec fn card_of(block: GuessedBlock) -> RewardCard {
    RewardCard {
        block_id: block.block_id,
        block_height: block.block_height,
        timestamp: block.timestamp,
        amount: block.fee,
    }
}

/// The cards for those of `blocks` that this node guessed, in their order.
pub open spec fn own_cards(blocks: Seq<GuessedBlock>) -> Seq<RewardCard>
    decreases blocks.len(),
{
    if blocks.len() == 0 {
        Seq::empty()
    } else if is_own(blocks.last()) {
        own_cards(blocks.drop_last()).push(card_of(blocks.last()))
    } else {
        own_cards(blocks.drop_last())
    }
}

/// The sum of the fees of those of `blocks` that this node guessed.
pub open spec fn own_reward(blocks: Seq<GuessedBlock>) -> int
    decreases blocks.len(),
{
    if blocks.len() == 0 {
        0
    } else if is_own(blocks.last()) {
        own_reward(blocks.drop_last()) + blocks.last().fee
    } else {
        own_reward(blocks.drop_last())
    }
}

/// Whether the sum of the fees fits into 128 bits at every block on the way.
pub open spec fn reward_fits(blocks: Seq<GuessedBlock>) -> bool {
    forall|k: int|
        0 <= k <= blocks.len() ==> i128::MIN <= #[trigger] own_reward(blocks.take(k)) <= i128::MAX
}

/// The digests of `at_height` other than `digest`, in their order.
pub open spec fn siblings_spec(at_height: Seq<Digest>, digest: Digest) -> Seq<Digest>
    decreases at_height.len(),
{
    if at_height.len() == 0 {
        Seq::empty()
    } else if at_height.last() != digest {
        siblings_spec(at_height.drop_last(), digest).push(at_height.last())
    } else {
        siblings_spec(at_height.drop_last(), digest)
    }
}

/// The heights of the first and the last of the `count` latest blocks.
pub fn last_heights(tip: u64, count: u64) -> (res: Option<(u64, u64)>)
    ensures
        res == heights_spec(tip, count),
{
    if count == 0 || count - 1 > tip {
        None
    } else {
        Some((tip - (count - 1), tip))
    }
}

/// The time of a block in seconds, from its time in milliseconds.
pub fn block_time(height: u64, timestamp_millis: u64) -> (res: BlockTime)
    ensures
        res == (BlockTime { height, time: timestamp_millis / 1000 }),
{
    BlockTime { height, time: timestamp_millis / 1000 }
}

/// Whether a nonce in hex begins with sixteen zeros.
pub fn has_zero_prefix(hex: &str) -> (res: bool)
    ensures
        res == zero_prefixed(hex@),
{
    if hex.unicode_len() < 16 {
        return false;
    }
    let mut i: usize = 0;
    while i < 16
        invariant
            i <= 16,
            hex@.len() >= 16,
            forall|k: int| 0 <= k < i ==> hex@[k] == '0',
        decreases 16 - i,
    {
        if hex.get_char(i) != '0' {
            return false;
        }
        i = i + 1;
    }
    true
}

/// Reports on the nonces of the `count` latest blocks.
pub fn nonce_report(tip: u64, count: u64, nonces: &Vec<String>) -> (res: Option<NonceReport>)
    ensures
        res == nonce_report_spec(tip, count, nonces@),
{
    let (start, end) = match last_heights(tip, count) {
        Some(heights) => heights,
        None => {
            return None;
        },
    };
    if nonces.len() as u64 > count {
        return None;
    }
    let mut hits: u64 = 0;
    let mut i: usize = 0;
    assert(nonces@.take(0) =~= Seq::<String>::empty());
    while i < nonces.len()
        invariant
            i <= nonces.len(),
            hits <= i,
            hits == zero_prefixed_count(nonces@.take(i as int)),
        decreases nonces.len() - i,
    {
        proof {
            assert(nonces@.take(i as int + 1).drop_last() =~= nonces@.take(i as int));
        }
        if has_zero_prefix(nonces[i].as_str()) {
            hits = hits + 1;
        }
        i = i + 1;
    }
    assert(nonces@.take(nonces.len() as int) =~= nonces@);
    let share: u128 = hits as u128 * 100 / count as u128;
    assert(share <= 100) by {
        assert(hits as int * 100 <= count as int * 100);
        assert(hits as int * 100 / count as int <= 100) by (nonlinear_arith)
            requires
                0 <= hits as int * 100 <= count as int * 100,
                count > 0,
        ;
    }
    Some(NonceReport { start, end, hits, total: count, percent: share as u64 })
}

/// Says in one line what a report on nonces holds.
pub fn report_summary(report: &NonceReport) -> (res: String)
    ensures
        res@ == report_line(*report),
{
    let mut line = "block (".to_string();
    line = line.concat(decimal_string(report.start).as_str());
    line = line.concat("-");
    line = line.concat(decimal_string(report.end).as_str());
    line = line.concat("), ");
    line = line.concat(decimal_string(report.hits).as_str());
    line = line.concat("/");
    line = line.concat(decimal_string(report.total).as_str());
    line = line.concat(" = ");
    line = line.concat(decimal_string(report.percent).as_str());
    line = line.concat("%");
    line
}

/// Sums up what this node earned by guessing over the blocks from `start`
/// to `end`. There is no sum where it leaves 128 bits on the way.
pub fn owner_blocks(start: u64, end: u64, blocks: &Vec<GuessedBlock>) -> (res: Option<GuessReward>)
    ensures
        reward_fits(blocks@) ==> res is Some && res->Some_0.start == start && res->Some_0.end
            == end && res->Some_0.reward == own_reward(blocks@) && res->Some_0.records@
            == own_cards(blocks@),
        !reward_fits(blocks@) ==> res is None,
{
    let mut reward: i128 = 0;
    let mut records: Vec<RewardCard> = Vec::new();
    let mut i: usize = 0;
    assert(blocks@.take(0) =~= Seq::<GuessedBlock>::empty());
    while i < blocks.len()
        invariant
            i <= blocks.len(),
            reward == own_reward(blocks@.take(i as int)),
            records@ == own_cards(blocks@.take(i as int)),
            forall|k: int|
                0 <= k <= i ==> i128::MIN <= #[trigger] own_reward(blocks@.take(k)) <= i128::MAX,
        decreases blocks.len() - i,
    {
        proof {
            assert(blocks@.take(i as int + 1).drop_last() =~= blocks@.take(i as int));
        }
        let block = blocks[i];
        if block.guesser_digest == block.own_guesser_digest {
            match reward.checked_add(block.fee) {
                None => {
                    assert(!(i128::MIN <= own_reward(blocks@.take(i as int + 1)) <= i128::MAX));
                    return None;
                },
                Some(sum) => {
                    reward = sum;
                },
            }
            records.push(
                RewardCard {
                    block_id: block.block_id,
                    block_height: block.block_height,
                    timestamp: block.timestamp,
                    amount: block.fee,
                },
            );
        }
        i = i + 1;
    }
    assert(blocks@.take(blocks.len() as int) =~= blocks@);
    Some(GuessReward { start, end, reward, records })
}

/// The blocks at the height of a block other than the block itself.
pub fn sibling_blocks(at_height: &Vec<Digest>, digest: &Digest) -> (res: Vec<Digest>)
    ensures
        res@ == siblings_spec(at_height@, *digest),
{
    let mut res: Vec<Digest> = Vec::new();
    let mut i: usize = 0;
    assert(at_height@.take(0) =~= Seq::<Digest>::empty());
    while i < at_height.len()
        invariant
            i <= at_height.len(),
            res@ == siblings_spec(at_height@.take(i as int), *digest),
        decreases at_height.len() - i,
    {
        proof {
            assert(at_height@.take(i as int + 1).drop_last() =~= at_height@.take(i as int));
        }
        if at_height[i] != *digest {
            res.push(at_height[i]);
        }
        i = i + 1;
    }
    assert(at_height@.take(at_height.len() as int) =~= at_height@);
    res
}

} // verus!
