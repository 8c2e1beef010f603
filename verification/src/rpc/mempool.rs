//! What the node reports of the transactions that wait in its mempool.

use vstd::prelude::*;
use crate::digest::Digest;

verus! {

/// A transaction of the mempool as far as the report reads it.
#[derive(Clone, Copy, Debug, PartialEq, Eq, Structural)]
pub struct MempoolTransaction {
    pub id: Digest,
    /// The digest of the mutator set for which the transaction was made.
    pub mutator_set_hash: Digest,
}

/// What is reported of a transaction of the mempool.
#[derive(Clone, Copy, Debug, PartialEq, Eq, Structural)]
pub struct MempoolTransactionInfo {
    pub id: Digest,
    /// Whether the transaction was made for the mutator set as it is now.
    pub synced: bool,
    /// What the transaction brings to the balance of the wallet.
    pub positive_balance_effect: i128,
    /// What the transaction takes from the balance of the wallet.
    pub negative_balance_effect: i128,
}

/// The stretch of `ids` that begins after `start` of them and holds at most
/// `number`.
pub open spec fn page_spec(ids: Seq<Digest>, start: usize, number: usize) -> Seq<Digest> {
    let from = if start < ids.len() {
        start as int
    } else {
        ids.len() as int
    };
    let rest = ids.skip(from);
    if number < rest.len() {
        rest.take(number as int)
    } else {
        rest
    }
}

/// The amount that the list holds for `id`; the last one where it holds
/// several.
pub open spec fn effect_on(effects: Seq<(Digest, i128)>, id: Digest) -> Option<i128>
    decreases effects.len(),
{
    if effects.len() == 0 {
        None
    } else if effects.last().0 == id {
        Some(effects.last().1)
    } else {
        effect_on(effects.drop_last(), id)
    }
}

/// The first transaction of `pool` with the given id.
pub open spec fn found_in(pool: Seq<MempoolTransaction>, id: Digest) -> Option<MempoolTransaction>
    decreases pool.len(),
{
    if pool.len() == 0 {
        None
    } else if pool[0].id == id {
        Some(pool[0])
    } else {
        found_in(pool.drop_first(), id)
    }
}

/// What is reported of `transaction`: whether it fits the mutator set with
/// the digest `tip_hash`, and what it does to the balance.
pub open spec fn info_of(
    transaction: MempoolTransaction,
    tip_hash: Digest,
    incoming: Seq<(Digest, i128)>,
    outgoing: Seq<(Digest, i128)>,
) -> MempoolTransactionInfo {
    MempoolTransactionInfo {
        id: transaction.id,
        synced: transaction.mutator_set_hash == tip_hash,
        positive_balance_effect: match effect_on(incoming, transaction.id) {
            Some(amount) => amount,
            None => 0,
        },
        negative_balance_effect: match effect_on(outgoing, transaction.id) {
            Some(amount) => amount,
            None => 0,
        },
    }
}

/// What is reported of those of `ids` that are in `pool`, in the order of
/// the ids.
pub open spec fn overview_spec(
    ids: Seq<Digest>,
    pool: Seq<MempoolTransaction>,
    tip_hash: Digest,
    incoming: Seq<(Digest, i128)>,
    outgoing: Seq<(Digest, i128)>,
) -> Seq<MempoolTransactionInfo>
    decreases ids.len(),
{
    if ids.len() == 0 {
        Seq::empty()
    } else {
        let before = overview_spec(ids.drop_last(), pool, tip_hash, incoming, outgoing);
        match found_in(pool, ids.last()) {
            Some(transaction) => before.push(info_of(transaction, tip_hash, incoming, outgoing)),
            None => before,
        }
    }
}

/// The stretch of `ids` that begins after `start` of them and holds at most
/// `number`.
pub fn page(ids: &Vec<Digest>, start: usize, number: usize) -> (res: Vec<Digest>)
    ensures
        res@ == page_spec(ids@, start, number),
{
    let from = if start < ids.len() {
        start
    } else {
        ids.len()
    };
    let count = if number < ids.len() - from {
        number
    } else {
        ids.len() - from
    };
    let mut res: Vec<Digest> = Vec::new();
    let mut i: usize = 0;
    while i < count
        invariant
            i <= count,
            from + count <= ids.len(),
            res@ == ids@.skip(from as int).take(i as int),
        decreases count - i,
    {
        res.push(ids[from + i]);
        i = i + 1;
        assert(res@ =~= ids@.skip(from as int).take(i as int));
    }
    assert(ids@.skip(from as int).take((ids.len() - from) as int) =~= ids@.skip(from as int));
    res
}

/// The amount that the list holds for `id`.
pub fn lookup_effect(effects: &Vec<(Digest, i128)>, id: &Digest) -> (res: Option<i128>)
    ensures
        res == effect_on(effects@, *id),
{
    let mut i: usize = effects.len();
    assert(effects@.take(i as int) =~= effects@);
    while i > 0
        invariant
            i <= effects.len(),
            effect_on(effects@, *id) == effect_on(effects@.take(i as int), *id),
        decreases i,
    {
        proof {
            assert(effects@.take(i as int).drop_last() =~= effects@.take(i as int - 1));
        }
        i = i - 1;
        if effects[i].0 == *id {
            return Some(effects[i].1);
        }
    }
    None
}

/// The first transaction of `pool` with the given id.
pub fn find_transaction(pool: &Vec<MempoolTransaction>, id: &Digest) -> (res: Option<
    MempoolTransaction,
>)
    ensures
        res == found_in(pool@, *id),
{
    let mut i: usize = 0;
    assert(pool@.skip(0) =~= pool@);
    while i < pool.len()
        invariant
            i <= pool.len(),
            found_in(pool@, *id) == found_in(pool@.skip(i as int), *id),
        decreases pool.len() - i,
    {
        proof {
            assert(pool@.skip(i as int).drop_first() =~= pool@.skip(i as int + 1));
        }
        if pool[i].id == *id {
            return Some(pool[i]);
        }
        i = i + 1;
    }
    None
}

/// Reports on the page of the mempool that begins after `start`
/// transactions and holds at most `number`. `ids` are the transactions in
/// the order in which the mempool ranks them.
pub fn get_mempool(
    ids: &Vec<Digest>,
    start: usize,
    number: usize,
    pool: &Vec<MempoolTransaction>,
    tip_hash: &Digest,
    incoming: &Vec<(Digest, i128)>,
    outgoing: &Vec<(Digest, i128)>,
) -> (res: Vec<MempoolTransactionInfo>)
    ensures
        res@ == overview_spec(
            page_spec(ids@, start, number),
            pool@,
            *tip_hash,
            incoming@,
            outgoing@,
        ),
{
    let wanted = page(ids, start, number);
    let mut res: Vec<MempoolTransactionInfo> = Vec::new();
    let mut i: usize = 0;
    assert(wanted@.take(0) =~= Seq::<Digest>::empty());
    while i < wanted.len()
        invariant
            i <= wanted.len(),
            res@ == overview_spec(wanted@.take(i as int), pool@, *tip_hash, incoming@, outgoing@),
        decreases wanted.len() - i,
    {
        proof {
            assert(wanted@.take(i as int + 1).drop_last() =~= wanted@.take(i as int));
        }
        match find_transaction(pool, &wanted[i]) {
            None => {},
            Some(transaction) => {
                let positive = match lookup_effect(incoming, &transaction.id) {
                    Some(amount) => amount,
                    None => 0,
                };
                let negative = match lookup_effect(outgoing, &transaction.id) {
                    Some(amount) => amount,
                    None => 0,
                };
                res.push(
                    MempoolTransactionInfo {
                        id: transaction.id,
                        synced: transaction.mutator_set_hash == *tip_hash,
                        positive_balance_effect: positive,
                        negative_balance_effect: negative,
                    },
                );
            },
        }
        i = i + 1;
    }
    assert(wanted@.take(wanted.len() as int) =~= wanted@);
    res
}

} // verus!
