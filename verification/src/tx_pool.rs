//! The rules of the pool in which transactions wait, ordered by their fee.

use vstd::prelude::*;
use crate::text::string_from_chars;

verus! {

/// The divisor that turns a fee in quarters of the smallest unit into a fee
/// with ten decimal places: 10^20.
pub const FEE_SCALE: i128 = 100_000_000_000_000_000_000;

/// The fee by which the pool orders a transaction: `fee` without its two
/// lowest bits, in steps of 10^20, rounded towards zero.
pub open spec fn fee_steps(fee: i128) -> int {
    let quarter = fee as int / 4;
    if quarter >= 0 {
        quarter / (FEE_SCALE as int)
    } else {
        -((-quarter) / (FEE_SCALE as int))
    }
}

/// Turns a fee into the number by which the pool orders transactions.
pub fn fee_to_i64(fee: i128) -> (res: i64)
    ensures
        res == fee_steps(fee),
{
    let quarter: i128 = fee >> 2;
    assert(fee >= 0 ==> (fee >> 2u32) == fee / 4) by (bit_vector);
    assert(fee < 0 ==> (fee >> 2u32) < 0 && 4 * (fee >> 2u32) <= fee && fee - 3 <= 4 * (fee >> 2u32)) by (bit_vector);
    let steps: i128 = quarter / FEE_SCALE;
    assert(i64::MIN <= steps <= i64::MAX) by {
        assert(-0x2000_0000_0000_0000_0000_0000_0000_0000 <= quarter
            < 0x2000_0000_0000_0000_0000_0000_0000_0000);
    }
    steps as i64
}

/// The least fee with which the pool takes a transaction.
pub const MIN_FEE: i128 = 400_000_000_000_000_000_000_000_000_000;

/// The number of letters of a revoke key.
pub const REVOKE_KEY_LEN: usize = 32;

/// Why the pool does not take a transaction.
#[derive(Clone, Copy, Debug, PartialEq, Eq, Structural)]
pub enum PoolError {
    /// The fee is below the least one.
    FeeTooLow,
}

impl PoolError {
    /// What is said of the error.
    pub fn message(&self) -> (res: String)
        ensures
            res@ == "fee is too low"@,
    {
        "fee is too low".to_string()
    }
}

/// Whether `c` is a small letter of the alphabet.
pub open spec fn is_lowercase(c: char) -> bool {
    'a' as u32 <= c as u32 <= 'z' as u32
}

/// Calls `random_range` of rand on the thread's generator, for the
/// characters from `low` to `high`. The contract claims only that the result
/// is one of them. The outside function panics where there is no character
/// to draw.
#[verifier::external_body]
fn random_char(low: char, high: char) -> (c: char)
    requires
        low as u32 <= high as u32,
    ensures
        low as u32 <= c as u32 <= high as u32,
{
    rand::Rng::random_range(&mut rand::rng(), low..=high)
}

/// Decides whether the pool takes a transaction with the given fee, and
/// gives the number by which the pool orders it.
pub fn accept_fee(fee: i128) -> (res: Result<i64, PoolError>)
    ensures
        res == if fee < MIN_FEE {
            Err::<i64, PoolError>(PoolError::FeeTooLow)
        } else {
            Ok(fee_steps(fee) as i64)
        },
{
    if fee < MIN_FEE {
        Err(PoolError::FeeTooLow)
    } else {
        Ok(fee_to_i64(fee))
    }
}

/// Whether `key` can be a revoke key: thirty-two small letters.
pub open spec fn is_revoke_key(key: Seq<char>) -> bool {
    &&& key.len() == REVOKE_KEY_LEN
    &&& forall|i: int| 0 <= i < key.len() ==> is_lowercase(#[trigger] key[i])
}

/// Puts `letters` together to a revoke key, if they can be one.
pub fn revoke_key_from(letters: &Vec<char>) -> (res: Option<String>)
    ensures
        res is Some <==> is_revoke_key(letters@),
        res is Some ==> res->Some_0@ == letters@,
{
    if letters.len() != REVOKE_KEY_LEN {
        return None;
    }
    let mut i: usize = 0;
    while i < letters.len()
        invariant
            i <= letters.len(),
            forall|k: int| 0 <= k < i ==> is_lowercase(#[trigger] letters@[k]),
        decreases letters.len() - i,
    {
        let code = letters[i] as u32;
        if code < 'a' as u32 || code > 'z' as u32 {
            assert(!is_lowercase(letters@[i as int]));
            return None;
        }
        i = i + 1;
    }
    Some(string_from_chars(letters))
}

/// Makes the key with which the sender of a transaction can take it back
/// from the pool: thirty-two small letters, drawn at random.
pub fn new_revoke_key() -> (res: String)
    ensures
        is_revoke_key(res@),
{
    let mut letters: Vec<char> = Vec::new();
    let mut i: usize = 0;
    while i < REVOKE_KEY_LEN
        invariant
            i <= REVOKE_KEY_LEN,
            letters@.len() == i,
            forall|k: int| 0 <= k < i ==> is_lowercase(#[trigger] letters@[k]),
        decreases REVOKE_KEY_LEN - i,
    {
        letters.push(random_char('a', 'z'));
        i = i + 1;
    }
    string_from_chars(&letters)
}

} // verus!
