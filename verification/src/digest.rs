//! Digests and the Tip5 hash function they come from.

use vstd::prelude::*;
use twenty_first::prelude::BFieldElement;
use twenty_first::prelude::Tip5;

verus! {

/// The five field elements of a Tip5 digest, each held as a number.
#[derive(Clone, Copy, Debug, PartialEq, Eq, Hash, Structural)]
pub struct Digest {
    pub e0: u64,
    pub e1: u64,
    pub e2: u64,
    pub e3: u64,
    pub e4: u64,
}

/// What `Tip5::hash_pair` returns for two digests, each given by the five
/// numbers of its elements; again five numbers.
pub uninterp spec fn tip5_hash_pair(left: Seq<u64>, right: Seq<u64>) -> Seq<u64>;

/// What `Tip5::hash_varlen` returns for the field elements with the given
/// numbers: the five numbers of the digest.
pub uninterp spec fn tip5_hash_varlen(input: Seq<u64>) -> Seq<u64>;

impl View for Digest {
    type V = Seq<u64>;

    open spec fn view(&self) -> Seq<u64> {
        seq![self.e0, self.e1, self.e2, self.e3, self.e4]
    }
}

impl Digest {
    /// The digest whose elements are the first five numbers of `values`.
    pub open spec fn of(values: Seq<u64>) -> Digest {
        Digest { e0: values[0], e1: values[1], e2: values[2], e3: values[3], e4: values[4] }
    }

    /// The digest whose elements are all zero.
    pub open spec fn zero() -> Digest {
        Digest { e0: 0, e1: 0, e2: 0, e3: 0, e4: 0 }
    }

    /// The digest with the given elements.
    pub fn from_values(values: [u64; 5]) -> (res: Digest)
        ensures
            res == Digest::of(values@),
    {
        Digest { e0: values[0], e1: values[1], e2: values[2], e3: values[3], e4: values[4] }
    }

    /// The elements of the digest.
    pub fn values(&self) -> (res: [u64; 5])
        ensures
            res@ == self@,
    {
        let res = [self.e0, self.e1, self.e2, self.e3, self.e4];
        assert(res@ =~= self@);
        res
    }

    /// The digest whose elements are all zero.
    pub fn all_zero() -> (res: Digest)
        ensures
            res == Digest::zero(),
    {
        Digest { e0: 0, e1: 0, e2: 0, e3: 0, e4: 0 }
    }
}

/// The hash of two digests.
pub open spec fn hash_pair_spec(left: Digest, right: Digest) -> Digest {
    Digest::of(tip5_hash_pair(left@, right@))
}

/// The hash of a sequence of numbers.
pub open spec fn hash_varlen_spec(input: Seq<u64>) -> Digest {
    Digest::of(tip5_hash_varlen(input))
}

/// Calls `Tip5::hash_pair` of twenty-first on the digests with the given
/// elements. The contract claims only that the elements of the result are a
/// function of the numbers handed in.
#[verifier::external_body]
fn tip5_pair(left: [u64; 5], right: [u64; 5]) -> (res: [u64; 5])
    ensures
        res@ == tip5_hash_pair(left@, right@),
{
    let l = twenty_first::prelude::Digest::new(left.map(BFieldElement::new));
    let r = twenty_first::prelude::Digest::new(right.map(BFieldElement::new));
    Tip5::hash_pair(l, r).values().map(|e| e.value())
}

/// Calls `Tip5::hash_varlen` of twenty-first on the field elements with the
/// given numbers. The contract claims only that the elements of the result
/// are a function of the numbers handed in.
#[verifier::external_body]
fn tip5_varlen(input: &Vec<u64>) -> (res: [u64; 5])
    ensures
        res@ == tip5_hash_varlen(input@),
{
    let elements: Vec<BFieldElement> = input.iter().map(|v| BFieldElement::new(*v)).collect();
    Tip5::hash_varlen(&elements).values().map(|e| e.value())
}

/// Hashes two digests into one.
pub fn hash_pair(left: &Digest, right: &Digest) -> (res: Digest)
    ensures
        res == hash_pair_spec(*left, *right),
{
    Digest::from_values(tip5_pair(left.values(), right.values()))
}

/// Hashes a sequence of numbers into a digest.
pub fn hash_varlen(input: &Vec<u64>) -> (res: Digest)
    ensures
        res == hash_varlen_spec(input@),
{
    Digest::from_values(tip5_varlen(input))
}

} // verus!
