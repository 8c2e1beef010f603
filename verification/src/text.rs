//! Text: numbers as decimals, digests as hex, and strings put together.

use vstd::prelude::*;
use vstd::string::StrSliceExecFns;
use crate::digest::Digest;
use twenty_first::prelude::BFieldElement;

verus! {

/// The outside error of `Digest::try_from_hex`.
#[verifier::external_type_specification]
#[verifier::external_body]
pub struct ExTryFromHexDigestError(twenty_first::error::TryFromHexDigestError);

/// The hex digit that stands for a number below sixteen.
pub open spec fn hex_digit(n: int) -> char {
    if n < 10 {
        digit_char(n)
    } else if n == 10 {
        'a'
    } else if n == 11 {
        'b'
    } else if n == 12 {
        'c'
    } else if n == 13 {
        'd'
    } else if n == 14 {
        'e'
    } else {
        'f'
    }
}

/// A byte in hex: the digit of its upper half, then that of its lower half.
pub open spec fn byte_hex(byte: int) -> Seq<char> {
    seq![hex_digit(byte / 16), hex_digit(byte % 16)]
}

/// The number below the modulus of the field that stands for the same
/// element as `n`.
pub open spec fn field_value(n: u64) -> int {
    (n as int) % 0xffff_ffff_0000_0001
}

/// A number of 64 bits in hex: its eight bytes, the lowest first.
pub open spec fn element_hex(value: int) -> Seq<char> {
    byte_hex(value % 0x100) + byte_hex(value / 0x100 % 0x100) + byte_hex(
        value / 0x1_0000 % 0x100,
    ) + byte_hex(value / 0x100_0000 % 0x100) + byte_hex(value / 0x1_0000_0000 % 0x100) + byte_hex(
        value / 0x100_0000_0000 % 0x100,
    ) + byte_hex(value / 0x1_0000_0000_0000 % 0x100) + byte_hex(
        value / 0x100_0000_0000_0000 % 0x100,
    )
}

/// A digest in hex: its five elements one after the other, each as the
/// number below the modulus of the field that stands for it.
pub open spec fn digest_hex(values: Seq<u64>) -> Seq<char> {
    element_hex(field_value(values[0])) + element_hex(field_value(values[1])) + element_hex(
        field_value(values[2]),
    ) + element_hex(field_value(values[3])) + element_hex(field_value(values[4]))
}

/// The elements of the digest that `Digest::try_from_hex` of twenty-first
/// reads from a text, if it reads one.
pub uninterp spec fn tip5_digest_from_hex(text: Seq<char>) -> Option<Seq<u64>>;

/// The digit that stands for a number below ten.
pub open spec fn digit_char(n: int) -> char {
    if n == 0 {
        '0'
    } else if n == 1 {
        '1'
    } else if n == 2 {
        '2'
    } else if n == 3 {
        '3'
    } else if n == 4 {
        '4'
    } else if n == 5 {
        '5'
    } else if n == 6 {
        '6'
    } else if n == 7 {
        '7'
    } else if n == 8 {
        '8'
    } else {
        '9'
    }
}

/// A number written in decimal, without leading zeros.
pub open spec fn decimal(n: nat) -> Seq<char>
    decreases n,
{
    if n < 10 {
        seq![digit_char(n as int)]
    } else {
        decimal(n / 10).push(digit_char((n % 10) as int))
    }
}

/// The number that a digit stands for, if the character is one.
pub open spec fn digit_value(c: char) -> Option<int> {
    if c == '0' {
        Some(0)
    } else if c == '1' {
        Some(1)
    } else if c == '2' {
        Some(2)
    } else if c == '3' {
        Some(3)
    } else if c == '4' {
        Some(4)
    } else if c == '5' {
        Some(5)
    } else if c == '6' {
        Some(6)
    } else if c == '7' {
        Some(7)
    } else if c == '8' {
        Some(8)
    } else if c == '9' {
        Some(9)
    } else {
        None
    }
}

/// Whether every character of `text` is a digit.
pub open spec fn all_digits(text: Seq<char>) -> bool {
    forall|i: int| 0 <= i < text.len() ==> digit_value(#[trigger] text[i]) is Some
}

/// The number that a row of digits stands for.
pub open spec fn digits_value(text: Seq<char>) -> nat
    decreases text.len(),
{
    if text.len() == 0 {
        0
    } else {
        (digits_value(text.drop_last()) * 10 + digit_value(text.last()).unwrap_or(0)) as nat
    }
}

/// The number that `text` is the decimal of: one or more digits, after a
/// plus sign or none, that stand for a number of at most 64 bits.
pub open spec fn parsed_u64(text: Seq<char>) -> Option<u64> {
    let digits = if text.len() > 0 && text[0] == '+' {
        text.drop_first()
    } else {
        text
    };
    if digits.len() > 0 && all_digits(digits) && digits_value(digits) <= u64::MAX {
        Some(digits_value(digits) as u64)
    } else {
        None
    }
}

/// Calls `String::from_iter` of std on a list of characters. The contract
/// claims that the result holds these characters in their order.
#[verifier::external_body]
pub(crate) fn string_from_chars(chars: &Vec<char>) -> (res: String)
    ensures
        res@ == chars@,
{
    String::from_iter(chars.iter())
}

/// What `to_string` returns for the digest of twenty-first with the given
/// elements: the form in which that crate shows a digest.
pub uninterp spec fn tip5_digest_display(values: Seq<u64>) -> Seq<char>;

/// Calls `to_string` of std on a digest of twenty-first, which goes to its
/// `Display`. The contract claims only that the result is a function of the
/// elements.
#[verifier::external_body]
pub(crate) fn tip5_to_text(values: [u64; 5]) -> (res: String)
    ensures
        res@ == tip5_digest_display(values@),
{
    twenty_first::prelude::Digest::new(values.map(BFieldElement::new)).to_string()
}

/// Calls `Digest::to_hex` of twenty-first on the digest with the given
/// elements. The contract claims that the result is the forty bytes of the
/// digest in hex with small letters: for each element the eight bytes of the
/// number below the modulus that stands for it, the lowest byte first.
#[verifier::external_body]
fn tip5_to_hex(values: [u64; 5]) -> (res: String)
    ensures
        res@ == digest_hex(values@),
{
    twenty_first::prelude::Digest::new(values.map(BFieldElement::new)).to_hex()
}

/// Calls `Digest::try_from_hex` of twenty-first. The contract claims only
/// that whether a digest is read, and which, is a function of the text.
#[verifier::external_body]
fn tip5_from_hex(text: &str) -> (res: Result<[u64; 5], twenty_first::error::TryFromHexDigestError>)
    ensures
        res is Ok <==> tip5_digest_from_hex(text@) is Some,
        res is Ok ==> res->Ok_0@ == tip5_digest_from_hex(text@)->Some_0,
{
    match twenty_first::prelude::Digest::try_from_hex(text) {
        Ok(digest) => Ok(digest.values().map(|e| e.value())),
        Err(error) => Err(error),
    }
}

/// The hex form of a digest.
pub open spec fn hex_spec(digest: Digest) -> Seq<char> {
    digest_hex(digest@)
}

/// The digest that a text in hex stands for, if it stands for one.
pub open spec fn from_hex_spec(text: Seq<char>) -> Option<Digest> {
    match tip5_digest_from_hex(text) {
        Some(values) => Some(Digest::of(values)),
        None => None,
    }
}

/// The hex form of a digest.
pub fn to_hex(digest: &Digest) -> (res: String)
    ensures
        res@ == hex_spec(*digest),
{
    tip5_to_hex(digest.values())
}

/// Reads a digest from its hex form.
pub fn try_from_hex(text: &str) -> (res: Option<Digest>)
    ensures
        res == from_hex_spec(text@),
{
    match tip5_from_hex(text) {
        Ok(values) => Some(Digest::from_values(values)),
        Err(_) => None,
    }
}

/// The digit that stands for a number below ten.
pub fn digit_of(n: u64) -> (res: char)
    requires
        n < 10,
    ensures
        res == digit_char(n as int),
{
    if n == 0 {
        '0'
    } else if n == 1 {
        '1'
    } else if n == 2 {
        '2'
    } else if n == 3 {
        '3'
    } else if n == 4 {
        '4'
    } else if n == 5 {
        '5'
    } else if n == 6 {
        '6'
    } else if n == 7 {
        '7'
    } else if n == 8 {
        '8'
    } else {
        '9'
    }
}

/// Writes a number in decimal, without leading zeros.
pub fn decimal_string(n: u64) -> (res: String)
    ensures
        res@ == decimal(n as nat),
{
    let mut backwards: Vec<char> = Vec::new();
    let mut rest: u64 = n;
    assert(decimal(rest as nat) + backwards@.reverse() =~= decimal(n as nat));
    while rest >= 10
        invariant
            decimal(n as nat) == decimal(rest as nat) + backwards@.reverse(),
        decreases rest,
    {
        let ghost before = backwards@;
        let digit = digit_of(rest % 10);
        backwards.push(digit);
        proof {
            assert(backwards@.reverse() =~= seq![digit] + before.reverse());
            assert(decimal((rest / 10) as nat).push(digit) + before.reverse() =~= decimal(
                (rest / 10) as nat,
            ) + backwards@.reverse());
        }
        rest = rest / 10;
    }
    let ghost before = backwards@;
    let digit = digit_of(rest);
    backwards.push(digit);
    assert(backwards@.reverse() =~= seq![digit] + before.reverse());
    let mut digits: Vec<char> = Vec::new();
    let mut i: usize = backwards.len();
    while i > 0
        invariant
            i <= backwards.len(),
            digits@ == backwards@.reverse().take(backwards.len() - i),
        decreases i,
    {
        i = i - 1;
        digits.push(backwards[i]);
        assert(digits@ =~= backwards@.reverse().take(backwards.len() - i));
    }
    assert(backwards@.reverse().take(backwards.len() as int) =~= backwards@.reverse());
    string_from_chars(&digits)
}

/// The characters of a string.
pub fn chars_of(text: &str) -> (res: Vec<char>)
    ensures
        res@ == text@,
{
    let len = text.unicode_len();
    let mut res: Vec<char> = Vec::new();
    let mut i: usize = 0;
    while i < len
        invariant
            i <= len,
            len == text@.len(),
            res@ == text@.take(i as int),
        decreases len - i,
    {
        res.push(text.get_char(i));
        i = i + 1;
        assert(res@ =~= text@.take(i as int));
    }
    assert(text@.take(len as int) =~= text@);
    res
}

/// The number that a digit stands for, if the character is one.
pub fn value_of_digit(c: char) -> (res: Option<u64>)
    ensures
        res is Some <==> digit_value(c) is Some,
        res is Some ==> res->Some_0 == digit_value(c)->Some_0,
{
    if c == '0' {
        Some(0)
    } else if c == '1' {
        Some(1)
    } else if c == '2' {
        Some(2)
    } else if c == '3' {
        Some(3)
    } else if c == '4' {
        Some(4)
    } else if c == '5' {
        Some(5)
    } else if c == '6' {
        Some(6)
    } else if c == '7' {
        Some(7)
    } else if c == '8' {
        Some(8)
    } else if c == '9' {
        Some(9)
    } else {
        None
    }
}

/// More digits do not make a number smaller.
pub proof fn lemma_digits_grow(text: Seq<char>, len: int)
    requires
        0 <= len <= text.len(),
    ensures
        digits_value(text.take(len)) <= digits_value(text),
    decreases text.len() - len,
{
    if len < text.len() {
        lemma_digits_grow(text, len + 1);
        assert(text.take(len + 1).drop_last() =~= text.take(len));
    } else {
        assert(text.take(len) =~= text);
    }
}

/// Reads a number of at most 64 bits from its decimal form.
pub fn parse_u64(text: &Vec<char>) -> (res: Option<u64>)
    ensures
        res == parsed_u64(text@),
{
    let start: usize = if text.len() > 0 && text[0] == '+' {
        1
    } else {
        0
    };
    let ghost digits = text@.skip(start as int);
    proof {
        if start == 1 {
            assert(text@.drop_first() =~= digits);
        } else {
            assert(text@ =~= digits);
        }
    }
    if text.len() == start {
        return None;
    }
    let mut value: u64 = 0;
    let mut i: usize = start;
    assert(digits.take(0) =~= Seq::<char>::empty());
    while i < text.len()
        invariant
            start <= i <= text.len(),
            digits == text@.skip(start as int),
            parsed_u64(text@) == (if digits.len() > 0 && all_digits(digits) && digits_value(digits)
                <= u64::MAX {
                Some(digits_value(digits) as u64)
            } else {
                None
            }),
            all_digits(digits.take(i - start)),
            value == digits_value(digits.take(i - start)),
        decreases text.len() - i,
    {
        let ghost seen = digits.take(i - start);
        let ghost more = digits.take(i - start + 1);
        proof {
            assert(more.drop_last() =~= seen);
            assert(more.last() == text@[i as int]);
            lemma_digits_grow(digits, i - start + 1);
        }
        match value_of_digit(text[i]) {
            None => {
                assert(!all_digits(digits)) by {
                    assert(digits[i - start] == text@[i as int]);
                }
                return None;
            },
            Some(d) => {
                if value > (u64::MAX - d) / 10 {
                    assert(digits_value(more) > u64::MAX);
                    return None;
                }
                value = value * 10 + d;
                proof {
                    assert forall|k: int| 0 <= k < more.len() implies digit_value(
                        #[trigger] more[k],
                    ) is Some by {
                        if k < seen.len() {
                            assert(seen[k] == more[k]);
                        }
                    }
                }
            },
        }
        i = i + 1;
    }
    assert(digits.take(text.len() - start) =~= digits);
    Some(value)
}

} // verus!
