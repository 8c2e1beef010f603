use mutator_set::digest::hash_pair;
use mutator_set::digest::hash_varlen;
use mutator_set::digest::Digest;
use mutator_set::text::chars_of;
use mutator_set::text::parse_u64;
use mutator_set::text::to_hex;
use mutator_set::text::try_from_hex;
use twenty_first::prelude::BFieldElement;
use twenty_first::prelude::Tip5;

fn outside(d: &Digest) -> twenty_first::prelude::Digest {
    twenty_first::prelude::Digest::new([
        BFieldElement::new(d.e0),
        BFieldElement::new(d.e1),
        BFieldElement::new(d.e2),
        BFieldElement::new(d.e3),
        BFieldElement::new(d.e4),
    ])
}

fn inside(d: twenty_first::prelude::Digest) -> Digest {
    let v = d.values();
    Digest { e0: v[0].value(), e1: v[1].value(), e2: v[2].value(), e3: v[3].value(), e4: v[4].value() }
}

#[test]
fn hash_pair_is_the_hash_of_tip5() {
    let left = Digest { e0: 1, e1: 2, e2: 3, e3: 4, e4: 5 };
    let right = Digest { e0: 6, e1: 7, e2: 8, e3: 9, e4: 10 };
    let hashed = hash_pair(&left, &right);
    assert_eq!(hashed, inside(Tip5::hash_pair(outside(&left), outside(&right))));
    assert_ne!(hashed, left);
    assert_ne!(hashed, right);
    assert_ne!(hashed, hash_pair(&right, &left));
    assert_eq!(hashed, hash_pair(&left, &right));
}

#[test]
fn hash_varlen_is_the_hash_of_tip5() {
    let input: Vec<u64> = vec![3, 1, 4, 1, 5, 9, 2, 6, 5, 3, 5, 8];
    let elements: Vec<BFieldElement> = input.iter().map(|v| BFieldElement::new(*v)).collect();
    assert_eq!(hash_varlen(&input), inside(Tip5::hash_varlen(&elements)));
    assert_ne!(hash_varlen(&input), hash_varlen(&Vec::new()));
    assert_ne!(hash_varlen(&vec![1]), hash_varlen(&vec![1, 0]));
}

#[test]
fn digest_values_round_trip() {
    let digest = Digest::from_values([1, 2, 3, 4, 5]);
    assert_eq!(digest, Digest { e0: 1, e1: 2, e2: 3, e3: 4, e4: 5 });
    assert_eq!(digest.values(), [1, 2, 3, 4, 5]);
    assert_eq!(Digest::all_zero().values(), [0, 0, 0, 0, 0]);
}

#[test]
fn hex_round_trip() {
    let digest = Digest { e0: 1, e1: 2, e2: 3, e3: 4, e4: 0xffff_ffff_0000_0000 };
    let hex = to_hex(&digest);
    assert_eq!(hex.len(), 80);
    assert_eq!(hex, outside(&digest).to_hex());
    assert_eq!(
        hex,
        "010000000000000002000000000000000300000000000000040000000000000000000000ffffffff"
    );
    assert_eq!(try_from_hex(&hex), Some(digest));
    let letters = Digest { e0: 0x0123_4567_89ab_cdef, e1: 0, e2: 0xff, e3: 0xa0, e4: 0x0b };
    assert_eq!(
        to_hex(&letters),
        "efcdab89674523010000000000000000ff00000000000000a0000000000000000b00000000000000"
    );
    // a number at or above the modulus of the field stands for what is left below it
    let wrapped = Digest { e0: 0xffff_ffff_0000_0003, e1: 0xffff_ffff_0000_0001, e2: u64::MAX, e3: 0, e4: 0 };
    assert_eq!(
        to_hex(&wrapped),
        "02000000000000000000000000000000feffffff0000000000000000000000000000000000000000"
    );
    assert_eq!(to_hex(&wrapped), outside(&wrapped).to_hex());
    assert_eq!(try_from_hex("xyz"), None);
    assert_eq!(try_from_hex(""), None);
    assert_eq!(try_from_hex(&hex[2..]), None);
    // an element that is no number below the modulus of the field
    assert_eq!(
        try_from_hex("ffffffffffffffff000000000000000000000000000000000000000000000000000000000000000000"),
        None
    );
}

#[test]
fn parse_u64_reads_decimals() {
    let parse = |s: &str| parse_u64(&chars_of(s));
    assert_eq!(parse("0"), Some(0));
    assert_eq!(parse("42"), Some(42));
    assert_eq!(parse("+42"), Some(42));
    assert_eq!(parse("007"), Some(7));
    assert_eq!(parse("18446744073709551615"), Some(u64::MAX));
    assert_eq!(parse("18446744073709551616"), None);
    assert_eq!(parse("99999999999999999999999"), None);
    assert_eq!(parse(""), None);
    assert_eq!(parse("+"), None);
    assert_eq!(parse("-1"), None);
    assert_eq!(parse("1 "), None);
    assert_eq!(parse("12a"), None);
    assert_eq!(parse("++1"), None);
    for s in ["0", "42", "+42", "007", "18446744073709551615", "18446744073709551616", "", "+", "-1", "12a"] {
        assert_eq!(parse(s), s.parse::<u64>().ok());
    }
    assert_eq!(chars_of("häß"), vec!['h', 'ä', 'ß']);
}
