use mutator_set::tx_pool::accept_fee;
use mutator_set::tx_pool::fee_to_i64;
use mutator_set::tx_pool::new_revoke_key;
use mutator_set::tx_pool::revoke_key_from;
use mutator_set::tx_pool::PoolError;
use mutator_set::tx_pool::FEE_SCALE;
use mutator_set::tx_pool::MIN_FEE;

#[test]
fn test_fee_to_i64() {
    // A tenth of a coin; a coin is 4 * 10^30 of the smallest unit.
    let coins = "0.1";
    let tenths: i128 = coins[2..].parse().unwrap();
    let fee = tenths * 4 * 10i128.pow(29);
    println!("{} {}", fee, fee >> 2);
    let fee = fee_to_i64(fee);
    println!("{}", fee);
    assert_eq!(fee, 1_000_000_000);
}

#[test]
fn fee_to_i64_drops_the_two_lowest_bits() {
    assert_eq!(fee_to_i64(0), 0);
    assert_eq!(fee_to_i64(3), 0);
    assert_eq!(fee_to_i64(4 * 10i128.pow(20) - 1), 0);
    assert_eq!(fee_to_i64(4 * 10i128.pow(20)), 1);
    assert_eq!(fee_to_i64(4 * 10i128.pow(20) + 3), 1);
    assert_eq!(fee_to_i64(8 * 10i128.pow(20)), 2);
}

#[test]
fn fee_to_i64_rounds_negative_fees_towards_zero() {
    assert_eq!(fee_to_i64(-1), 0);
    assert_eq!(fee_to_i64(-4 * 10i128.pow(20)), -1);
    assert_eq!(fee_to_i64(-4 * 10i128.pow(20) - 1), -1);
    assert_eq!(fee_to_i64(i128::MAX), 425352958651173079);
    assert_eq!(fee_to_i64(i128::MAX), ((i128::MAX >> 2) / 10i128.pow(20)) as i64);
    assert_eq!(fee_to_i64(i128::MIN), ((i128::MIN >> 2) / 10i128.pow(20)) as i64);
}

#[test]
fn pool_takes_no_fee_below_the_least() {
    assert_eq!(MIN_FEE, 4 * 10i128.pow(29));
    assert_eq!(FEE_SCALE, 10i128.pow(20));
    assert_eq!(accept_fee(MIN_FEE - 1), Err(PoolError::FeeTooLow));
    assert_eq!(accept_fee(0), Err(PoolError::FeeTooLow));
    assert_eq!(accept_fee(-MIN_FEE), Err(PoolError::FeeTooLow));
    assert_eq!(accept_fee(MIN_FEE), Ok(1_000_000_000));
    assert_eq!(accept_fee(100000000000000000000000000000 << 2), Ok(1_000_000_000));
    assert_eq!(accept_fee(500000000000000000000000000000 << 2), Ok(5_000_000_000));
    assert_eq!(PoolError::FeeTooLow.message(), "fee is too low");
}

#[test]
fn revoke_key_is_thirty_two_small_letters() {
    let key = new_revoke_key();
    assert_eq!(key.chars().count(), 32);
    assert!(key.chars().all(|c| c.is_ascii_lowercase()));
    let mut seen = std::collections::HashSet::new();
    for _ in 0..20 {
        seen.insert(new_revoke_key());
    }
    assert!(seen.len() > 1);
}

#[test]
fn revoke_key_is_put_together_from_letters() {
    let letters: Vec<char> = "abcdefghijklmnopqrstuvwxyzabcdef".chars().collect();
    assert_eq!(revoke_key_from(&letters), Some("abcdefghijklmnopqrstuvwxyzabcdef".to_string()));
    let short: Vec<char> = "abc".chars().collect();
    assert_eq!(revoke_key_from(&short), None);
    let upper: Vec<char> = "Abcdefghijklmnopqrstuvwxyzabcdef".chars().collect();
    assert_eq!(revoke_key_from(&upper), None);
    let digit: Vec<char> = "abcdefghijklmnopqrstuvwxyzabcde1".chars().collect();
    assert_eq!(revoke_key_from(&digit), None);
}
