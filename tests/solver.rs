use kangaroo::cli::key_hex_display;
use kangaroo::solver::{after_batch, BatchOutcome};

fn key(b: u8) -> [u8; 32] {
    let mut k = [0u8; 32];
    k[31] = b;
    k
}

#[test]
fn verified_candidate_is_found() {
    match after_batch(Some(key(7)), true, 10, 5) {
        BatchOutcome::Found(k) => assert_eq!(k, key(7)),
        other => panic!("{:?}", other),
    }
}

#[test]
fn failed_candidate_continues_under_budget() {
    assert!(matches!(after_batch(Some(key(7)), false, 10, 100), BatchOutcome::Continue));
}

#[test]
fn failed_candidate_still_checks_budget() {
    assert!(matches!(after_batch(Some(key(7)), false, 100, 100), BatchOutcome::LimitReached(100)));
}

#[test]
fn no_candidate_limit_reached() {
    assert!(matches!(after_batch(None, false, 250, 200), BatchOutcome::LimitReached(250)));
    assert!(matches!(after_batch(None, true, 199, 200), BatchOutcome::Continue));
}

#[test]
fn zero_budget_is_unlimited() {
    assert!(matches!(after_batch(None, false, u64::MAX - 1, 0), BatchOutcome::Continue));
    assert!(matches!(after_batch(None, false, u64::MAX, 0), BatchOutcome::LimitReached(u64::MAX)));
}

#[test]
fn key_display_trims_leading_zeros() {
    assert_eq!(key_hex_display("00000000000d2c55"), "d2c55");
    assert_eq!(key_hex_display("1ba534"), "1ba534");
    assert_eq!(key_hex_display("0000"), "0");
    assert_eq!(key_hex_display(""), "0");
    assert_eq!(key_hex_display("0a0"), "a0");
}
