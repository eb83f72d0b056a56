use user_manager::store::UserManager;
use user_manager::score::{score_len, ScoreError};

#[test]
fn empty_record_scores_zero_length() {
    assert_eq!(UserManager::score(""), Err(ScoreError::ZeroLength));
    assert_eq!(score_len(0), Err(ScoreError::ZeroLength));
}

#[test]
fn score_is_deterministic() {
    let record = "y".repeat(45);
    assert_eq!(UserManager::score(&record), UserManager::score(&record));
    assert_eq!(UserManager::score(&record), Ok(1_999_999_998));
}

#[test]
fn short_records_overflow_instead_of_wrapping() {
    assert_eq!(UserManager::score("a"), Err(ScoreError::Overflow));
    assert_eq!(UserManager::score(&"b".repeat(33)), Err(ScoreError::Overflow));
    assert_eq!(score_len(1), Err(ScoreError::Overflow));
}

#[test]
fn score_formula_values() {
    assert_eq!(UserManager::score(&"c".repeat(34)), Ok(1_999_999_998));
    assert_eq!(UserManager::score(&"c".repeat(50)), Ok(1_999_999_998));
    assert_eq!(UserManager::score(&"c".repeat(51)), Ok(999_999_999));
    assert_eq!(UserManager::score(&"c".repeat(100)), Ok(999_999_999));
    assert_eq!(UserManager::score(&"c".repeat(101)), Ok(0));
    assert_eq!(score_len(usize::MAX), Ok(0));
}

#[test]
fn score_counts_bytes_not_characters() {
    // 17 two-byte characters are 34 bytes.
    assert_eq!(UserManager::score(&"é".repeat(17)), Ok(1_999_999_998));
    // 26 two-byte characters are 52 bytes.
    assert_eq!(UserManager::score(&"é".repeat(26)), Ok(999_999_999));
}
