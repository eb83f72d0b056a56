use user_manager::store::{AccessError, LoadError, UserManager};
use user_manager::score::ScoreError;

fn lines(items: &[&str]) -> Vec<String> {
    items.iter().map(|s| s.to_string()).collect()
}

#[test]
fn load_then_get_returns_each_line() {
    let mut m = UserManager::new();
    let input = lines(&["alice", "bob", "carol"]);
    assert_eq!(m.load_users(&input), Ok(3));
    for (i, line) in input.iter().enumerate() {
        assert_eq!(m.get(i).unwrap(), line);
    }
    assert_eq!(m.get(3), Err(AccessError::OutOfBounds));
}

#[test]
fn load_keeps_the_first_line() {
    let mut m = UserManager::new();
    assert_eq!(m.load_users(&lines(&["header", "x"])), Ok(2));
    assert_eq!(m.get(0).unwrap(), "header");
}

#[test]
fn load_skips_empty_lines() {
    let mut m = UserManager::new();
    assert_eq!(m.load_users(&lines(&["", "dave", "", "erin", ""])), Ok(2));
    assert_eq!(m.get(0).unwrap(), "dave");
    assert_eq!(m.get(1).unwrap(), "erin");
    assert_eq!(m.get(2), Err(AccessError::OutOfBounds));
}

#[test]
fn load_of_only_empty_lines_adds_nothing() {
    let mut m = UserManager::new();
    assert_eq!(m.load_users(&lines(&["", ""])), Ok(0));
    assert_eq!(m.get(0), Err(AccessError::OutOfBounds));
}

#[test]
fn loads_are_additive() {
    let mut m = UserManager::new();
    assert_eq!(m.load_users(&lines(&["a1"])), Ok(1));
    assert_eq!(m.load_users(&lines(&["b1", "b2"])), Ok(2));
    assert_eq!(m.get(0).unwrap(), "a1");
    assert_eq!(m.get(1).unwrap(), "b1");
    assert_eq!(m.get(2).unwrap(), "b2");
    assert_eq!(m.get(3), Err(AccessError::OutOfBounds));
}

#[test]
fn load_of_nothing_is_refused_and_changes_nothing() {
    let mut m = UserManager::new();
    assert_eq!(m.load_users(&[]), Err(LoadError::Empty));
    assert_eq!(m.get(0), Err(AccessError::OutOfBounds));

    assert_eq!(m.load_users(&lines(&["kept"])), Ok(1));
    assert_eq!(m.load_users(&[]), Err(LoadError::Empty));
    assert_eq!(m.get(0).unwrap(), "kept");
    assert_eq!(m.get(1), Err(AccessError::OutOfBounds));
}

#[test]
fn get_on_empty_store_is_out_of_bounds() {
    let m = UserManager::new();
    assert_eq!(m.get(0), Err(AccessError::OutOfBounds));
    assert_eq!(m.get(usize::MAX), Err(AccessError::OutOfBounds));
}

#[test]
fn get_at_or_past_length_is_out_of_bounds() {
    let mut m = UserManager::new();
    m.load_users(&lines(&["p", "q"])).unwrap();
    assert_eq!(m.get(2), Err(AccessError::OutOfBounds));
    assert_eq!(m.get(7), Err(AccessError::OutOfBounds));
}

#[test]
fn loaded_records_never_score_zero_length() {
    let mut m = UserManager::new();
    m.load_users(&lines(&["", "a", "", "bb"])).unwrap();
    for result in m.process_all_users() {
        assert_ne!(result.score, Err(ScoreError::ZeroLength));
    }
}

#[test]
fn process_user_scores_the_record_at_index() {
    let mut m = UserManager::new();
    let long = "x".repeat(60);
    m.load_users(&lines(&["a", &long])).unwrap();
    let first = m.process_user(0).unwrap();
    assert_eq!(first.record, "a");
    assert_eq!(first.score, Err(ScoreError::Overflow));
    let second = m.process_user(1).unwrap();
    assert_eq!(second.record, long);
    assert_eq!(second.score, Ok(999_999_999));
    assert_eq!(m.process_user(2), Err(AccessError::OutOfBounds));
}

#[test]
fn process_all_gives_one_result_per_record_in_order() {
    let mut m = UserManager::new();
    let forty = "f".repeat(40);
    let eighty = "e".repeat(80);
    m.load_users(&lines(&[&forty, "z", &eighty])).unwrap();
    let results = m.process_all_users();
    assert_eq!(results.len(), 3);
    assert_eq!(results[0].record, forty);
    assert_eq!(results[0].score, Ok(1_999_999_998));
    assert_eq!(results[1].record, "z");
    assert_eq!(results[1].score, Err(ScoreError::Overflow));
    assert_eq!(results[2].record, eighty);
    assert_eq!(results[2].score, Ok(999_999_999));
    assert_eq!(m.get(2).unwrap(), &eighty);
    assert_eq!(m.get(3), Err(AccessError::OutOfBounds));
}

#[test]
fn process_all_twice_keeps_the_record_count() {
    let mut m = UserManager::new();
    m.load_users(&lines(&["u1", "u2"])).unwrap();
    assert_eq!(m.process_all_users().len(), 2);
    assert_eq!(m.process_all_users().len(), 2);
    assert_eq!(m.get(2), Err(AccessError::OutOfBounds));
}

#[test]
fn process_all_on_empty_store_gives_nothing() {
    let mut m = UserManager::new();
    assert!(m.process_all_users().is_empty());
}

#[test]
fn score_table_fills_after_processing() {
    let mut m = UserManager::new();
    let sixty = "s".repeat(60);
    m.load_users(&lines(&[&sixty, "t", &sixty])).unwrap();
    assert_eq!(m.score_of(&sixty), None);
    m.process_all_users();
    assert_eq!(m.score_of(&sixty), Some(999_999_999));
    assert_eq!(m.score_of("t"), None);
    assert_eq!(m.score_of("absent"), None);
}
