use user_manager::compute::ComputeError;
use user_manager::store::UserManager;

#[test]
fn factorial_of_five() {
    let m = UserManager::new();
    assert_eq!(m.recursive_function(5), Ok(120));
}

#[test]
fn factorial_of_twenty_one_is_out_of_range() {
    let m = UserManager::new();
    assert_eq!(m.recursive_function(21), Err(ComputeError::OutOfRange));
    assert_eq!(m.recursive_function(50_000), Err(ComputeError::OutOfRange));
    assert_eq!(m.recursive_function(i32::MAX), Err(ComputeError::OutOfRange));
}

#[test]
fn factorial_at_the_range_edges() {
    let m = UserManager::new();
    assert_eq!(m.recursive_function(20), Ok(2_432_902_008_176_640_000));
    assert_eq!(m.recursive_function(1), Ok(1));
    assert_eq!(m.recursive_function(0), Ok(1));
    assert_eq!(m.recursive_function(-4), Ok(1));
    assert_eq!(m.recursive_function(i32::MIN), Ok(1));
}
