use conspiracies::error::StorageError;
use conspiracies::operation::TypedValue;
use conspiracies::worker::{classify, count_stored, fetch_limit, orphaned, settle, Failure, Step};

#[test]
fn failures_are_reported_by_kind() {
    assert_eq!(classify(Failure::NoRow), StorageError::NotFound);
    assert_eq!(classify(Failure::UniqueViolation), StorageError::Conflict);
    assert_eq!(
        classify(Failure::Rejected("database is locked".to_string())),
        StorageError::Backend("database is locked".to_string())
    );
    assert_eq!(
        classify(Failure::ConnectionLost("disk image is malformed".to_string())),
        StorageError::Backend("disk image is malformed".to_string())
    );
}

#[test]
fn worker_goes_on_unless_the_connection_is_lost() {
    assert_eq!(
        settle(Ok(TypedValue::RowCount(1))),
        Step { reply: Ok(TypedValue::RowCount(1)), keep_running: true }
    );
    assert_eq!(
        settle(Err(Failure::NoRow)),
        Step { reply: Err(StorageError::NotFound), keep_running: true }
    );
    assert_eq!(
        settle(Err(Failure::UniqueViolation)),
        Step { reply: Err(StorageError::Conflict), keep_running: true }
    );
    assert_eq!(
        settle(Err(Failure::Rejected("locked".to_string()))),
        Step { reply: Err(StorageError::Backend("locked".to_string())), keep_running: true }
    );
    assert_eq!(
        settle(Err(Failure::ConnectionLost("gone".to_string()))),
        Step { reply: Err(StorageError::Backend("gone".to_string())), keep_running: false }
    );
}

#[test]
fn orphaned_operations_fail_with_backend() {
    assert_eq!(
        orphaned(),
        StorageError::Backend("the worker stopped before it reached this operation".to_string())
    );
}

#[test]
fn batch_count_leaves_failures_out() {
    assert_eq!(count_stored(&vec![]), 0);
    assert_eq!(count_stored(&vec![true, true, true]), 3);
    assert_eq!(count_stored(&vec![true, false, true]), 2);
    assert_eq!(count_stored(&vec![false, true, true, false, true]), 3);
    assert_eq!(count_stored(&vec![false, false]), 0);
}

#[test]
fn fetch_limit_refuses_negative_limits() {
    assert_eq!(fetch_limit(0), Ok(0));
    assert_eq!(fetch_limit(25), Ok(25));
    assert_eq!(fetch_limit(i32::MAX), Ok(2147483647));
    assert_eq!(fetch_limit(-1), Err(StorageError::Validation));
    assert_eq!(fetch_limit(i32::MIN), Err(StorageError::Validation));
}
