use task_repo::relational::{
    classify_db_error, delete_outcome, delete_outcome_of, error_for, row_outcome,
    unkeyed_outcome,
};
use task_repo::repositories::{RepositoryError, Task};

#[test]
fn missing_row_is_not_found() {
    assert_eq!(classify_db_error(3, true, "m".to_string()), RepositoryError::NotFound(3));
    assert_eq!(error_for(3, sqlx::Error::RowNotFound), RepositoryError::NotFound(3));
}

#[test]
fn other_failures_are_unexpected_with_message() {
    assert_eq!(
        classify_db_error(3, false, "boom".to_string()),
        RepositoryError::Unexpexted("boom".to_string())
    );
    let e = sqlx::Error::PoolTimedOut;
    let message = e.to_string();
    assert_eq!(error_for(3, e), RepositoryError::Unexpexted(message));
}

#[test]
fn fetched_row_passes_through() {
    let t = Task::new(9, "row".to_string());
    assert_eq!(row_outcome(9, Ok(Task::new(9, "row".to_string()))), Ok(t));
    assert_eq!(row_outcome(9, Err(sqlx::Error::RowNotFound)), Err(RepositoryError::NotFound(9)));
}

#[test]
fn unkeyed_failure_is_unexpected() {
    let r: Result<Vec<Task>, RepositoryError> = unkeyed_outcome(Err(sqlx::Error::RowNotFound));
    assert!(matches!(r, Err(RepositoryError::Unexpexted(_))));
    let ok: Result<Vec<Task>, sqlx::Error> = Ok(vec![]);
    assert_eq!(unkeyed_outcome(ok), Ok(vec![]));
}

#[test]
fn delete_of_no_row_is_not_found() {
    assert_eq!(delete_outcome_of(5, 0), Err(RepositoryError::NotFound(5)));
    assert_eq!(delete_outcome_of(5, 1), Ok(()));
    let none = sqlx::postgres::PgQueryResult::default();
    assert_eq!(delete_outcome(5, Ok(none)), Err(RepositoryError::NotFound(5)));
    assert!(matches!(
        delete_outcome(5, Err(sqlx::Error::PoolClosed)),
        Err(RepositoryError::Unexpexted(_))
    ));
}

#[test]
fn update_statement_keeps_unset_fields() {
    assert!(task_repo::relational::UPDATE_TASK.contains("coalesce($1, text)"));
    assert!(task_repo::relational::UPDATE_TASK.contains("coalesce($2, completed)"));
}
