//! The relational backend's side of each operation: the one statement it
//! sends, and what a returned row or failure means for the caller.
use vstd::prelude::*;
use crate::repositories::{RepositoryError, Task};
use vstd::string::to_string_from_display_ensures;

verus! {

/// Inserts a task that is not completed and returns the stored row; binds the text.
pub const INSERT_TASK: &'static str = "INSERT INTO tasks (text, completed) values ($1, false) returning *";

/// Selects the row with an id; binds the id.
pub const SELECT_TASK: &'static str = "SELECT * FROM tasks where id = $1 limit 1";

/// Selects every row.
pub const SELECT_ALL_TASKS: &'static str = "SELECT * FROM tasks";

/// Sets the fields that are bound to a value and keeps those bound to NULL, in
/// one statement, and returns the row; binds the optional text, the optional
/// completion flag and the id.
pub const UPDATE_TASK: &'static str = "update tasks set text = coalesce($1, text), completed = coalesce($2, completed) where id = $3 returning *";

/// Removes the row with an id; binds the id.
pub const DELETE_TASK: &'static str = "delete from tasks where id = $1";

#[verifier::external_type_specification]
#[verifier::external_body]
pub struct ExSqlxError(sqlx::Error);

#[verifier::external_type_specification]
#[verifier::external_body]
pub struct ExPgQueryResult(sqlx::postgres::PgQueryResult);

/// The number of rows a finished statement touched, as the server reported it.
pub uninterp spec fn rows_affected_of(q: sqlx::postgres::PgQueryResult) -> u64;

/// Whether a failure is sqlx's `RowNotFound`.
pub uninterp spec fn row_not_found_of(e: sqlx::Error) -> bool;

/// Relies on sqlx's `PgQueryResult::rows_affected`, which reads the count the
/// result holds and nothing else.
pub assume_specification[ sqlx::postgres::PgQueryResult::rows_affected ](r: &sqlx::postgres::PgQueryResult) -> (n: u64)
    ensures
        n == rows_affected_of(*r),
;

/// Relies on the `sqlx::Error::RowNotFound` variant: a statement that had to
/// return a row returned none.
#[verifier::external_body]
fn is_row_not_found(e: &sqlx::Error) -> (r: bool)
    ensures
        r == row_not_found_of(*e),
{
    match e {
        sqlx::Error::RowNotFound => true,
        _ => false,
    }
}

/// The error for a failed statement about `id`: a missing row is
/// `NotFound(id)`, anything else is `Unexpexted` with the backend's message.
pub fn classify_db_error(id: i32, row_not_found: bool, message: String) -> (r: RepositoryError)
    ensures
        r == (if row_not_found {
            RepositoryError::NotFound(id)
        } else {
            RepositoryError::Unexpexted(message)
        }),
{
    if row_not_found {
        RepositoryError::NotFound(id)
    } else {
        RepositoryError::Unexpexted(message)
    }
}

/// The repository error for a failed statement about `id`: `NotFound(id)`
/// for a missing row, else `Unexpexted` with the error's text.
pub fn error_for(id: i32, e: sqlx::Error) -> (r: RepositoryError)
    ensures
        row_not_found_of(e) ==> r == RepositoryError::NotFound(id),
        !row_not_found_of(e) ==> r is Unexpexted && to_string_from_display_ensures::<sqlx::Error>(&e, r->Unexpexted_0),
{
    let missing = is_row_not_found(&e);
    classify_db_error(id, missing, e.to_string())
}

/// The outcome of a statement that returns the row with id `id` (find,
/// update): the row, `NotFound(id)` when there was none, or `Unexpexted`.
pub fn row_outcome(id: i32, fetched: Result<Task, sqlx::Error>) -> (r: Result<Task, RepositoryError>)
    ensures
        match fetched {
            Ok(t) => r == Ok::<Task, RepositoryError>(t),
            Err(e) => {
                &&& r is Err
                &&& row_not_found_of(e) ==> r->Err_0 == RepositoryError::NotFound(id)
                &&& !row_not_found_of(e) ==> r->Err_0 is Unexpexted && to_string_from_display_ensures::<sqlx::Error>(&e, r->Err_0->Unexpexted_0)
            },
        },
{
    match fetched {
        Ok(t) => Ok(t),
        Err(e) => Err(error_for(id, e)),
    }
}

/// The outcome of a statement that cannot miss a row (insert, select all):
/// what it returned, or `Unexpexted` with the backend's message.
pub fn unkeyed_outcome<T>(fetched: Result<T, sqlx::Error>) -> (r: Result<T, RepositoryError>)
    ensures
        match fetched {
            Ok(v) => r == Ok::<T, RepositoryError>(v),
            Err(e) => r is Err && r->Err_0 is Unexpexted && to_string_from_display_ensures::<sqlx::Error>(&e, r->Err_0->Unexpexted_0),
        },
{
    match fetched {
        Ok(v) => Ok(v),
        Err(e) => Err(RepositoryError::Unexpexted(e.to_string())),
    }
}

/// A delete of `id` that touched `rows_affected` rows: done when it touched
/// one, `NotFound(id)` when it touched none.
pub fn delete_outcome_of(id: i32, rows_affected: u64) -> (r: Result<(), RepositoryError>)
    ensures
        r == (if rows_affected == 0 {
            Err::<(), RepositoryError>(RepositoryError::NotFound(id))
        } else {
            Ok::<(), RepositoryError>(())
        }),
{
    if rows_affected == 0 {
        Err(RepositoryError::NotFound(id))
    } else {
        Ok(())
    }
}

/// The outcome of the delete statement for `id`.
pub fn delete_outcome(id: i32, done: Result<sqlx::postgres::PgQueryResult, sqlx::Error>) -> (r: Result<(), RepositoryError>)
    ensures
        match done {
            Ok(q) => r == (if rows_affected_of(q) == 0 {
                Err::<(), RepositoryError>(RepositoryError::NotFound(id))
            } else {
                Ok::<(), RepositoryError>(())
            }),
            Err(e) => {
                &&& r is Err
                &&& row_not_found_of(e) ==> r->Err_0 == RepositoryError::NotFound(id)
                &&& !row_not_found_of(e) ==> r->Err_0 is Unexpexted && to_string_from_display_ensures::<sqlx::Error>(&e, r->Err_0->Unexpexted_0)
            },
        },
{
    match done {
        Ok(q) => delete_outcome_of(id, q.rows_affected()),
        Err(e) => Err(error_for(id, e)),
    }
}

} // verus!
