//! How each request's repository outcome becomes an HTTP status code. The
//! mapping is deliberately coarse: every repository failure of one route gets
//! the same status.
use vstd::prelude::*;
use crate::repositories::RepositoryError;

verus! {

pub const STATUS_OK: u16 = 200;

pub const STATUS_CREATED: u16 = 201;

pub const STATUS_NO_CONTENT: u16 = 204;

pub const STATUS_NOT_FOUND: u16 = 404;

pub const STATUS_INTERNAL_SERVER_ERROR: u16 = 500;

/// The request kinds that reach the repository.
#[derive(Debug, Clone, Copy, PartialEq, Eq, Structural)]
pub enum Route {
    /// `GET /tasks`
    List,
    /// `GET /tasks/{id}`
    Get,
    /// `POST /tasks`
    Create,
    /// `PATCH /tasks/{id}`
    Update,
    /// `DELETE /tasks/{id}`
    Delete,
}

/// The status a route answers with when its repository call succeeded.
pub open spec fn success_status(route: Route) -> u16 {
    match route {
        Route::List | Route::Get => STATUS_OK,
        Route::Create | Route::Update => STATUS_CREATED,
        Route::Delete => STATUS_NO_CONTENT,
    }
}

/// The status a route answers with when its repository call failed.
pub open spec fn failure_status(route: Route) -> u16 {
    match route {
        Route::Delete => STATUS_INTERNAL_SERVER_ERROR,
        _ => STATUS_NOT_FOUND,
    }
}

/// The status for `route` given whether its repository call succeeded.
pub fn status_for(route: Route, succeeded: bool) -> (r: u16)
    ensures
        r == (if succeeded { success_status(route) } else { failure_status(route) }),
{
    if succeeded {
        match route {
            Route::List | Route::Get => STATUS_OK,
            Route::Create | Route::Update => STATUS_CREATED,
            Route::Delete => STATUS_NO_CONTENT,
        }
    } else {
        match route {
            Route::Delete => STATUS_INTERNAL_SERVER_ERROR,
            _ => STATUS_NOT_FOUND,
        }
    }
}

/// The status for `route` given the outcome of its repository call; the kind
/// of a failure does not matter.
pub fn status_of<T>(route: Route, outcome: &Result<T, RepositoryError>) -> (r: u16)
    ensures
        r == (if outcome is Ok { success_status(route) } else { failure_status(route) }),
{
    status_for(route, outcome.is_ok())
}

} // verus!
