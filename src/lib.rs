//! A task list kept behind a repository abstraction: the entity and its
//! payloads, the contract every storage backend meets, an in-memory backend,
//! the decisions of a relational backend, and the mapping of repository
//! outcomes to HTTP status codes.
pub mod repositories;
pub mod relational;
pub mod handlers;
