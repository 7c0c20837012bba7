//! Request-admission and storage logic of a small file upload server.
//!
//! The modules hold the decisions that the HTTP layer makes for each request:
//! per-client rate limiting, bounded concurrency with load shedding, the
//! translation of pipeline failures into statuses, collision-safe naming of
//! uploaded files, the listing of stored files, and the choices made when
//! installing the server as a service.

pub mod admission;
pub mod listing;
pub mod pipeline;
pub mod rate_limit;
pub mod service;
pub mod upload;
