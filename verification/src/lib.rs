//! A small web framework core: HTTP methods, path patterns, a router with
//! exact and parameterised routes, responses and the mapping of errors to
//! responses.

pub mod application;
pub mod error;
pub mod limits;
pub mod method;
pub mod path;
pub mod response;
pub mod router;
pub mod string_map;
