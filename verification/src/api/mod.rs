//! The rules behind the HTTP API: authentication, cluster responses, index
//! management and search.
use vstd::prelude::*;

pub mod auth;
pub mod cluster;
pub mod indexes;
pub mod search;

verus! {

/// The OpenAPI description of the HTTP API. The document itself is derived
/// where the server is assembled.
pub struct ApiDoc;

} // verus!
