//! Ingestion and persistence core for a recipe service.
//!
//! The library models an indexed entity store (users, recipes, images),
//! the consistency rules between those entities (name uniqueness, ownership,
//! cascade deletion), and the chunked range-based protocol that retrieves
//! large image payloads over a transport with a fixed per-call size ceiling.
//!
//! The execution model around the library is cooperative: a call suspends
//! only at an external fetch, and other calls may touch the store while it
//! waits.  The library's discipline for that is structural — no mutating
//! operation here performs a fetch, so each one's precondition check and its
//! write happen in one uninterrupted step, and ingestion, whose driver does
//! fetch between records, submits each record through an overwrite that
//! revalidates nothing it would have read before the suspension.

use vstd::prelude::*;

pub mod encoding;
pub mod fetch;
pub mod idxmap;
pub mod images;
pub mod ingest;
pub mod json;
pub mod jsonio;
pub mod recipes;
pub mod store;
pub mod strmap;
pub mod user;
pub mod util;

verus! {

/// Typed failures returned to callers of the store and of the endpoints.
///
/// Validation failures (uniqueness, authorization, missing entities) are
/// always reported through this enum, never by panicking.
#[derive(Debug)]
pub enum Error {
    UserNotFound { msg: String },
    UserAlreadyExists { msg: String },
    RecipesNotFound { msg: String },
    InvalidName { msg: String },
    CallerNotAuthorized { msg: String },
    RecipeNotFound { msg: String },
    ImagesNotFound { msg: String },
    ImageNotDownloaded { msg: String },
    RecipeAlreadyExists { msg: String },
    /// An entity whose encoded size exceeds its kind's fixed bound is
    /// rejected with this error; the store is left unchanged.
    EntityTooLarge { msg: String },
}

} // verus!
