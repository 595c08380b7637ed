//! Error kinds surfaced by the engine.

use vstd::prelude::*;

verus! {

/// Failure classification for engine operations.
///
/// `BadRequest` covers invalid size or area bounds and malformed options;
/// `NotFound` a missing id, collection or reference image; `Internal` a
/// structural failure (filesystem, decode other than a format error,
/// serialization); `PayloadTooLarge` the bulk-stream byte ceiling, carrying
/// the byte count that crossed it.
#[derive(Debug)]
pub enum Error {
    BadRequest(String),
    NotFound(String),
    Internal(String),
    PayloadTooLarge(u64),
}

impl Error {
    /// True exactly on the `BadRequest` variant.
    pub fn is_bad_request(&self) -> (r: bool)
        ensures
            r == (self is BadRequest),
    {
        match self {
            Error::BadRequest(_) => true,
            _ => false,
        }
    }
}

} // verus!
