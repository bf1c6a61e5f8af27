//! Core logic of a streaming upload service: a bounded-memory stream copier
//! over an append-capable byte sink, an upload orchestrator that validates
//! and sanitizes client-supplied part metadata, and a shared progress store
//! updated and polled over a per-client message channel.

use vstd::prelude::*;

pub mod errors;
pub mod progress;
pub mod copier;
pub mod sink;
pub mod upload;

verus! {

/// Upper bound, in bytes, on the body of one upload request.
pub const CAP_BYTES: u64 = 250 * 1024 * 1024;

/// True exactly when a request body of `content_length` bytes is small
/// enough to be processed at all.
pub fn cap_allows(content_length: u64) -> (ok: bool)
    ensures
        ok <==> content_length <= CAP_BYTES,
{
    content_length <= CAP_BYTES
}

} // verus!
