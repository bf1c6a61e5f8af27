//! Error taxonomy of the upload pipeline.

use vstd::prelude::*;

verus! {

/// A request-level failure of the upload pipeline.
///
/// `Io` covers read, write, open and flush failures on the transfer path.
/// `MissingMetadata` marks a multipart field that lacks a required attribute.
/// `InvalidFileName` marks a client-supplied file name that was rejected by
/// sanitization. `TooLarge` marks a request body over the configured cap,
/// rejected before any part is processed. `Protocol` marks malformed
/// multipart framing reported by the decoder.
#[derive(PartialEq, Eq, Structural, Clone, Copy, Debug)]
pub enum UploadError {
    Io,
    MissingMetadata,
    InvalidFileName,
    TooLarge,
    Protocol,
}

impl UploadError {
    /// A short description, for an error response body.
    pub fn describe(&self) -> &'static str {
        match self {
            UploadError::Io => "i/o failure on the transfer path",
            UploadError::MissingMetadata => "a multipart field lacks required metadata",
            UploadError::InvalidFileName => "the supplied file name was rejected",
            UploadError::TooLarge => "the request body exceeds the size cap",
            UploadError::Protocol => "malformed multipart framing",
        }
    }
}

} // verus!
