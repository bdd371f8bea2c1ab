use vstd::prelude::*;

verus! {

/// The error kinds a client call can end in, mirrored as plain values:
/// a status code is a `u16`, a transport cause or response body a `String`.
#[derive(Debug, Clone, PartialEq, Eq)]
pub enum AltrepoError {
    /// The supplied or default base URL does not parse as an absolute URL.
    InvalidBaseUrl,
    /// The transport failed or a response body could not be decoded;
    /// carries a description of the cause.
    Transport(String),
    /// The server answered with a non-success status; carries the status
    /// code and the raw body text (empty if the body could not be read).
    HttpStatus { status: u16, body: String },
    /// A bearer token cannot be carried as an HTTP header value.
    InvalidHeader,
}

} // verus!
