//! A typed client for the `rdb.altlinux.org` package-repository REST service.
//!
//! The library holds the verified core: URL composition, bearer-token
//! validation, response classification and JSON decoding. The network
//! transport itself lives outside the library and hands plain status codes
//! and body text back in.

use vstd::prelude::*;

pub mod client;
pub mod error;
pub mod json;
pub mod models;
pub mod response;
pub mod urls;

pub use client::AltrepoClient;
pub use error::AltrepoError;
pub use models::{ApiVersion, PingResponse};
pub use response::{decode_ping, decode_version, handle_response};

verus! {

} // verus!
