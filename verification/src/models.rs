use vstd::prelude::*;

verus! {

/// The ping endpoint's answer, decoded verbatim from its JSON body.
#[derive(Debug, Clone, PartialEq, Eq)]
pub struct PingResponse {
    pub message: String,
}

/// The version endpoint's answer, decoded verbatim from its JSON body.
#[derive(Debug, Clone, PartialEq, Eq)]
pub struct ApiVersion {
    pub name: String,
    pub version: String,
    pub description: String,
}

} // verus!
