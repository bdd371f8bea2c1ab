use vstd::prelude::*;

use crate::error::AltrepoError;
use crate::urls::{
    append_query, pair_views, parse_absolute_url, resolve_against, strip_leading_slashes,
    strip_slashes, url_parsed, url_resolved, with_query,
};

verus! {

/// The base URL every client starts from when none is supplied.
pub open spec fn default_base_url() -> Seq<char> {
    "https://rdb.altlinux.org"@
}

/// A client of the repository service: a validated base URL, held as its
/// serialization, and the authorization header value to send with every
/// request, once a bearer token has been applied.
///
/// The transport that actually sends requests lives outside the library;
/// it reads `base_url` and `auth_header` and hands back a status code and
/// a body.
#[derive(Debug, Clone)]
pub struct AltrepoClient {
    base_url: String,
    auth_header: Option<String>,
}

impl AltrepoClient {
    /// The serialization of the client's base URL.
    pub closed spec fn spec_base_url(self) -> Seq<char> {
        self.base_url@
    }

    /// The authorization header value, when one was applied.
    pub closed spec fn spec_auth_header(self) -> Option<Seq<char>> {
        match self.auth_header {
            Some(h) => Some(h@),
            None => None,
        }
    }

    /// The client's invariant: its base URL is the serialization of some
    /// successfully parsed absolute URL, so it is always fit for joining
    /// relative paths onto.
    pub open spec fn wf(self) -> bool {
        exists|s: Seq<char>| url_parsed(s) == Some(self.spec_base_url())
    }

    /// A client against the default base URL, with no authorization.
    pub fn new() -> (r: Result<Self, AltrepoError>)
        ensures
            r is Ok <==> url_parsed(default_base_url()) is Some,
            r matches Ok(c) ==> url_parsed(default_base_url()) matches Some(u)
                && c.spec_base_url() == u && c.spec_auth_header() is None && c.wf(),
            r matches Err(e) ==> e == AltrepoError::InvalidBaseUrl,
    {
        Self::with_base_url("https://rdb.altlinux.org")
    }

    /// A client against `base_url`, with no authorization. Fails exactly
    /// when `base_url` does not parse as an absolute URL.
    pub fn with_base_url(base_url: &str) -> (r: Result<Self, AltrepoError>)
        ensures
            r is Ok <==> url_parsed(base_url@) is Some,
            r matches Ok(c) ==> url_parsed(base_url@) matches Some(u) && c.spec_base_url() == u
                && c.spec_auth_header() is None && c.wf(),
            r matches Err(e) ==> e == AltrepoError::InvalidBaseUrl,
    {
        match parse_absolute_url(base_url) {
            Some(u) => {
                let c = AltrepoClient { base_url: u, auth_header: None };
                proof {
                    assert(url_parsed(base_url@) == Some(c.spec_base_url()));
                }
                Ok(c)
            },
            None => Err(AltrepoError::InvalidBaseUrl),
        }
    }

    /// The same client, now sending `Authorization: Bearer <token>` with
    /// every request. Succeeds exactly when every character of the token
    /// may stand in an HTTP header value; a second call replaces the
    /// first token rather than adding to it.
    pub fn with_bearer_token(self, token: &str) -> (r: Result<Self, AltrepoError>)
        ensures
            r is Ok <==> valid_header_token(token@),
            r matches Ok(c) ==> c.spec_base_url() == self.spec_base_url()
                && c.spec_auth_header() == Some("Bearer "@ + token@) && (self.wf() ==> c.wf()),
            r matches Err(e) ==> e == AltrepoError::InvalidHeader,
    {
        let n = token.unicode_len();
        let mut i: usize = 0;
        loop
            invariant
                i <= n,
                n == token@.len(),
                forall|k: int| 0 <= k < i ==> valid_header_char(token@[k]),
            ensures
                i <= n,
                forall|k: int| 0 <= k < i ==> valid_header_char(token@[k]),
                i < n ==> !valid_header_char(token@[i as int]),
            decreases n - i,
        {
            if i >= n {
                break;
            }
            let c = token.get_char(i);
            if !(c == '\t' || (c as u32 >= 32 && c as u32 != 127)) {
                break;
            }
            i = i + 1;
        }
        if i < n {
            return Err(AltrepoError::InvalidHeader);
        }
        let header = String::from_str("Bearer ").concat(token);
        Ok(AltrepoClient { base_url: self.base_url, auth_header: Some(header) })
    }

    /// The base URL, rendered as a string.
    pub fn base_url(&self) -> (r: &String)
        ensures
            r@ == self.spec_base_url(),
    {
        &self.base_url
    }

    /// The authorization header value to send with every request, when a
    /// bearer token has been applied.
    pub fn auth_header(&self) -> (r: &Option<String>)
        ensures
            r is Some <==> self.spec_auth_header() is Some,
            r matches Some(h) ==> self.spec_auth_header() matches Some(t) && h@ == t,
    {
        &self.auth_header
    }

    /// The full URL a GET request for `path` with `query` goes to: `path`,
    /// less any leading slashes, resolved against the base URL, with the
    /// query pairs appended in the given order, duplicates kept. Fails
    /// exactly when resolution does, with `InvalidBaseUrl`, as the
    /// construction path does.
    pub fn request_url(&self, path: &str, query: Option<Vec<(String, String)>>) -> (r: Result<
        String,
        AltrepoError,
    >)
        ensures
            r is Ok <==> url_resolved(self.spec_base_url(), strip_slashes(path@)) is Some,
            r matches Ok(u) ==> url_resolved(self.spec_base_url(), strip_slashes(path@))
                matches Some(t) && (match query {
                Some(pairs) => u@ == with_query(t, pair_views(pairs@)),
                None => u@ == t,
            }),
            r matches Err(e) ==> e == AltrepoError::InvalidBaseUrl,
    {
        let stripped = strip_leading_slashes(path);
        match resolve_against(self.base_url.as_str(), stripped) {
            None => Err(AltrepoError::InvalidBaseUrl),
            Some(resolved) => match query {
                None => Ok(resolved),
                Some(pairs) => Ok(append_query(resolved.as_str(), &pairs)),
            },
        }
    }
}

/// Whether `c` may stand in an HTTP header value: horizontal tab or any
/// character that is not a control character. This is the rule the header
/// type of the transport stack applies byte by byte; since every byte of a
/// multi-byte character is above the control range, it comes to the same
/// check per character.
pub open spec fn valid_header_char(c: char) -> bool {
    c == '\t' || (c as u32 >= 32 && c as u32 != 127)
}

/// Whether every character of `token` may stand in an HTTP header value.
pub open spec fn valid_header_token(token: Seq<char>) -> bool {
    forall|k: int| 0 <= k < token.len() ==> valid_header_char(token[k])
}

} // verus!
