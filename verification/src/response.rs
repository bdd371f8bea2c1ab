use vstd::prelude::*;

use crate::error::AltrepoError;
use crate::json::{field_string, parse_object, scan_object, string_field};
use crate::models::{ApiVersion, PingResponse};

verus! {

/// The text carried by the error a body that fails to decode turns into.
pub open spec fn decode_error_text() -> Seq<char> {
    "error decoding response body"@
}

/// The message of a well-formed ping body, if it is one.
pub open spec fn ping_message(s: Seq<char>) -> Option<Seq<char>> {
    match parse_object(s) {
        Some(fields) => string_field(fields, "message"@),
        None => None,
    }
}

/// The name, version and description of a well-formed version body, if it
/// is one.
pub open spec fn version_fields(s: Seq<char>) -> Option<(Seq<char>, Seq<char>, Seq<char>)> {
    match parse_object(s) {
        Some(fields) => match (string_field(fields, "name"@), string_field(fields, "version"@),
            string_field(fields, "description"@)) {
            (Some(n), Some(v), Some(d)) => Some((n, v, d)),
            _ => None,
        },
        None => None,
    }
}

/// Sorts a response by its status code: a success status passes the body
/// through for decoding, any other status becomes the status error carrying
/// the code and the body text, exactly as received.
pub fn handle_response(status: u16, body: String) -> (r: Result<String, AltrepoError>)
    ensures
        200 <= status < 300 ==> (r matches Ok(b) && b@ == body@),
        !(200 <= status < 300) ==> (r matches Err(e) && e == (AltrepoError::HttpStatus {
            status,
            body,
        })),
{
    if 200 <= status && status < 300 {
        Ok(body)
    } else {
        Err(AltrepoError::HttpStatus { status, body })
    }
}

/// Decodes a ping body: succeeds exactly when the body is a JSON object of
/// string fields with one `message` field, whose value becomes the answer.
/// Anything else is a decode failure, reported as a transport error.
pub fn decode_ping(body: &str) -> (r: Result<PingResponse, AltrepoError>)
    ensures
        r is Ok <==> ping_message(body@) is Some,
        r matches Ok(p) ==> ping_message(body@) matches Some(m) && p.message@ == m,
        r matches Err(e) ==> e matches AltrepoError::Transport(m) && m@ == decode_error_text(),
{
    match scan_object(body) {
        Some(fields) => {
            let key = String::from_str("message");
            match field_string(&fields, &key) {
                Some(v) => Ok(PingResponse { message: v }),
                None => Err(AltrepoError::Transport(String::from_str(
                    "error decoding response body",
                ))),
            }
        },
        None => Err(AltrepoError::Transport(String::from_str("error decoding response body"))),
    }
}

/// Decodes a version body: succeeds exactly when the body is a JSON object
/// of string fields with one `name`, one `version` and one `description`
/// field. Anything else is a decode failure, reported as a transport error.
pub fn decode_version(body: &str) -> (r: Result<ApiVersion, AltrepoError>)
    ensures
        r is Ok <==> version_fields(body@) is Some,
        r matches Ok(v) ==> version_fields(body@) matches Some(t) && v.name@ == t.0 && v.version@
            == t.1 && v.description@ == t.2,
        r matches Err(e) ==> e matches AltrepoError::Transport(m) && m@ == decode_error_text(),
{
    match scan_object(body) {
        Some(fields) => {
            let name_key = String::from_str("name");
            let version_key = String::from_str("version");
            let description_key = String::from_str("description");
            let name = field_string(&fields, &name_key);
            let version = field_string(&fields, &version_key);
            let description = field_string(&fields, &description_key);
            match (name, version, description) {
                (Some(n), Some(v), Some(d)) => Ok(
                    ApiVersion { name: n, version: v, description: d },
                ),
                _ => Err(AltrepoError::Transport(String::from_str("error decoding response body"))),
            }
        },
        None => Err(AltrepoError::Transport(String::from_str("error decoding response body"))),
    }
}

} // verus!
