use altrepo_rdb_client::{decode_ping, decode_version, handle_response, AltrepoError};

#[test]
fn success_status_passes_body_through() {
    let r = handle_response(200, "{\"message\":\"pong\"}".to_string());
    assert_eq!(r.expect("2xx should pass"), "{\"message\":\"pong\"}");
}

#[test]
fn no_content_status_is_still_success() {
    let r = handle_response(204, String::new());
    assert_eq!(r.expect("2xx should pass"), "");
}

#[test]
fn service_unavailable_becomes_status_error() {
    let r = handle_response(503, "service unavailable".to_string());
    match r {
        Err(AltrepoError::HttpStatus { status, body }) => {
            assert_eq!(status, 503);
            assert_eq!(body, "service unavailable");
        }
        other => panic!("expected a status error, got {:?}", other),
    }
}

#[test]
fn redirect_status_is_not_success() {
    let r = handle_response(301, String::new());
    assert!(matches!(r, Err(AltrepoError::HttpStatus { status: 301, .. })));
}

#[test]
fn ping_body_decodes() {
    let r = decode_ping("{\"message\":\"pong\"}").expect("body should decode");
    assert_eq!(r.message, "pong");
}

#[test]
fn ping_body_with_whitespace_decodes() {
    let r = decode_ping(" {\n  \"message\" : \"pong\"\r\n} ").expect("body should decode");
    assert_eq!(r.message, "pong");
}

#[test]
fn ping_body_with_extra_field_decodes() {
    let r = decode_ping("{\"extra\":\"x\",\"message\":\"pong\"}").expect("body should decode");
    assert_eq!(r.message, "pong");
}

#[test]
fn escapes_in_values_are_unescaped() {
    let r = decode_ping("{\"message\":\"a\\n\\\"b\\\\c\\/d\\t\"}").expect("body should decode");
    assert_eq!(r.message, "a\n\"b\\c/d\t");
}

#[test]
fn invalid_json_is_a_transport_error() {
    let r = decode_ping("not json");
    assert!(matches!(r, Err(AltrepoError::Transport(_))));
}

#[test]
fn truncated_object_is_a_transport_error() {
    let r = decode_ping("{\"message\":\"pong\"");
    assert!(matches!(r, Err(AltrepoError::Transport(_))));
}

#[test]
fn missing_field_is_a_transport_error() {
    let r = decode_ping("{\"greeting\":\"pong\"}");
    assert!(matches!(r, Err(AltrepoError::Transport(_))));
}

#[test]
fn empty_object_is_a_transport_error() {
    let r = decode_ping("{}");
    assert!(matches!(r, Err(AltrepoError::Transport(_))));
}

#[test]
fn duplicate_field_is_a_transport_error() {
    let r = decode_ping("{\"message\":\"a\",\"message\":\"b\"}");
    assert!(matches!(r, Err(AltrepoError::Transport(_))));
}

#[test]
fn trailing_garbage_is_a_transport_error() {
    let r = decode_ping("{\"message\":\"pong\"} x");
    assert!(matches!(r, Err(AltrepoError::Transport(_))));
}

#[test]
fn version_body_decodes() {
    let body = "{\"name\":\"altrepo\",\"version\":\"1.0\",\"description\":\"repository db\"}";
    let v = decode_version(body).expect("body should decode");
    assert_eq!(v.name, "altrepo");
    assert_eq!(v.version, "1.0");
    assert_eq!(v.description, "repository db");
}

#[test]
fn version_body_missing_field_is_a_transport_error() {
    let body = "{\"name\":\"altrepo\",\"version\":\"1.0\"}";
    assert!(matches!(
        decode_version(body),
        Err(AltrepoError::Transport(_))
    ));
}
