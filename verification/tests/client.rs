use altrepo_rdb_client::{AltrepoClient, AltrepoError};

#[test]
fn builds_default_client() {
    let client = AltrepoClient::new().expect("client should be created");
    assert_eq!(client.base_url().as_str(), "https://rdb.altlinux.org/");
}

#[test]
fn joins_url_path_safely() {
    let client = AltrepoClient::with_base_url("https://rdb.altlinux.org")
        .expect("client should be created");
    let url = client
        .request_url("api/ping", None)
        .expect("url should be valid");
    assert_eq!(url.as_str(), "https://rdb.altlinux.org/api/ping");
}

#[test]
fn rejects_empty_base_url() {
    let result = AltrepoClient::with_base_url("");
    assert!(matches!(result, Err(AltrepoError::InvalidBaseUrl)));
}

#[test]
fn rejects_base_url_without_scheme() {
    let result = AltrepoClient::with_base_url("not a url");
    assert!(matches!(result, Err(AltrepoError::InvalidBaseUrl)));
}

#[test]
fn leading_slash_makes_no_difference() {
    let client = AltrepoClient::with_base_url("https://rdb.altlinux.org")
        .expect("client should be created");
    let with_slash = client.request_url("/api/ping", None).expect("url");
    let without_slash = client.request_url("api/ping", None).expect("url");
    assert_eq!(with_slash, without_slash);
    assert_eq!(with_slash.as_str(), "https://rdb.altlinux.org/api/ping");
}

#[test]
fn rejects_bearer_token_with_newline() {
    let client = AltrepoClient::new().expect("client should be created");
    let result = client.with_bearer_token("bad\ntoken");
    assert!(matches!(result, Err(AltrepoError::InvalidHeader)));
}

#[test]
fn accepts_printable_bearer_token() {
    let client = AltrepoClient::new().expect("client should be created");
    let client = client
        .with_bearer_token("secret-token")
        .expect("token should be accepted");
    let header = client.auth_header().as_ref().expect("header should be set");
    assert_eq!(header.as_str(), "Bearer secret-token");
}

#[test]
fn second_bearer_token_replaces_first() {
    let client = AltrepoClient::new().expect("client should be created");
    let client = client.with_bearer_token("first").expect("token accepted");
    let client = client.with_bearer_token("second").expect("token accepted");
    let header = client.auth_header().as_ref().expect("header should be set");
    assert_eq!(header.as_str(), "Bearer second");
}

#[test]
fn query_pairs_keep_duplicates_in_order() {
    let client = AltrepoClient::with_base_url("https://rdb.altlinux.org")
        .expect("client should be created");
    let query = vec![
        ("a".to_string(), "1".to_string()),
        ("a".to_string(), "2".to_string()),
    ];
    let url = client
        .request_url("/api/site/find_packages", Some(query))
        .expect("url should be valid");
    assert_eq!(
        url.as_str(),
        "https://rdb.altlinux.org/api/site/find_packages?a=1&a=2"
    );
}

#[test]
fn query_values_are_form_encoded() {
    let client = AltrepoClient::with_base_url("https://rdb.altlinux.org")
        .expect("client should be created");
    let query = vec![("q".to_string(), "hello world & more".to_string())];
    let url = client
        .request_url("api/search", Some(query))
        .expect("url should be valid");
    assert_eq!(
        url.as_str(),
        "https://rdb.altlinux.org/api/search?q=hello+world+%26+more"
    );
}

#[test]
fn empty_query_list_still_marks_a_query() {
    let client = AltrepoClient::with_base_url("https://rdb.altlinux.org")
        .expect("client should be created");
    let url = client
        .request_url("api/ping", Some(Vec::new()))
        .expect("url should be valid");
    assert_eq!(url.as_str(), "https://rdb.altlinux.org/api/ping?");
}

#[test]
fn query_is_inserted_before_a_fragment() {
    let client = AltrepoClient::with_base_url("https://rdb.altlinux.org")
        .expect("client should be created");
    let query = vec![("a".to_string(), "1".to_string())];
    let url = client
        .request_url("api/ping#part", Some(query))
        .expect("url should be valid");
    assert_eq!(url.as_str(), "https://rdb.altlinux.org/api/ping?a=1#part");
}

#[test]
fn query_extends_an_existing_query() {
    let client = AltrepoClient::with_base_url("https://rdb.altlinux.org")
        .expect("client should be created");
    let query = vec![("b".to_string(), "2".to_string())];
    let url = client
        .request_url("api/ping?a=1", Some(query))
        .expect("url should be valid");
    assert_eq!(url.as_str(), "https://rdb.altlinux.org/api/ping?a=1&b=2");
}
