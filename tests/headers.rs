use temporal_bun_bridge::{normalize_metadata_headers, MetadataError};

fn pairs(items: &[(&str, &str)]) -> Vec<(String, String)> {
    items
        .iter()
        .map(|(k, v)| (k.to_string(), v.to_string()))
        .collect()
}

fn get<'a>(headers: &'a [(String, String)], key: &str) -> Option<&'a String> {
    headers.iter().find(|(k, _)| k == key).map(|(_, v)| v)
}

fn lowercases_and_extracts_bearer() {
    let headers = pairs(&[
        ("Authorization", " Bearer super-secret "),
        ("X-Custom", " value "),
    ]);

    let (normalized, bearer) = normalize_metadata_headers(headers).expect("headers normalized");

    assert_eq!(get(&normalized, "x-custom"), Some(&"value".to_string()));
    assert!(get(&normalized, "authorization").is_none());
    assert_eq!(bearer.as_deref(), Some("super-secret"));
}

fn preserves_non_bearer_authorization() {
    let headers = pairs(&[("Authorization", "Basic abc")]);

    let (normalized, bearer) = normalize_metadata_headers(headers).expect("headers normalized");

    assert_eq!(get(&normalized, "authorization"), Some(&"Basic abc".to_string()));
    assert_eq!(bearer, None);
}

fn rejects_invalid_input() {
    let dup_headers = pairs(&[("Foo", "one"), ("foo", "two")]);
    let duplicate_err = normalize_metadata_headers(dup_headers).unwrap_err();
    assert!(matches!(
        &duplicate_err,
        MetadataError::DuplicateKey(key) if key == "foo"
    ));
    assert!(duplicate_err.message().contains("duplicate header key"));

    let empty_key = pairs(&[("   ", "value")]);
    let err = normalize_metadata_headers(empty_key).unwrap_err();
    assert!(matches!(err, MetadataError::EmptyKey));
    assert!(err.message().contains("non-empty"));

    let empty_value = pairs(&[("auth", "   ")]);
    let err = normalize_metadata_headers(empty_value).unwrap_err();
    assert!(matches!(&err, MetadataError::EmptyValue(key) if key == "auth"));
    assert!(err.message().contains("must have a non-empty value"));
}

#[test]
fn lib_normalize_metadata_headers_lowercases_and_extracts_bearer() {
    lowercases_and_extracts_bearer();
}

#[test]
fn metadata_normalize_metadata_headers_lowercases_and_extracts_bearer() {
    lowercases_and_extracts_bearer();
}

#[test]
fn tests_normalize_metadata_headers_lowercases_and_extracts_bearer() {
    lowercases_and_extracts_bearer();
}

#[test]
fn lib_normalize_metadata_headers_preserves_non_bearer_authorization() {
    preserves_non_bearer_authorization();
}

#[test]
fn tests_normalize_metadata_headers_preserves_non_bearer_authorization() {
    preserves_non_bearer_authorization();
}

#[test]
fn lib_normalize_metadata_headers_rejects_invalid_input() {
    rejects_invalid_input();
}

#[test]
fn tests_normalize_metadata_headers_rejects_invalid_input() {
    rejects_invalid_input();
}

#[test]
fn normalize_keeps_order_and_trims() {
    let headers = pairs(&[("  B ", " 2 "), ("a", "1"), ("C-Id", "x y")]);
    let (normalized, bearer) = normalize_metadata_headers(headers).expect("headers normalized");
    assert_eq!(normalized, pairs(&[("b", "2"), ("a", "1"), ("c-id", "x y")]));
    assert_eq!(bearer, None);

    let (normalized, bearer) = normalize_metadata_headers(Vec::new()).expect("no headers");
    assert!(normalized.is_empty());
    assert_eq!(bearer, None);
}

#[test]
fn normalize_refuses_a_second_authorization_after_a_bearer_token() {
    let headers = pairs(&[("authorization", "Bearer t1"), ("AUTHORIZATION", "Basic x")]);
    let err = normalize_metadata_headers(headers).unwrap_err();
    assert!(matches!(&err, MetadataError::DuplicateKey(key) if key == "authorization"));
    assert_eq!(err.message(), "duplicate header key 'authorization'");

    // A plain authorization header first, then a bearer one: the key is taken.
    let headers = pairs(&[("Authorization", "Basic x"), ("authorization", "Bearer t1")]);
    let err = normalize_metadata_headers(headers).unwrap_err();
    assert!(matches!(&err, MetadataError::DuplicateKey(key) if key == "authorization"));
}

#[test]
fn normalize_reports_the_first_fault_in_order() {
    let headers = pairs(&[("ok", "v"), ("Empty", " "), ("", "v")]);
    let err = normalize_metadata_headers(headers).unwrap_err();
    assert!(matches!(&err, MetadataError::EmptyValue(key) if key == "empty"));
    assert_eq!(err.message(), "header 'empty' must have a non-empty value");
    assert_eq!(MetadataError::EmptyKey.message(), "header keys must be non-empty");
}

#[test]
fn normalize_keeps_an_empty_bearer_as_a_header() {
    let headers = pairs(&[("Authorization", "Bearer")]);
    let (normalized, bearer) = normalize_metadata_headers(headers).expect("headers normalized");
    assert_eq!(normalized, pairs(&[("authorization", "Bearer")]));
    assert_eq!(bearer, None);
}
