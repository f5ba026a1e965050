use chaos::protocol::{
    constant_time_eq, is_host_id, is_secret, to_hex, ApiError, HostToken, API_VERSION,
    BEARER_SCHEME, ENROLLMENT_HEADER, ENROLL_PATH, HEALTH_PATH, INGEST_PATH, MAX_BATCH_EVENTS,
};

#[test]
fn hex_round_trips() {
    assert_eq!(to_hex(&[]), "");
    assert_eq!(to_hex(&[0x00, 0x0f, 0xf0, 0xff]), "000ff0ff");
    assert_eq!(to_hex(&[0xde, 0xad, 0xbe, 0xef]), "deadbeef");
}

#[test]
fn a_well_formed_token_round_trips() {
    let id = "0123456789abcdef";
    let secret = "a".repeat(64);
    let token = HostToken::new(id.to_string(), secret.clone()).expect("valid shape");
    assert_eq!(token.host_id, id);
    assert_eq!(token.secret(), secret);

    let encoded = token.encode();
    assert_eq!(encoded, format!("{id}.{secret}"));
    assert_eq!(HostToken::parse(&encoded), Some(token));
}

#[test]
fn malformed_tokens_are_rejected_before_any_lookup() {
    let good_id = "0123456789abcdef";
    let good_secret = "b".repeat(64);

    // Wrong lengths.
    assert!(HostToken::parse("").is_none());
    assert!(
        HostToken::parse("0123456789abcdef").is_none(),
        "no separator"
    );
    assert!(
        HostToken::parse(&format!(".{good_secret}")).is_none(),
        "empty host id"
    );
    assert!(
        HostToken::parse(&format!("{good_id}.")).is_none(),
        "empty secret"
    );
    assert!(
        HostToken::parse(&format!("{good_id}.{}", "b".repeat(63))).is_none(),
        "short secret"
    );

    // Uppercase hex is a different string, not a case-insensitive alias.
    assert!(HostToken::parse(&format!("{}.{good_secret}", good_id.to_uppercase())).is_none());
    assert!(HostToken::parse(&format!("{good_id}.{}", good_secret.to_uppercase())).is_none());

    // Non-hex characters, including the ones a path-traversal attempt
    // would need.
    assert!(HostToken::parse(&format!("{good_id}../../etc")).is_none());
    assert!(HostToken::parse(&format!("{good_id}.{}", "z".repeat(64))).is_none());
}

#[test]
fn extra_dots_do_not_smuggle_a_longer_secret() {
    // `split_once` splits at the first dot, so the remainder is the secret
    // and its length check rejects this. Worth pinning: a `splitn` would
    // have silently dropped the tail.
    let id = "0123456789abcdef";
    let raw = format!("{id}.{}.{}", "a".repeat(64), "b".repeat(64));
    assert!(HostToken::parse(&raw).is_none());
}

#[test]
fn authorization_parsing_is_strict_but_scheme_insensitive() {
    let id = "0123456789abcdef";
    let secret = "c".repeat(64);
    let raw = format!("{id}.{secret}");

    assert!(HostToken::from_authorization(&format!("Bearer {raw}")).is_some());
    assert!(HostToken::from_authorization(&format!("bearer {raw}")).is_some());
    assert!(HostToken::from_authorization(&format!("BEARER {raw}")).is_some());

    // Wrong scheme, or no scheme at all.
    assert!(HostToken::from_authorization(&format!("Basic {raw}")).is_none());
    assert!(HostToken::from_authorization(&raw).is_none());
    assert!(HostToken::from_authorization("Bearer").is_none());
    assert!(HostToken::from_authorization("").is_none());
    // A malformed credential is rejected even with the right scheme.
    assert!(HostToken::from_authorization("Bearer nonsense").is_none());
}

#[test]
fn constant_time_eq_agrees_with_equality() {
    assert!(constant_time_eq(b"", b""));
    assert!(constant_time_eq(b"abc", b"abc"));
    assert!(
        !constant_time_eq(b"abc", b"abd"),
        "differs in the last byte"
    );
    assert!(
        !constant_time_eq(b"abc", b"xbc"),
        "differs in the first byte"
    );
    assert!(!constant_time_eq(b"abc", b"ab"), "length mismatch");
    assert!(!constant_time_eq(b"", b"a"));
}

#[test]
fn an_error_carries_a_detail_only_where_one_was_given() {
    let bare = ApiError::new("unauthorized");
    assert_eq!(bare.error, "unauthorized");
    assert_eq!(bare.detail, None);
    let detailed = ApiError::with_detail("bad_request", "batch too large");
    assert_eq!(detailed.error, "bad_request");
    assert_eq!(detailed.detail.as_deref(), Some("batch too large"));
}

#[test]
fn a_host_id_and_a_secret_have_one_shape_each() {
    assert!(is_host_id("0123456789abcdef"));
    assert!(!is_host_id("0123456789abcdeF"));
    assert!(!is_host_id("0123456789abcde"));
    assert!(is_secret(&"0f".repeat(32)));
    assert!(!is_secret(&"0f".repeat(33)));
    assert!(HostToken::new("short".to_string(), "0f".repeat(32)).is_none());
    assert!(HostToken::new("0123456789abcdef".to_string(), "0F".repeat(32)).is_none());
}

#[test]
fn a_token_with_spaces_around_it_is_not_a_token() {
    let raw = format!("0123456789abcdef.{}", "c".repeat(64));
    assert!(HostToken::from_authorization(&format!("Bearer {raw}")).is_some());
    assert!(HostToken::from_authorization(&format!("Bearer  {raw}")).is_none());
    assert!(HostToken::from_authorization(&format!("Bearer {raw} ")).is_none());
}

#[test]
fn a_token_made_of_random_bytes_parses() {
    let id = to_hex(&[1, 2, 3, 4, 5, 6, 7, 8]);
    let secret = to_hex(&[0xab; 32]);
    let token = HostToken::new(id.clone(), secret.clone()).expect("both are hex");
    assert_eq!(HostToken::parse(&token.encode()), Some(token));
}

#[test]
fn the_wire_names_are_fixed() {
    assert_eq!(API_VERSION, 1);
    assert_eq!(HEALTH_PATH, "/health");
    assert_eq!(ENROLL_PATH, "/v1/enroll");
    assert_eq!(INGEST_PATH, "/v1/ingest");
    assert_eq!(ENROLLMENT_HEADER, "x-enrollment-token");
    assert_eq!(BEARER_SCHEME, "Bearer");
    assert_eq!(MAX_BATCH_EVENTS, 5_000);
}
