use cursor_usage::token::{
    extract_user_id_from_jwt, session_token_value, token_info_from_jwt, TokenError,
};

// Payloads below are base64url (no padding) encodings of small JSON
// documents, e.g. `eyJzdWIiOiJhdXRoMHxhYmMxMjMifQ` is `{"sub":"auth0|abc123"}`.

#[test]
fn user_id_from_provider_qualified_sub() {
    let jwt = "header.eyJzdWIiOiJhdXRoMHxhYmMxMjMifQ.signature";
    let uid = extract_user_id_from_jwt(jwt).unwrap();
    assert_eq!(uid, "abc123");
}

#[test]
fn user_id_from_bare_sub_is_lenient_fallback() {
    // `{"sub":"abc123"}` — no pipe: the whole claim is the user id.
    let jwt = "header.eyJzdWIiOiJhYmMxMjMifQ.signature";
    let uid = extract_user_id_from_jwt(jwt).unwrap();
    assert_eq!(uid, "abc123");
}

#[test]
fn user_id_takes_second_pipe_segment() {
    // `{"sub":"a|b|c"}` — the segment between the first two pipes.
    let jwt = "h.eyJzdWIiOiJhfGJ8YyJ9.s";
    assert_eq!(extract_user_id_from_jwt(jwt).unwrap(), "b");
}

#[test]
fn user_id_after_trailing_pipe_is_empty() {
    // `{"sub":"a|"}`
    let jwt = "h.eyJzdWIiOiJhfCJ9.s";
    assert_eq!(extract_user_id_from_jwt(jwt).unwrap(), "");
}

#[test]
fn jwt_without_dot_is_invalid() {
    assert!(matches!(extract_user_id_from_jwt("nodots"), Err(TokenError::InvalidJwt)));
}

#[test]
fn jwt_with_bad_base64_payload_is_invalid() {
    assert!(matches!(extract_user_id_from_jwt("h.!!!.s"), Err(TokenError::InvalidJwt)));
}

#[test]
fn jwt_with_non_json_payload_is_invalid() {
    // `notjson`
    assert!(matches!(extract_user_id_from_jwt("h.bm90anNvbg.s"), Err(TokenError::InvalidJwt)));
}

#[test]
fn jwt_without_sub_claim_is_missing_sub() {
    // `{"a":1}`
    assert!(matches!(extract_user_id_from_jwt("h.eyJhIjoxfQ.s"), Err(TokenError::MissingSubClaim)));
}

#[test]
fn jwt_with_non_string_sub_is_missing_sub() {
    // `{"sub":5}`
    assert!(matches!(
        extract_user_id_from_jwt("h.eyJzdWIiOjV9.s"),
        Err(TokenError::MissingSubClaim)
    ));
}

#[test]
fn session_token_uses_percent_encoded_separator() {
    assert_eq!(session_token_value("u1", "x.y.z"), "u1%3A%3Ax.y.z");
}

#[test]
fn token_info_combines_user_id_and_jwt() {
    let jwt = "header.eyJzdWIiOiJhdXRoMHxhYmMxMjMifQ.signature";
    let info = token_info_from_jwt(jwt).unwrap();
    assert_eq!(info.user_id, "abc123");
    assert_eq!(
        info.session_token,
        "abc123%3A%3Aheader.eyJzdWIiOiJhdXRoMHxhYmMxMjMifQ.signature"
    );
}

#[test]
fn payload_encoded_at_runtime_round_trips() {
    // Exercises the real base64 engine end to end: encode a payload here,
    // decode it through the library.
    let payload =
        base64::Engine::encode(&base64::engine::general_purpose::URL_SAFE_NO_PAD, br#"{"sub":"workos|u42"}"#);
    let jwt = format!("hh.{}.ss", payload);
    assert_eq!(extract_user_id_from_jwt(&jwt).unwrap(), "u42");
}

#[test]
fn error_messages_match_wording() {
    assert_eq!(
        TokenError::DatabaseNotFound("/tmp/x".to_string()).message(),
        "Cursor database not found at: /tmp/x"
    );
    assert_eq!(TokenError::CannotOpen("locked".to_string()).message(), "Cannot open database: locked");
    assert_eq!(TokenError::QueryFailed("boom".to_string()).message(), "Query failed: boom");
    assert_eq!(
        TokenError::TokenNotFound.message(),
        "No auth token found in Cursor database. Are you logged in?"
    );
    assert_eq!(TokenError::InvalidJwt.message(), "Auth token is not a valid JWT");
    assert_eq!(TokenError::MissingSubClaim.message(), "JWT missing 'sub' claim");
}
