use dynamo_llm::sensitive::{is_sensitive_header, REDACTED_PLACEHOLDER};

#[test]
fn authorization_header_is_sensitive() {
    assert!(is_sensitive_header("authorization", "Bearer token"));
    assert!(is_sensitive_header("Authorization", "Bearer token"));
    assert!(is_sensitive_header("AUTHORIZATION", "any value"));
}

#[test]
fn proxy_authorization_header_is_sensitive() {
    assert!(is_sensitive_header("proxy-authorization", "Basic token"));
    assert!(is_sensitive_header("Proxy-Authorization", "any value"));
}

#[test]
fn cookie_headers_are_sensitive() {
    assert!(is_sensitive_header("cookie", "session=abc"));
    assert!(is_sensitive_header("Cookie", "token=xyz"));
    assert!(is_sensitive_header("set-cookie", "auth=123"));
    assert!(is_sensitive_header("Set-Cookie", "value"));
}

#[test]
fn api_key_headers_are_sensitive() {
    assert!(is_sensitive_header("x-api-key", "key123"));
    assert!(is_sensitive_header("X-API-Key", "key456"));
    assert!(is_sensitive_header("api-key", "key789"));
    assert!(is_sensitive_header("API-Key", "value"));
}

#[test]
fn auth_token_headers_are_sensitive() {
    assert!(is_sensitive_header("x-auth-token", "token123"));
    assert!(is_sensitive_header("X-Auth-Token", "token456"));
    assert!(is_sensitive_header("x-access-token", "token789"));
    assert!(is_sensitive_header("X-Access-Token", "value"));
}

#[test]
fn bearer_token_in_any_header_is_sensitive() {
    assert!(is_sensitive_header("x-custom-header", "Bearer secret"));
    assert!(is_sensitive_header("x-token", "bearer secret"));
    assert!(is_sensitive_header("x-auth", "BEARER secret"));
    assert!(is_sensitive_header("x-credential", "  Bearer token"));
}

#[test]
fn non_sensitive_headers_pass_through() {
    assert!(!is_sensitive_header("x-request-id", "abc-123"));
    assert!(!is_sensitive_header("x-tenant", "acme"));
    assert!(!is_sensitive_header("content-type", "application/json"));
    assert!(!is_sensitive_header("x-custom", "some value"));
}

#[test]
fn non_bearer_values_in_non_credential_headers_pass_through() {
    assert!(!is_sensitive_header("x-token-type", "JWT"));
    assert!(!is_sensitive_header("x-auth-method", "OAuth2"));
    assert!(!is_sensitive_header(
        "x-description",
        "This is not a bearer token"
    ));
}

#[test]
fn redaction_placeholder_text() {
    assert_eq!(REDACTED_PLACEHOLDER, "<redacted>");
}

#[test]
fn denylisted_name_is_sensitive_with_any_value() {
    assert!(is_sensitive_header("Set-Cookie", ""));
    assert!(is_sensitive_header("x-api-key", "Bearer "));
    assert!(is_sensitive_header("proxy-AUTHORIZATION", "plain"));
}

#[test]
fn name_must_match_whole_denylisted_name() {
    assert!(!is_sensitive_header("cookies", "x"));
    assert!(!is_sensitive_header("x-cookie", "x"));
    assert!(!is_sensitive_header("authorizatio", "x"));
    assert!(!is_sensitive_header(" authorization", "x"));
}

#[test]
fn unicode_leading_whitespace_is_trimmed_before_bearer() {
    assert!(is_sensitive_header("x-a", "\t\n Bearer t"));
    assert!(is_sensitive_header("x-a", "\u{a0}\u{2003}\u{3000}bearer t"));
    assert!(is_sensitive_header("x-a", "\u{85}bEaReR t"));
}

#[test]
fn bearer_prefix_edges() {
    // Exactly the prefix, with nothing after it.
    assert!(is_sensitive_header("x-a", "bearer "));
    // The space is part of the prefix.
    assert!(!is_sensitive_header("x-a", "bearer"));
    assert!(!is_sensitive_header("x-a", "bearertoken"));
    assert!(!is_sensitive_header("x-a", "bearer\ttoken"));
    // Non-whitespace before the prefix hides nothing else: it is no prefix then.
    assert!(!is_sensitive_header("x-a", "xbearer t"));
    // A zero-width space is not whitespace.
    assert!(!is_sensitive_header("x-a", "\u{200b}bearer t"));
    assert!(!is_sensitive_header("x-a", ""));
    assert!(!is_sensitive_header("x-a", "   "));
}

#[test]
fn multibyte_text_near_the_prefix_does_not_match() {
    // The seventh byte falls inside a multi-byte character.
    assert!(!is_sensitive_header("x-a", "bearé token"));
    assert!(!is_sensitive_header("x-a", "béarer token"));
    assert!(!is_sensitive_header("x-a", "éé"));
    // Non-ASCII letters are not folded to ASCII.
    assert!(!is_sensitive_header("x-a", "BEARER\u{a0}t"));
    assert!(!is_sensitive_header("\u{212a}ookie", "x"));
}
