//! Strict URI validation cases.

use wamp_async::uri::is_valid_strict_uri;

#[test]
fn accepts_plain_dotted_lowercase() {
    assert!(is_valid_strict_uri("com.example.topic_one"));
    assert!(is_valid_strict_uri("a"));
    assert!(is_valid_strict_uri("a1.b2_c3"));
    assert!(is_valid_strict_uri("wamp")); // only the dotted prefix is reserved
}

#[test]
fn rejects_reserved_prefix() {
    assert!(!is_valid_strict_uri("wamp.x"));
    assert!(!is_valid_strict_uri("wamp.close.goodbye_and_out"));
}

#[test]
fn rejects_empty_tokens() {
    assert!(!is_valid_strict_uri(".."));
    assert!(!is_valid_strict_uri(""));
    assert!(!is_valid_strict_uri(".a"));
    assert!(!is_valid_strict_uri("a."));
    assert!(!is_valid_strict_uri("a..b"));
}

#[test]
fn rejects_bad_characters() {
    assert!(!is_valid_strict_uri("Upper.case"));
    assert!(!is_valid_strict_uri("foo!bar"));
    assert!(!is_valid_strict_uri("a b"));
    assert!(!is_valid_strict_uri("héllo"));
}
