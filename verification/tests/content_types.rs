//! Content-type parsing.

use pact_plugins::mime::MimeType;
use pact_plugins::resolver::{resolve_content_type, ResolveError};

#[test]
fn parses_plain_type_and_subtype() {
    let m = MimeType::parse("application/json").unwrap();
    assert_eq!(m.raw, "application/json");
    assert_eq!(m.main_type, "application");
    assert_eq!(m.sub_type, "json");
    assert!(m.parameters.is_none());
}

#[test]
fn parses_parameters() {
    let m = MimeType::parse("text/plain;charset=utf-8").unwrap();
    assert_eq!(m.main_type, "text");
    assert_eq!(m.sub_type, "plain");
    assert_eq!(m.parameters.as_deref(), Some("charset=utf-8"));
}

#[test]
fn parses_suffixed_subtype() {
    let m = MimeType::parse("application/vnd.api+json").unwrap();
    assert_eq!(m.main_type, "application");
    assert_eq!(m.sub_type, "vnd.api+json");
}

#[test]
fn rejects_text_without_slash() {
    assert!(MimeType::parse("not valid").is_none());
    assert!(MimeType::parse("").is_none());
}

#[test]
fn rejects_empty_type_or_subtype() {
    assert!(MimeType::parse("/json").is_none());
    assert!(MimeType::parse("application/").is_none());
    assert!(MimeType::parse("appl ication/json").is_none());
}

#[test]
fn invalid_content_type_is_its_own_error() {
    assert!(matches!(
        resolve_content_type("not valid"),
        Err(ResolveError::InvalidContentType)
    ));
    assert!(resolve_content_type("application/x-custom").is_ok());
}
