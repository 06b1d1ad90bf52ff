//! Argument descriptions and the provider-contract publish types.

use pact_plugins::args::{get_vector, parse_argument, OptionsFlags};
use pact_plugins::publish::{
    load_files, ProviderContractUploadRequestBody, SourceLoad, VerificationResults,
};

#[test]
fn parse_argument_carries_every_piece_over() {
    let arg = parse_argument(
        Some("loglevel".to_string()),
        Some("l".to_string()),
        Some("Log level (defaults to warn)".to_string()),
        Some(vec!["error".to_string(), "warn".to_string()]),
        Some("warn".to_string()),
        false,
        Some("PACT_LOG_LEVEL".to_string()),
    );
    assert_eq!(arg.long.as_deref(), Some("loglevel"));
    assert_eq!(arg.short.as_deref(), Some("l"));
    assert_eq!(arg.help.as_deref(), Some("Log level (defaults to warn)"));
    assert_eq!(
        arg.possible_values,
        Some(vec!["error".to_string(), "warn".to_string()])
    );
    assert_eq!(arg.default_value.as_deref(), Some("warn"));
    assert_eq!(arg.multiple, Some(false));
    assert_eq!(arg.env.as_deref(), Some("PACT_LOG_LEVEL"));
}

#[test]
fn parse_argument_reports_multiple_when_set() {
    let arg = parse_argument(Some("file".to_string()), None, None, None, None, true, None);
    assert_eq!(arg.multiple, Some(true));
    assert!(arg.short.is_none());
    assert!(arg.possible_values.is_none());
}

#[test]
fn options_and_flags_keep_their_arguments_apart() {
    let option = parse_argument(Some("scheme".to_string()), None, None, None, None, false, None);
    let flag = parse_argument(
        Some("disable-ssl-verification".to_string()),
        None,
        None,
        None,
        None,
        false,
        None,
    );
    let all = OptionsFlags { options: vec![option], flags: vec![flag] };
    assert_eq!(all.options.len(), 1);
    assert_eq!(all.options[0].long.as_deref(), Some("scheme"));
    assert_eq!(all.flags[0].long.as_deref(), Some("disable-ssl-verification"));
}

#[test]
fn get_vector_keeps_present_non_empty_items_in_order() {
    let items = vec![
        Some("one".to_string()),
        None,
        Some(String::new()),
        Some("two".to_string()),
    ];
    assert_eq!(get_vector(items), vec!["one".to_string(), "two".to_string()]);
    assert!(get_vector(vec![]).is_empty());
}

#[test]
fn load_files_returns_every_source_when_all_load() {
    let sources = vec![
        ("contract.yml".to_string(), SourceLoad::Loaded("spec: 1".to_string())),
        ("results.json".to_string(), SourceLoad::Loaded("{}".to_string())),
    ];
    let loaded = load_files(sources).expect("all sources loaded");
    assert_eq!(loaded.len(), 2);
    assert_eq!(loaded[0], ("contract.yml".to_string(), "spec: 1".to_string()));
    assert_eq!(loaded[1], ("results.json".to_string(), "{}".to_string()));
}

#[test]
fn load_files_names_each_failing_source() {
    let sources = vec![
        ("contract.yml".to_string(), SourceLoad::Loaded("spec: 1".to_string())),
        ("missing.yml".to_string(), SourceLoad::Failed("file is not JSON or YML".to_string())),
    ];
    let failed = load_files(sources).expect_err("one source failed");
    assert_eq!(failed.len(), 1);
    assert_eq!(failed[0].0, "missing.yml");
    assert_eq!(failed[0].1, "file is not JSON or YML");
}

#[test]
fn upload_request_body_defaults_to_empty_fields() {
    let body = ProviderContractUploadRequestBody::default();
    assert!(body.content.is_empty());
    assert!(body.contract_type.is_empty());
    assert!(body.content_type.is_empty());
    let results = VerificationResults::default();
    assert!(results.success.is_empty());
    assert!(results.verifier.is_empty());
    assert_eq!(body.verification_results, results);
}
