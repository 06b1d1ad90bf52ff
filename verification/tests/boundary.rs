//! The handle-addressed boundary: status codes, plugin attachment and
//! contract teardown.

use pact_plugins::body::BodyValue;
use pact_plugins::catalogue::{Catalogue, MatcherKind};
use pact_plugins::interaction::{InteractionKind, InteractionPart};
use pact_plugins::manager::{PluginIdentity, PluginManager};
use pact_plugins::mime::MimeType;
use pact_plugins::resolver::{ContentCandidate, PluginConfigData, PluginReply};
use pact_plugins::store::{ContentsStep, InteractionHandle, Store, UsingPluginStep};

fn store_with_interaction() -> (Store, InteractionHandle) {
    let mut store = Store::new();
    let pact = store.add_pact();
    let handle = store.add_interaction(pact, InteractionKind::SynchronousHttp).unwrap();
    (store, handle)
}

#[test]
fn pactffi_interaction_contents_with_invalid_content_type() {
    let (mut store, handle) = store_with_interaction();
    let catalogue = Catalogue::new();
    let step = store.interaction_contents_begin(
        handle,
        InteractionPart::Request,
        &catalogue,
        "not valid",
        "{}",
    );
    assert!(matches!(step, ContentsStep::Finished(4)));
}

#[test]
fn pactffi_interaction_contents_with_invalid_contents() {
    let (mut store, handle) = store_with_interaction();
    let catalogue = Catalogue::new();
    let step = store.interaction_contents_begin(
        handle,
        InteractionPart::Request,
        &catalogue,
        "application/json",
        "not valid",
    );
    assert!(matches!(step, ContentsStep::Finished(5)));
}

#[test]
fn dangling_interaction_handle_answers_3() {
    let mut store = Store::new();
    let catalogue = Catalogue::new();
    let handle = InteractionHandle { pact: 0, interaction: 0 };
    let step = store.interaction_contents_begin(
        handle,
        InteractionPart::Request,
        &catalogue,
        "application/json",
        "{}",
    );
    assert!(matches!(step, ContentsStep::Finished(3)));
}

#[test]
fn started_mock_server_answers_2() {
    let (mut store, handle) = store_with_interaction();
    store.pacts[0].interactions[0].started = true;
    let catalogue = Catalogue::new();
    let step = store.interaction_contents_begin(
        handle,
        InteractionPart::Request,
        &catalogue,
        "text/plain",
        "\"body\"",
    );
    assert!(matches!(step, ContentsStep::Finished(2)));
    assert_eq!(store.pacts[0].interactions[0].request.body, BodyValue::Missing);
}

#[test]
fn unsupported_interaction_shape_answers_1() {
    let mut store = Store::new();
    let pact = store.add_pact();
    let handle = store.add_interaction(pact, InteractionKind::SynchronousMessage).unwrap();
    let catalogue = Catalogue::new();
    let step = store.interaction_contents_begin(
        handle,
        InteractionPart::Request,
        &catalogue,
        "text/plain",
        "\"body\"",
    );
    assert!(matches!(step, ContentsStep::Finished(1)));
}

#[test]
fn core_contents_finish_with_0() {
    let (mut store, handle) = store_with_interaction();
    let catalogue = Catalogue::new();
    let step = store.interaction_contents_begin(
        handle,
        InteractionPart::Request,
        &catalogue,
        "application/json",
        "{\"contents\": {\"a\": 1}}",
    );
    assert!(matches!(step, ContentsStep::Finished(0)));
    match &store.pacts[0].interactions[0].request.body {
        BodyValue::Present { bytes, content_type } => {
            assert_eq!(bytes.as_slice(), b"{\"a\":1}");
            assert!(content_type.is_none());
        }
        other => panic!("unexpected body: {:?}", other),
    }
}

#[test]
fn plugin_contents_round_trip_through_the_pending_call() {
    let (mut store, handle) = store_with_interaction();
    let mut catalogue = Catalogue::new();
    let ct = MimeType::parse("application/x-custom").unwrap();
    catalogue.register(
        &ct,
        MatcherKind::Plugin { name: "custom-matcher".to_string(), version: "1.0".to_string() },
    );
    let step = store.interaction_contents_begin(
        handle,
        InteractionPart::Request,
        &catalogue,
        "application/x-custom",
        "{\"field\": \"value\"}",
    );
    let pending = match step {
        ContentsStep::PluginCall(pending) => pending,
        other => panic!("unexpected outcome: {:?}", other),
    };
    assert_eq!(pending.request.plugin_name, "custom-matcher");
    assert_eq!(pending.request.config[0].0, "field");
    assert_eq!(pending.request.config[0].1, "\"value\"");

    let reply = PluginReply {
        contents: vec![ContentCandidate {
            body: BodyValue::Present { bytes: b"payload".to_vec(), content_type: None },
            rules: None,
            generators: None,
            plugin_config: PluginConfigData {
                interaction_configuration: vec![],
                pact_configuration: vec![],
            },
            interaction_markup: String::new(),
            interaction_markup_type: String::new(),
        }],
        plugin_config: Some(PluginConfigData {
            interaction_configuration: vec![],
            pact_configuration: vec![("schema".to_string(), "v1".to_string())],
        }),
    };
    let status = store.interaction_contents_apply(pending, Ok(reply));
    assert_eq!(status, 0);
    match &store.pacts[0].interactions[0].request.body {
        BodyValue::Present { bytes, .. } => assert_eq!(bytes.as_slice(), b"payload"),
        other => panic!("unexpected body: {:?}", other),
    }
    assert_eq!(store.pacts[0].interactions[0].request.headers[0].0, "content-type");
    assert_eq!(store.pacts[0].plugin_data.len(), 1);
    assert_eq!(store.pacts[0].plugin_data[0].0.name, "custom-matcher");
    assert_eq!(store.pacts[0].plugin_data[0].1, vec![("schema".to_string(), "v1".to_string())]);
}

#[test]
fn starting_the_mock_server_mid_call_blocks_the_reply() {
    let (mut store, handle) = store_with_interaction();
    let mut catalogue = Catalogue::new();
    let ct = MimeType::parse("application/x-custom").unwrap();
    catalogue.register(
        &ct,
        MatcherKind::Plugin { name: "custom-matcher".to_string(), version: "1.0".to_string() },
    );
    let step = store.interaction_contents_begin(
        handle,
        InteractionPart::Request,
        &catalogue,
        "application/x-custom",
        "{\"field\": \"value\"}",
    );
    let pending = match step {
        ContentsStep::PluginCall(pending) => pending,
        other => panic!("unexpected outcome: {:?}", other),
    };
    store.pacts[0].interactions[0].started = true;
    let reply = PluginReply { contents: vec![], plugin_config: None };
    assert_eq!(store.interaction_contents_apply(pending, Ok(reply)), 2);
    assert_eq!(store.pacts[0].interactions[0].request.body, BodyValue::Missing);
}

#[test]
fn failed_plugin_call_answers_6_and_changes_nothing() {
    let (mut store, handle) = store_with_interaction();
    let mut catalogue = Catalogue::new();
    let ct = MimeType::parse("application/x-custom").unwrap();
    catalogue.register(
        &ct,
        MatcherKind::Plugin { name: "custom-matcher".to_string(), version: "1.0".to_string() },
    );
    let step = store.interaction_contents_begin(
        handle,
        InteractionPart::Request,
        &catalogue,
        "application/x-custom",
        "{\"field\": \"value\"}",
    );
    let pending = match step {
        ContentsStep::PluginCall(pending) => pending,
        other => panic!("unexpected outcome: {:?}", other),
    };
    let status =
        store.interaction_contents_apply(pending, Err("plugin exploded".to_string()));
    assert_eq!(status, 6);
    assert_eq!(store.pacts[0].interactions[0].request.body, BodyValue::Missing);
    assert!(store.pacts[0].plugin_data.is_empty());
}

#[test]
fn using_plugin_loads_once_and_records_the_ledger_entry() {
    let mut store = Store::new();
    let pact = store.add_pact();
    let mut manager = PluginManager::new();

    let id = match store.using_plugin_begin(pact, &mut manager, "custom-matcher", "1.0") {
        UsingPluginStep::StartPlugin(id) => id,
        other => panic!("unexpected outcome: {:?}", other),
    };
    assert_eq!(store.using_plugin_confirm(pact, &mut manager, &id, true), 0);
    assert_eq!(manager.loaded_count(&id), 1);
    assert_eq!(store.pacts[0].plugin_data.len(), 1);
    assert_eq!(store.pacts[0].plugin_data[0].0.name, "custom-matcher");

    match store.using_plugin_begin(pact, &mut manager, "custom-matcher", "1.0") {
        UsingPluginStep::Done(0) => {}
        other => panic!("unexpected outcome: {:?}", other),
    }
    assert_eq!(manager.loaded_count(&id), 2);
    assert_eq!(store.pacts[0].plugin_data.len(), 1);
}

#[test]
fn failed_plugin_start_rolls_the_reference_back() {
    let mut store = Store::new();
    let pact = store.add_pact();
    let mut manager = PluginManager::new();
    let id = match store.using_plugin_begin(pact, &mut manager, "custom-matcher", "1.0") {
        UsingPluginStep::StartPlugin(id) => id,
        other => panic!("unexpected outcome: {:?}", other),
    };
    assert_eq!(store.using_plugin_confirm(pact, &mut manager, &id, false), 2);
    assert_eq!(manager.loaded_count(&id), 0);
    assert!(store.pacts[0].plugin_data.is_empty());
}

#[test]
fn cleanup_releases_every_ledger_entry_once() {
    let mut store = Store::new();
    let pact = store.add_pact();
    let mut manager = PluginManager::new();

    let a = match store.using_plugin_begin(pact, &mut manager, "matcher-a", "1.0") {
        UsingPluginStep::StartPlugin(id) => id,
        other => panic!("unexpected outcome: {:?}", other),
    };
    store.using_plugin_confirm(pact, &mut manager, &a, true);
    let b = match store.using_plugin_begin(pact, &mut manager, "matcher-b", "2.0") {
        UsingPluginStep::StartPlugin(id) => id,
        other => panic!("unexpected outcome: {:?}", other),
    };
    store.using_plugin_confirm(pact, &mut manager, &b, true);
    // A second contract still holds matcher-a.
    let other_id = PluginIdentity { name: "matcher-a".to_string(), version: "1.0".to_string() };
    manager.load(&other_id);

    let stops = store.cleanup_plugins(pact, &mut manager);
    assert_eq!(stops.len(), 1);
    assert_eq!(stops[0].name, "matcher-b");
    assert_eq!(manager.loaded_count(&a), 1);
    assert_eq!(manager.loaded_count(&b), 0);
    // The ledger itself is kept for serialization.
    assert_eq!(store.pacts[0].plugin_data.len(), 2);

    // Teardown is idempotent: a second pass takes nothing more, so the
    // reference the other contract still holds survives.
    let again = store.cleanup_plugins(pact, &mut manager);
    assert!(again.is_empty());
    assert_eq!(manager.loaded_count(&a), 1);
}

#[test]
fn cleanup_with_a_dangling_handle_releases_nothing() {
    let mut store = Store::new();
    let mut manager = PluginManager::new();
    let id = PluginIdentity { name: "matcher".to_string(), version: "1.0".to_string() };
    manager.load(&id);
    let stops = store.cleanup_plugins(pact_plugins::store::PactHandle { pact: 7 }, &mut manager);
    assert!(stops.is_empty());
    assert_eq!(manager.loaded_count(&id), 1);
}
