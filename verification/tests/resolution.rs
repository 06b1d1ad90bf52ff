//! Content resolution: the core body rule and the plugin path.

use pact_plugins::body::BodyValue;
use pact_plugins::catalogue::{Catalogue, MatcherKind};
use pact_plugins::definition::{parse_definition, DefShape};
use pact_plugins::interaction::{Interaction, InteractionKind, InteractionPart};
use pact_plugins::mime::MimeType;
use pact_plugins::resolver::{
    apply_plugin_reply, plugin_call_outcome, setup_contents, ContentCandidate, PluginConfigData,
    PluginReply, ResolveError, SetupStep,
};

fn plugin_catalogue(content_type: &str, name: &str, version: &str) -> Catalogue {
    let mut catalogue = Catalogue::new();
    let ct = MimeType::parse(content_type).unwrap();
    catalogue.register(
        &ct,
        MatcherKind::Plugin { name: name.to_string(), version: version.to_string() },
    );
    catalogue
}

#[test]
fn core_string_definition_becomes_the_body_verbatim() {
    let mut interaction = Interaction::new(InteractionKind::SynchronousHttp);
    let ct = MimeType::parse("text/plain").unwrap();
    let def = parse_definition("\"That is some good Mallory.\"").unwrap();
    let catalogue = Catalogue::new();
    let r = setup_contents(&mut interaction, InteractionPart::Request, &ct, def, &catalogue);
    assert!(matches!(r, Ok(SetupStep::Done)));
    match &interaction.request.body {
        BodyValue::Present { bytes, content_type } => {
            assert_eq!(bytes.as_slice(), b"That is some good Mallory.");
            assert_eq!(content_type.as_deref(), Some("text/plain"));
        }
        other => panic!("unexpected body: {:?}", other),
    }
}

#[test]
fn unregistered_type_matches_registered_core_exactly() {
    let ct = MimeType::parse("application/json").unwrap();
    let def_text = "\"[1,2,3]\"";

    let mut unregistered = Interaction::new(InteractionKind::SynchronousHttp);
    let empty = Catalogue::new();
    let r1 = setup_contents(
        &mut unregistered,
        InteractionPart::Response,
        &ct,
        parse_definition(def_text).unwrap(),
        &empty,
    );

    let mut registered = Interaction::new(InteractionKind::SynchronousHttp);
    let mut core = Catalogue::new();
    core.register(&ct, MatcherKind::Core);
    let r2 = setup_contents(
        &mut registered,
        InteractionPart::Response,
        &ct,
        parse_definition(def_text).unwrap(),
        &core,
    );

    assert!(matches!(r1, Ok(SetupStep::Done)));
    assert!(matches!(r2, Ok(SetupStep::Done)));
    assert_eq!(unregistered.request.body, registered.request.body);
    assert_eq!(unregistered.response.body, registered.response.body);
    assert!(matches!(&unregistered.response.body, BodyValue::Present { .. }));
}

#[test]
fn core_object_definition_decodes_the_contents_member() {
    let mut interaction = Interaction::new(InteractionKind::SynchronousHttp);
    let ct = MimeType::parse("application/json").unwrap();
    let def = parse_definition("{\"contents\": {\"a\": 1}}").unwrap();
    let catalogue = Catalogue::new();
    let r = setup_contents(&mut interaction, InteractionPart::Request, &ct, def, &catalogue);
    assert!(matches!(r, Ok(SetupStep::Done)));
    match &interaction.request.body {
        BodyValue::Present { bytes, content_type } => {
            assert_eq!(bytes.as_slice(), b"{\"a\":1}");
            assert!(content_type.is_none());
        }
        other => panic!("unexpected body: {:?}", other),
    }
}

#[test]
fn core_object_without_contents_member_changes_nothing() {
    let mut interaction = Interaction::new(InteractionKind::SynchronousHttp);
    let ct = MimeType::parse("application/json").unwrap();
    let def = parse_definition("{\"other\": 1}").unwrap();
    let catalogue = Catalogue::new();
    let r = setup_contents(&mut interaction, InteractionPart::Request, &ct, def, &catalogue);
    assert!(matches!(r, Ok(SetupStep::Done)));
    assert_eq!(interaction.request.body, BodyValue::Missing);
}

#[test]
fn started_interaction_is_rejected_unchanged() {
    let mut interaction = Interaction::new(InteractionKind::SynchronousHttp);
    interaction.started = true;
    let ct = MimeType::parse("text/plain").unwrap();
    let def = parse_definition("\"body\"").unwrap();
    let catalogue = Catalogue::new();
    let r = setup_contents(&mut interaction, InteractionPart::Request, &ct, def, &catalogue);
    assert!(matches!(r, Err(ResolveError::AlreadyStarted)));
    assert_eq!(interaction.request.body, BodyValue::Missing);
    assert!(interaction.request.headers.is_empty());
}

#[test]
fn message_interactions_are_unimplemented() {
    let mut interaction = Interaction::new(InteractionKind::AsynchronousMessage);
    let ct = MimeType::parse("text/plain").unwrap();
    let def = parse_definition("\"body\"").unwrap();
    let catalogue = Catalogue::new();
    let r = setup_contents(&mut interaction, InteractionPart::Request, &ct, def, &catalogue);
    assert!(matches!(r, Err(ResolveError::Unimplemented)));
}

#[test]
fn plugin_path_requires_an_object_definition() {
    let mut interaction = Interaction::new(InteractionKind::SynchronousHttp);
    let ct = MimeType::parse("application/x-custom").unwrap();
    let catalogue = plugin_catalogue("application/x-custom", "custom-matcher", "1.0");
    let def = parse_definition("\"just a string\"").unwrap();
    let r = setup_contents(&mut interaction, InteractionPart::Request, &ct, def, &catalogue);
    assert!(matches!(r, Err(ResolveError::InvalidDefinition)));
    assert_eq!(interaction.request.body, BodyValue::Missing);
}

#[test]
fn plugin_path_hands_back_the_configure_call() {
    let mut interaction = Interaction::new(InteractionKind::SynchronousHttp);
    let ct = MimeType::parse("application/x-custom").unwrap();
    let catalogue = plugin_catalogue("application/x-custom", "custom-matcher", "1.0");
    let def = parse_definition("{\"field\": \"value\"}").unwrap();
    let r = setup_contents(&mut interaction, InteractionPart::Request, &ct, def, &catalogue);
    match r {
        Ok(SetupStep::PluginCall(request)) => {
            assert_eq!(request.plugin_name, "custom-matcher");
            assert_eq!(request.plugin_version, "1.0");
            assert_eq!(request.content_type, "application/x-custom");
            assert_eq!(request.config.len(), 1);
            assert_eq!(request.config[0].0, "field");
            assert_eq!(request.config[0].1, "\"value\"");
        }
        other => panic!("unexpected outcome: {:?}", other),
    }
    assert_eq!(interaction.request.body, BodyValue::Missing);
}

#[test]
fn plugin_reply_is_merged_into_the_part() {
    let mut interaction = Interaction::new(InteractionKind::SynchronousHttp);
    let ct = MimeType::parse("application/x-custom").unwrap();
    let reply = PluginReply {
        contents: vec![ContentCandidate {
            body: BodyValue::Present {
                bytes: b"custom payload".to_vec(),
                content_type: Some("application/x-custom".to_string()),
            },
            rules: Some(vec![("$.field".to_string(), "matching(type)".to_string())]),
            generators: Some(vec![("$.id".to_string(), "uuid".to_string())]),
            plugin_config: PluginConfigData {
                interaction_configuration: vec![("mode".to_string(), "strict".to_string())],
                pact_configuration: vec![("schema".to_string(), "v1".to_string())],
            },
            interaction_markup: "## custom".to_string(),
            interaction_markup_type: "markdown".to_string(),
        }],
        plugin_config: Some(PluginConfigData {
            interaction_configuration: vec![],
            pact_configuration: vec![("global".to_string(), "true".to_string())],
        }),
    };
    let attribution = apply_plugin_reply(
        &mut interaction,
        InteractionPart::Request,
        &ct,
        "custom-matcher",
        "1.0",
        reply,
    );

    match &interaction.request.body {
        BodyValue::Present { bytes, .. } => assert_eq!(bytes.as_slice(), b"custom payload"),
        other => panic!("unexpected body: {:?}", other),
    }
    assert_eq!(interaction.request.headers.len(), 1);
    assert_eq!(interaction.request.headers[0].0, "content-type");
    assert_eq!(interaction.request.headers[0].1, vec!["application/x-custom".to_string()]);
    assert_eq!(interaction.request.matching_rules.len(), 1);
    assert_eq!(interaction.request.matching_rules[0].0, "body");
    assert_eq!(interaction.request.matching_rules[0].1[0].0, "$.field");
    assert_eq!(interaction.request.generators.len(), 1);
    assert_eq!(interaction.request.generators[0].0, "body");
    assert_eq!(interaction.request.generators[0].1[0].1, "uuid");
    assert_eq!(interaction.plugin_config.len(), 1);
    assert_eq!(interaction.plugin_config[0].0, "custom-matcher");
    assert_eq!(interaction.plugin_config[0].1[0].0, "mode");
    assert_eq!(interaction.markup.markup, "## custom");
    assert_eq!(interaction.markup.markup_type, "markdown");

    let attribution = attribution.expect("plugin surfaced configuration");
    assert_eq!(attribution.name, "custom-matcher");
    assert_eq!(attribution.version, "1.0");
    assert_eq!(attribution.configuration.pact_configuration[0].0, "global");
}

#[test]
fn plugin_reply_keeps_an_existing_content_type_header() {
    let mut interaction = Interaction::new(InteractionKind::SynchronousHttp);
    interaction
        .request
        .add_header("content-type", vec!["application/json".to_string()]);
    let ct = MimeType::parse("application/x-custom").unwrap();
    let reply = PluginReply {
        contents: vec![ContentCandidate {
            body: BodyValue::Empty,
            rules: None,
            generators: None,
            plugin_config: PluginConfigData {
                interaction_configuration: vec![],
                pact_configuration: vec![],
            },
            interaction_markup: String::new(),
            interaction_markup_type: String::new(),
        }],
        plugin_config: None,
    };
    let attribution = apply_plugin_reply(
        &mut interaction,
        InteractionPart::Request,
        &ct,
        "custom-matcher",
        "1.0",
        reply,
    );
    assert!(attribution.is_none());
    assert_eq!(interaction.request.headers.len(), 1);
    assert_eq!(interaction.request.headers[0].1, vec!["application/json".to_string()]);
    assert_eq!(interaction.request.body, BodyValue::Empty);
    assert!(interaction.plugin_config.is_empty());
}

#[test]
fn a_failed_plugin_call_keeps_its_error_text() {
    let outcome = plugin_call_outcome(Err("Failed to call out to plugin".to_string()));
    match outcome {
        Err(ResolveError::PluginInvocationError(text)) => {
            assert_eq!(text, "Failed to call out to plugin");
        }
        other => panic!("unexpected outcome: {:?}", other),
    }
    assert!(plugin_call_outcome(Ok(PluginReply { contents: vec![], plugin_config: None })).is_ok());
}

#[test]
fn empty_plugin_reply_changes_nothing() {
    let mut interaction = Interaction::new(InteractionKind::SynchronousHttp);
    let ct = MimeType::parse("application/x-custom").unwrap();
    let reply = PluginReply { contents: vec![], plugin_config: None };
    let attribution = apply_plugin_reply(
        &mut interaction,
        InteractionPart::Response,
        &ct,
        "custom-matcher",
        "1.0",
        reply,
    );
    assert!(attribution.is_none());
    assert_eq!(interaction.response.body, BodyValue::Missing);
    assert!(interaction.response.headers.is_empty());
    assert!(interaction.markup.markup.is_empty());
}
