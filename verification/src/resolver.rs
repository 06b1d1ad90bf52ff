//! The content resolver: given a content type and a content definition,
//! chooses the matcher and applies or prepares the configuration of one
//! interaction part.
//!
//! Core-handled content is applied directly. Plugin-handled content needs an
//! out-of-process configure call, which this library does not make itself:
//! `setup_contents` answers with the exact call to perform, and
//! `apply_plugin_reply` merges whatever the plugin answered. The caller runs
//! the call in between and is free to block on it.

use vstd::prelude::*;
use vstd::utf8::encode_utf8;

use crate::assoc::{has_entry, upsert_append, upsert_replace};
use crate::body::{decoded_attr_of, decode_structured_body, BodyModel, BodyValue};
use crate::catalogue::{spec_find_matcher, Catalogue, MatcherKind, MatcherModel};
use crate::definition::{has_key, object_has_key, DefModel, DefShape};
use crate::interaction::{Interaction, InteractionKind, InteractionMarkup, InteractionModel,
    InteractionPart, MarkupModel};
use crate::mime::MimeType;
use crate::part::{HttpPart, PartModel};

verus! {

/// Why a resolution request failed.
#[derive(Debug)]
pub enum ResolveError {
    /// The content-type string does not parse.
    InvalidContentType,
    /// A plugin was chosen but the definition is not an object.
    InvalidDefinition,
    /// The interaction's mock server is already started; live state is never
    /// reconfigured.
    AlreadyStarted,
    /// The plugin answered the configure call with an error; its text is
    /// kept verbatim.
    PluginInvocationError(String),
    /// The interaction's shape cannot be configured yet. Distinct from a
    /// silent no-op on purpose.
    Unimplemented,
}

/// The configure call a plugin matcher asks the caller to perform.
#[derive(Clone, Debug)]
pub struct PluginCallRequest {
    pub plugin_name: String,
    pub plugin_version: String,
    pub content_type: String,
    pub config: Vec<(String, String)>,
}

/// Mathematical model of a `PluginCallRequest`.
pub struct CallModel {
    pub plugin_name: Seq<char>,
    pub plugin_version: Seq<char>,
    pub content_type: Seq<char>,
    pub config: Seq<(Seq<char>, Seq<char>)>,
}

impl View for PluginCallRequest {
    type V = CallModel;

    open spec fn view(&self) -> CallModel {
        CallModel {
            plugin_name: self.plugin_name@,
            plugin_version: self.plugin_version@,
            content_type: self.content_type@,
            config: self.config.deep_view(),
        }
    }
}

/// A plugin's configuration payload: entries for the interaction and entries
/// for the whole contract document.
#[derive(Clone, Debug)]
pub struct PluginConfigData {
    pub interaction_configuration: Vec<(String, String)>,
    pub pact_configuration: Vec<(String, String)>,
}

/// Mathematical model of a `PluginConfigData`.
pub struct ConfigModel {
    pub interaction_configuration: Seq<(Seq<char>, Seq<char>)>,
    pub pact_configuration: Seq<(Seq<char>, Seq<char>)>,
}

impl View for PluginConfigData {
    type V = ConfigModel;

    open spec fn view(&self) -> ConfigModel {
        ConfigModel {
            interaction_configuration: self.interaction_configuration.deep_view(),
            pact_configuration: self.pact_configuration.deep_view(),
        }
    }
}

/// One candidate contents a plugin offers for a part.
#[derive(Clone, Debug)]
pub struct ContentCandidate {
    pub body: BodyValue,
    pub rules: Option<Vec<(String, String)>>,
    pub generators: Option<Vec<(String, String)>>,
    pub plugin_config: PluginConfigData,
    pub interaction_markup: String,
    pub interaction_markup_type: String,
}

/// Mathematical model of a `ContentCandidate`.
pub struct CandidateModel {
    pub body: BodyModel,
    pub rules: Option<Seq<(Seq<char>, Seq<char>)>>,
    pub generators: Option<Seq<(Seq<char>, Seq<char>)>>,
    pub plugin_config: ConfigModel,
    pub interaction_markup: Seq<char>,
    pub interaction_markup_type: Seq<char>,
}

impl View for ContentCandidate {
    type V = CandidateModel;

    open spec fn view(&self) -> CandidateModel {
        CandidateModel {
            body: self.body@,
            rules: self.rules.deep_view(),
            generators: self.generators.deep_view(),
            plugin_config: self.plugin_config@,
            interaction_markup: self.interaction_markup@,
            interaction_markup_type: self.interaction_markup_type@,
        }
    }
}

impl DeepView for ContentCandidate {
    type V = CandidateModel;

    open spec fn deep_view(&self) -> CandidateModel {
        self@
    }
}

/// A successful answer to a plugin configure call.
#[derive(Clone, Debug)]
pub struct PluginReply {
    pub contents: Vec<ContentCandidate>,
    pub plugin_config: Option<PluginConfigData>,
}

/// Mathematical model of a `PluginReply`.
pub struct ReplyModel {
    pub contents: Seq<CandidateModel>,
    pub plugin_config: Option<ConfigModel>,
}

impl View for PluginReply {
    type V = ReplyModel;

    open spec fn view(&self) -> ReplyModel {
        ReplyModel {
            contents: self.contents.deep_view(),
            plugin_config: self.plugin_config.deep_view(),
        }
    }
}

impl DeepView for PluginConfigData {
    type V = ConfigModel;

    open spec fn deep_view(&self) -> ConfigModel {
        self@
    }
}

/// The attribution a resolution reports when a plugin surfaced
/// configuration: which plugin, and what it asked the contract to record.
#[derive(Clone, Debug)]
pub struct PluginAttribution {
    pub name: String,
    pub version: String,
    pub configuration: PluginConfigData,
}

/// Mathematical model of a `PluginAttribution`.
pub struct AttributionModel {
    pub name: Seq<char>,
    pub version: Seq<char>,
    pub configuration: ConfigModel,
}

impl View for PluginAttribution {
    type V = AttributionModel;

    open spec fn view(&self) -> AttributionModel {
        AttributionModel {
            name: self.name@,
            version: self.version@,
            configuration: self.configuration@,
        }
    }
}

/// What `setup_contents` asks of its caller: nothing more, or one plugin
/// configure call.
#[derive(Debug)]
pub enum SetupStep {
    Done,
    PluginCall(PluginCallRequest),
}

/// The body the core rule gives a part: a string definition verbatim with
/// the content type attached, an object with a `contents` member decoded by
/// the core convention, and anything else left alone.
pub open spec fn core_body(before: BodyModel, ct_raw: Seq<char>, def: DefModel) -> BodyModel {
    match def {
        DefModel::Text(s) => BodyModel::Present {
            bytes: encode_utf8(s),
            content_type: Some(ct_raw),
        },
        DefModel::Object { entries, raw } => if has_key(entries, "contents"@) {
            decoded_attr_of(raw, "contents"@)
        } else {
            before
        },
        DefModel::Other => before,
    }
}

/// A part after the core rule: only the body changes.
pub open spec fn spec_core_setup(p: PartModel, ct_raw: Seq<char>, def: DefModel) -> PartModel {
    PartModel { body: core_body(p.body, ct_raw, def), ..p }
}

/// Applies the core body rule to one part.
pub fn setup_core_matcher(part: &mut HttpPart, content_type: &MimeType, definition: &DefShape)
    ensures
        final(part)@ == spec_core_setup(old(part)@, content_type.raw@, definition@),
{
    match definition {
        DefShape::Text(s) => {
            let body = BodyValue::Present {
                bytes: s.as_str().as_bytes_vec(),
                content_type: Some(content_type.raw.clone()),
            };
            part.set_body(body);
        },
        DefShape::Object { entries, raw } => {
            if object_has_key(entries, "contents") {
                let body = decode_structured_body(raw.as_str(), "contents");
                part.set_body(body);
            }
        },
        DefShape::Other => {},
    }
}

/// Parses the content type of a resolution request. An unparseable string
/// is the terminal `InvalidContentType` error: nothing is looked up and
/// nothing runs on its behalf.
pub fn resolve_content_type(s: &str) -> (r: Result<MimeType, ResolveError>)
    ensures
        r is Ok <==> crate::mime::mime_wf(s@),
        r matches Ok(m) ==> m.wf() && m.raw@ == s@,
        r matches Err(e) ==> e is InvalidContentType,
{
    match MimeType::parse(s) {
        Some(m) => Ok(m),
        None => Err(ResolveError::InvalidContentType),
    }
}

/// Under the core rules a string definition becomes the part's body
/// verbatim — its UTF-8 bytes, nothing added or dropped — with the given
/// content type attached; headers, matching rules and generators stay as
/// they were.
pub proof fn lemma_core_string_verbatim(p: PartModel, ct_raw: Seq<char>, s: Seq<char>)
    ensures
        spec_core_setup(p, ct_raw, DefModel::Text(s)) == (PartModel {
            body: BodyModel::Present { bytes: encode_utf8(s), content_type: Some(ct_raw) },
            ..p
        }),
{
}

/// A content type for which no plugin matcher is registered resolves
/// through the core rules: the catalogue answers `Core` whether the type was
/// registered for the core rules or not registered at all, resolution
/// changes the interaction exactly as an explicit `Core` matcher would, and
/// no plugin call — hence no plugin attribution — is asked for.
pub proof fn lemma_no_plugin_means_core(
    im: InteractionModel,
    part: InteractionPart,
    ct_raw: Seq<char>,
    def: DefModel,
    cat: Seq<crate::catalogue::EntryModel>,
    main: Seq<char>,
    sub: Seq<char>,
    r: Result<SetupStep, ResolveError>,
)
    requires
        forall|i: int|
            0 <= i < cat.len() && (#[trigger] cat[i]).main_type == main && cat[i].sub_type == sub
                ==> cat[i].kind is Core,
        !im.started,
        im.kind == InteractionKind::SynchronousHttp,
        setup_outcome_ok(r, im, def, cat, main, sub, ct_raw),
    ensures
        spec_find_matcher(cat, main, sub) is Core,
        spec_contents_state(im, part, ct_raw, def, cat, main, sub) == spec_apply_core(
            im,
            part,
            ct_raw,
            def,
        ),
        r matches Ok(SetupStep::Done),
{
    crate::catalogue::lemma_find_no_plugin(cat, main, sub);
}

/// The interaction after the core rule is applied to the chosen part.
pub open spec fn spec_apply_core(
    im: InteractionModel,
    part: InteractionPart,
    ct_raw: Seq<char>,
    def: DefModel,
) -> InteractionModel {
    match part {
        InteractionPart::Request => InteractionModel {
            request: spec_core_setup(im.request, ct_raw, def),
            ..im
        },
        InteractionPart::Response => InteractionModel {
            response: spec_core_setup(im.response, ct_raw, def),
            ..im
        },
    }
}

/// Resolves the matcher for one part's contents and applies what can be
/// applied at once.
///
/// A started interaction is rejected unchanged, whatever else holds of the
/// request. A shape other than HTTP request/response is rejected as
/// unimplemented, unchanged. Under the core matcher — chosen by registration
/// or as the fallback for an unregistered content type — the core body rule
/// is applied and nothing is asked of the caller. Under a plugin matcher the
/// definition must be an object; the interaction is left untouched and the
/// caller is handed the configure call to perform, whose answer
/// `apply_plugin_reply` merges.
pub fn setup_contents(
    interaction: &mut Interaction,
    part: InteractionPart,
    content_type: &MimeType,
    definition: DefShape,
    catalogue: &Catalogue,
) -> (r: Result<SetupStep, ResolveError>)
    ensures
        final(interaction)@ == spec_contents_state(
            old(interaction)@,
            part,
            content_type.raw@,
            definition@,
            catalogue@,
            content_type.main_type@,
            content_type.sub_type@,
        ),
        setup_outcome_ok(
            r,
            old(interaction)@,
            definition@,
            catalogue@,
            content_type.main_type@,
            content_type.sub_type@,
            content_type.raw@,
        ),
{
    if interaction.started {
        return Err(ResolveError::AlreadyStarted);
    }
    match interaction.kind {
        InteractionKind::SynchronousHttp => {},
        _ => {
            return Err(ResolveError::Unimplemented);
        },
    }
    let matcher = catalogue.find_matcher(content_type);
    match matcher {
        MatcherKind::Core => {
            match part {
                InteractionPart::Request => setup_core_matcher(
                    &mut interaction.request,
                    content_type,
                    &definition,
                ),
                InteractionPart::Response => setup_core_matcher(
                    &mut interaction.response,
                    content_type,
                    &definition,
                ),
            }
            Ok(SetupStep::Done)
        },
        MatcherKind::Plugin { name, version } => {
            match definition {
                DefShape::Object { entries, raw: _ } => {
                    let request = PluginCallRequest {
                        plugin_name: name,
                        plugin_version: version,
                        content_type: content_type.raw.clone(),
                        config: entries,
                    };
                    Ok(SetupStep::PluginCall(request))
                },
                _ => Err(ResolveError::InvalidDefinition),
            }
        },
    }
}

/// The interaction state `setup_contents` leaves behind: changed only when
/// the interaction is live, of HTTP shape, and core-handled.
pub open spec fn spec_contents_state(
    im: InteractionModel,
    part: InteractionPart,
    ct_raw: Seq<char>,
    def: DefModel,
    cat: Seq<crate::catalogue::EntryModel>,
    main: Seq<char>,
    sub: Seq<char>,
) -> InteractionModel {
    if im.started {
        im
    } else if im.kind != InteractionKind::SynchronousHttp {
        im
    } else {
        match spec_find_matcher(cat, main, sub) {
            MatcherModel::Core => spec_apply_core(im, part, ct_raw, def),
            MatcherModel::Plugin { .. } => im,
        }
    }
}

/// The answer `setup_contents` gives, case by case.
pub open spec fn setup_outcome_ok(
    r: Result<SetupStep, ResolveError>,
    im: InteractionModel,
    def: DefModel,
    cat: Seq<crate::catalogue::EntryModel>,
    main: Seq<char>,
    sub: Seq<char>,
    ct_raw: Seq<char>,
) -> bool {
    if im.started {
        r matches Err(ResolveError::AlreadyStarted)
    } else if im.kind != InteractionKind::SynchronousHttp {
        r matches Err(ResolveError::Unimplemented)
    } else {
        match spec_find_matcher(cat, main, sub) {
            MatcherModel::Core => r matches Ok(SetupStep::Done),
            MatcherModel::Plugin { name, version } => match def {
                DefModel::Object { entries, .. } => r matches Ok(SetupStep::PluginCall(req))
                    && req@ == (CallModel {
                    plugin_name: name,
                    plugin_version: version,
                    content_type: ct_raw,
                    config: entries,
                }),
                _ => r matches Err(ResolveError::InvalidDefinition),
            },
        }
    }
}

/// One part after a plugin candidate's pieces are merged in: the body
/// replaced, a content-type header added only when none is there, and rules
/// and generators appended under the `body` category.
pub open spec fn apply_body_rules(
    p: PartModel,
    ct_raw: Seq<char>,
    body: BodyModel,
    rules: Option<Seq<(Seq<char>, Seq<char>)>>,
    generators: Option<Seq<(Seq<char>, Seq<char>)>>,
) -> PartModel {
    let p1 = PartModel { body: body, ..p };
    let p2 = if has_entry(p1.headers, "content-type"@) {
        p1
    } else {
        PartModel { headers: p1.headers.push(("content-type"@, seq![ct_raw])), ..p1 }
    };
    let p3 = match rules {
        Some(rs) => PartModel { matching_rules: upsert_append(p2.matching_rules, "body"@, rs), ..p2 },
        None => p2,
    };
    match generators {
        Some(gs) => PartModel { generators: upsert_append(p3.generators, "body"@, gs), ..p3 },
        None => p3,
    }
}

/// One part after a plugin's first candidate is merged in.
pub open spec fn spec_apply_candidate(p: PartModel, ct_raw: Seq<char>, c: CandidateModel)
    -> PartModel {
    apply_body_rules(p, ct_raw, c.body, c.rules, c.generators)
}

/// Merges a candidate's body, rules and generators into one part.
fn apply_to_part(
    part: &mut HttpPart,
    content_type: &MimeType,
    body: BodyValue,
    rules: Option<Vec<(String, String)>>,
    generators: Option<Vec<(String, String)>>,
)
    ensures
        final(part)@ == apply_body_rules(
            old(part)@,
            content_type.raw@,
            body@,
            rules.deep_view(),
            generators.deep_view(),
        ),
{
    part.set_body(body);
    if !part.has_header("content-type") {
        let values = vec![content_type.raw.clone()];
        proof {
            assert(values.deep_view() =~= seq![content_type.raw@]);
        }
        part.add_header("content-type", values);
    }
    if let Some(rs) = rules {
        part.add_rules("body", rs);
    }
    if let Some(gs) = generators {
        part.add_generators("body", gs);
    }
}

/// Whether a plugin's configuration payload is empty in both halves.
pub open spec fn config_empty(c: ConfigModel) -> bool {
    c.interaction_configuration.len() == 0 && c.pact_configuration.len() == 0
}

/// The interaction after a plugin reply: with no candidate nothing changes;
/// otherwise the first candidate is merged into the chosen part, non-empty
/// plugin configuration is recorded under the plugin's name, and the markup
/// is replaced wholesale.
pub open spec fn spec_apply_reply(
    im: InteractionModel,
    part: InteractionPart,
    ct_raw: Seq<char>,
    plugin_name: Seq<char>,
    r: ReplyModel,
) -> InteractionModel {
    if r.contents.len() == 0 {
        im
    } else {
        let c = r.contents[0];
        let im1 = match part {
            InteractionPart::Request => InteractionModel {
                request: spec_apply_candidate(im.request, ct_raw, c),
                ..im
            },
            InteractionPart::Response => InteractionModel {
                response: spec_apply_candidate(im.response, ct_raw, c),
                ..im
            },
        };
        let im2 = if config_empty(c.plugin_config) {
            im1
        } else {
            InteractionModel {
                plugin_config: upsert_replace(
                    im1.plugin_config,
                    plugin_name,
                    c.plugin_config.interaction_configuration,
                ),
                ..im1
            }
        };
        InteractionModel {
            markup: MarkupModel {
                markup: c.interaction_markup,
                markup_type: c.interaction_markup_type,
            },
            ..im2
        }
    }
}

/// Shapes the answer to a plugin configure call for the resolver: a failure
/// becomes the terminal `PluginInvocationError`, the plugin's error text
/// kept verbatim for diagnostics.
pub fn plugin_call_outcome(outcome: Result<PluginReply, String>) -> (r: Result<
    PluginReply,
    ResolveError,
>)
    ensures
        outcome matches Ok(reply) ==> (r matches Ok(kept) && kept == reply),
        outcome matches Err(text) ==> (r matches Err(e) && e matches
            ResolveError::PluginInvocationError(kept) && kept@ == text@),
{
    match outcome {
        Ok(reply) => Ok(reply),
        Err(text) => Err(ResolveError::PluginInvocationError(text)),
    }
}

/// Merges a successful plugin answer into the interaction and reports the
/// attribution the contract should record: exactly the configuration the
/// plugin surfaced, under its name and version, and `None` when it surfaced
/// none.
pub fn apply_plugin_reply(
    interaction: &mut Interaction,
    part: InteractionPart,
    content_type: &MimeType,
    plugin_name: &str,
    plugin_version: &str,
    reply: PluginReply,
) -> (r: Option<PluginAttribution>)
    ensures
        final(interaction)@ == spec_apply_reply(
            old(interaction)@,
            part,
            content_type.raw@,
            plugin_name@,
            reply@,
        ),
        match reply@.plugin_config {
            None => r is None,
            Some(cfg) => r matches Some(a) && a@ == (AttributionModel {
                name: plugin_name@,
                version: plugin_version@,
                configuration: cfg,
            }),
        },
{
    let PluginReply { contents, plugin_config } = reply;
    let ghost contents_model = contents.deep_view();
    let mut contents = contents;
    if contents.len() > 0 {
        let first = contents.remove(0);
        proof {
            assert(first@ == contents_model[0]);
        }
        match part {
            InteractionPart::Request => apply_to_part(
                &mut interaction.request,
                content_type,
                first.body,
                first.rules,
                first.generators,
            ),
            InteractionPart::Response => apply_to_part(
                &mut interaction.response,
                content_type,
                first.body,
                first.rules,
                first.generators,
            ),
        }
        let has_config = !first.plugin_config.interaction_configuration.is_empty()
            || !first.plugin_config.pact_configuration.is_empty();
        if has_config {
            interaction.set_plugin_config(
                plugin_name,
                first.plugin_config.interaction_configuration,
            );
        }
        interaction.set_markup(
            InteractionMarkup {
                markup: first.interaction_markup,
                markup_type: first.interaction_markup_type,
            },
        );
    }
    match plugin_config {
        Some(configuration) => Some(
            PluginAttribution {
                name: plugin_name.to_owned(),
                version: plugin_version.to_owned(),
                configuration,
            },
        ),
        None => None,
    }
}

} // verus!
