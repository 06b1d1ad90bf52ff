//! Contracts (pact documents), their interactions, and the handle-addressed
//! store that the foreign-function boundary works through.
//!
//! A contract owns its interactions and a plugin ledger: which plugins it
//! used, with what configuration, one entry per `(name, version)`. Handles
//! are plain indices into an owned store; an invalid handle is answered with
//! a status code, never a panic.

use vstd::prelude::*;

use crate::assoc::{first_match, has_entry, lemma_first_match, upsert_replace};
use crate::catalogue::Catalogue;
use crate::definition::{def_shape_of, parse_definition, DefModel};
use crate::interaction::{Interaction, InteractionKind, InteractionModel, InteractionPart};
use crate::manager::{load_starts, spec_load, spec_release, spec_release_all, spec_stops,
    IdentityModel, LoadStep, PluginIdentity, PluginManager, ReleaseStep};
use crate::mime::{mime_wf, spec_main_type, spec_sub_type, MimeType};
use crate::resolver::{apply_plugin_reply, setup_outcome_ok, setup_contents, spec_apply_reply,
    spec_contents_state, CallModel, PluginAttribution, PluginCallRequest, PluginReply, ReplyModel,
    ResolveError, SetupStep};
use crate::strutil::str_eq;

verus! {

/// A contract document: its interactions in order, the plugin ledger, and
/// whether the contract's plugin references were already given back.
#[derive(Debug)]
pub struct Pact {
    pub interactions: Vec<Interaction>,
    pub plugin_data: Vec<(PluginIdentity, Vec<(String, String)>)>,
    pub plugins_released: bool,
}

/// Mathematical model of a `Pact`.
pub struct PactModel {
    pub interactions: Seq<InteractionModel>,
    pub plugin_data: Seq<(IdentityModel, Seq<(Seq<char>, Seq<char>)>)>,
    pub plugins_released: bool,
}

impl View for Pact {
    type V = PactModel;

    open spec fn view(&self) -> PactModel {
        PactModel {
            interactions: self.interactions.deep_view(),
            plugin_data: self.plugin_data.deep_view(),
            plugins_released: self.plugins_released,
        }
    }
}

impl DeepView for Pact {
    type V = PactModel;

    open spec fn deep_view(&self) -> PactModel {
        self@
    }
}

/// A handle naming one contract in a store.
#[derive(Clone, Copy, Debug, PartialEq, Eq, Structural)]
pub struct PactHandle {
    pub pact: usize,
}

/// A handle naming one interaction of one contract in a store.
#[derive(Clone, Copy, Debug, PartialEq, Eq, Structural)]
pub struct InteractionHandle {
    pub pact: usize,
    pub interaction: usize,
}

/// Whether a pact handle names a contract of the store.
pub open spec fn valid_pact(store: Seq<PactModel>, h: PactHandle) -> bool {
    h.pact < store.len()
}

/// Whether an interaction handle names an interaction of the store.
pub open spec fn valid_interaction(store: Seq<PactModel>, h: InteractionHandle) -> bool {
    h.pact < store.len() && h.interaction < store[h.pact as int].interactions.len()
}

/// The ledger after making sure a plugin has an entry: untouched when the
/// identity is already recorded, else a fresh entry with no configuration.
pub open spec fn spec_ensure_plugin(
    pd: Seq<(IdentityModel, Seq<(Seq<char>, Seq<char>)>)>,
    id: IdentityModel,
) -> Seq<(IdentityModel, Seq<(Seq<char>, Seq<char>)>)> {
    if has_entry(pd, id) {
        pd
    } else {
        pd.push((id, Seq::<(Seq<char>, Seq<char>)>::empty()))
    }
}

/// The identities the ledger holds, in order.
pub open spec fn ledger_ids(pd: Seq<(IdentityModel, Seq<(Seq<char>, Seq<char>)>)>) -> Seq<
    IdentityModel,
> {
    pd.map_values(|e: (IdentityModel, Seq<(Seq<char>, Seq<char>)>)| e.0)
}

/// One ledger entry per plugin identity: the deduplication the contract
/// document promises for its plugin usage records.
pub open spec fn ledger_wf(pd: Seq<(IdentityModel, Seq<(Seq<char>, Seq<char>)>)>) -> bool {
    forall|i: int, j: int|
        0 <= i < j < pd.len() ==> (#[trigger] pd[i]).0 != (#[trigger] pd[j]).0
}

/// Both ledger operations keep one entry per identity: making sure a plugin
/// is present adds at most one fresh entry, and recording configuration
/// replaces in place.
pub proof fn lemma_ledger_stays_deduplicated(
    pd: Seq<(IdentityModel, Seq<(Seq<char>, Seq<char>)>)>,
    id: IdentityModel,
    configuration: Seq<(Seq<char>, Seq<char>)>,
)
    requires
        ledger_wf(pd),
    ensures
        ledger_wf(spec_ensure_plugin(pd, id)),
        ledger_wf(upsert_replace(pd, id, configuration)),
{
    lemma_first_match(pd, id);
    let i = first_match(pd, id);
    if i == -1 {
        let pushed = pd.push((id, Seq::<(Seq<char>, Seq<char>)>::empty()));
        assert forall|a: int, b: int| 0 <= a < b < pushed.len() implies (#[trigger] pushed[a]).0
            != (#[trigger] pushed[b]).0 by {
            if b < pd.len() {
                assert(pushed[a] == pd[a] && pushed[b] == pd[b]);
            } else {
                assert(pushed[b].0 == id);
                assert(pushed[a] == pd[a]);
            }
        };
        let pushed2 = pd.push((id, configuration));
        assert forall|a: int, b: int| 0 <= a < b < pushed2.len() implies (#[trigger] pushed2[a]).0
            != (#[trigger] pushed2[b]).0 by {
            if b < pd.len() {
                assert(pushed2[a] == pd[a] && pushed2[b] == pd[b]);
            } else {
                assert(pushed2[b].0 == id);
                assert(pushed2[a] == pd[a]);
            }
        };
    } else {
        let updated = pd.update(i, (id, configuration));
        assert forall|a: int, b: int| 0 <= a < b < updated.len() implies (#[trigger] updated[a]).0
            != (#[trigger] updated[b]).0 by {
            assert(updated[a] == if a == i {
                (id, configuration)
            } else {
                pd[a]
            });
            assert(updated[b] == if b == i {
                (id, configuration)
            } else {
                pd[b]
            });
            assert(pd[i].0 == id);
        };
    }
}

impl Pact {
    /// A contract with no interactions and an empty ledger.
    pub fn new() -> (r: Pact)
        ensures
            r@.interactions == Seq::<InteractionModel>::empty(),
            r@.plugin_data == Seq::<(IdentityModel, Seq<(Seq<char>, Seq<char>)>)>::empty(),
            !r@.plugins_released,
    {
        let r = Pact { interactions: Vec::new(), plugin_data: Vec::new(), plugins_released: false };
        proof {
            assert(r@.interactions =~= Seq::<InteractionModel>::empty());
            assert(r@.plugin_data =~= Seq::<(IdentityModel, Seq<(Seq<char>, Seq<char>)>)>::empty());
        }
        r
    }

    /// Makes sure the ledger has an entry for the identity, with no
    /// configuration when it is new.
    pub fn ensure_plugin(&mut self, id: &PluginIdentity)
        ensures
            final(self)@ == (PactModel {
                plugin_data: spec_ensure_plugin(old(self)@.plugin_data, id@),
                ..old(self)@
            }),
    {
        let ghost model = self@.plugin_data;
        let n = self.plugin_data.len();
        let mut i: usize = 0;
        while i < n
            invariant
                i <= n,
                n == self.plugin_data.len(),
                self == old(self),
                model == self@.plugin_data,
                forall|k: int| 0 <= k < i ==> (#[trigger] model[k]).0 != id@,
            decreases n - i,
        {
            let hit = self.plugin_data[i].0.same_as(id);
            proof {
                assert(model[i as int] == self.plugin_data@[i as int].deep_view());
            }
            if hit {
                proof {
                    lemma_first_match(model, id@);
                }
                return ;
            }
            i += 1;
        }
        proof {
            lemma_first_match(model, id@);
        }
        self.plugin_data.push((id.duplicate(), Vec::new()));
        proof {
            assert(self.plugin_data@[n as int].deep_view() == (
                id@,
                Seq::<(Seq<char>, Seq<char>)>::empty(),
            ));
            assert(self@.plugin_data =~= model.push((
                id@,
                Seq::<(Seq<char>, Seq<char>)>::empty(),
            )));
        }
    }

    /// Records a plugin's contract-level configuration, replacing what the
    /// ledger already holds for the identity.
    pub fn record_plugin(&mut self, name: &str, version: &str, configuration: Vec<(String, String)>)
        ensures
            final(self)@ == (PactModel {
                plugin_data: upsert_replace(
                    old(self)@.plugin_data,
                    IdentityModel { name: name@, version: version@ },
                    configuration.deep_view(),
                ),
                ..old(self)@
            }),
    {
        let ghost model = self@.plugin_data;
        let ghost idm = IdentityModel { name: name@, version: version@ };
        let ghost value = configuration.deep_view();
        let n = self.plugin_data.len();
        let mut i: usize = 0;
        while i < n
            invariant
                i <= n,
                n == self.plugin_data.len(),
                self == old(self),
                model == self@.plugin_data,
                idm == (IdentityModel { name: name@, version: version@ }),
                configuration.deep_view() == value,
                forall|k: int| 0 <= k < i ==> (#[trigger] model[k]).0 != idm,
            decreases n - i,
        {
            let hit = str_eq(self.plugin_data[i].0.name.as_str(), name) && str_eq(
                self.plugin_data[i].0.version.as_str(),
                version,
            );
            proof {
                assert(model[i as int] == self.plugin_data@[i as int].deep_view());
            }
            if hit {
                proof {
                    lemma_first_match(model, idm);
                    assert(first_match(model, idm) == i);
                }
                let key = self.plugin_data.remove(i).0;
                let ghost s1 = self.plugin_data@;
                let pair = (key, configuration);
                let ghost newe = pair;
                self.plugin_data.insert(i, pair);
                proof {
                    let s0 = old(self).plugin_data@;
                    s0.remove_ensures(i as int);
                    s1.insert_ensures(i as int, newe);
                    assert forall|j: int| 0 <= j < s0.update(i as int, newe).len() implies s1
                        .insert(i as int, newe)[j] == s0.update(i as int, newe)[j] by {
                        if j > i {
                            assert(s1.insert(i as int, newe)[j] == s1[j - 1]);
                            assert(s1[j - 1] == s0[j]);
                        }
                    };
                    assert(self.plugin_data@ =~= s0.update(i as int, newe));
                    assert(newe.deep_view() == (idm, value));
                    assert(self@.plugin_data =~= upsert_replace(model, idm, value));
                }
                return ;
            }
            i += 1;
        }
        proof {
            lemma_first_match(model, idm);
        }
        self.plugin_data.push(
            (PluginIdentity { name: name.to_owned(), version: version.to_owned() }, configuration),
        );
        proof {
            assert(self.plugin_data@[n as int].deep_view() == (idm, value));
            assert(self@.plugin_data =~= upsert_replace(model, idm, value));
        }
    }

    /// Runs content resolution against one interaction of this contract.
    fn with_setup_contents(
        &mut self,
        j: usize,
        part: InteractionPart,
        content_type: &MimeType,
        definition: crate::definition::DefShape,
        catalogue: &Catalogue,
    ) -> (r: Result<SetupStep, ResolveError>)
        requires
            j < old(self)@.interactions.len(),
        ensures
            final(self)@ == (PactModel {
                interactions: old(self)@.interactions.update(
                    j as int,
                    spec_contents_state(
                        old(self)@.interactions[j as int],
                        part,
                        content_type.raw@,
                        definition@,
                        catalogue@,
                        content_type.main_type@,
                        content_type.sub_type@,
                    ),
                ),
                ..old(self)@
            }),
            setup_outcome_ok(
                r,
                old(self)@.interactions[j as int],
                definition@,
                catalogue@,
                content_type.main_type@,
                content_type.sub_type@,
                content_type.raw@,
            ),
    {
        let mut inter = self.interactions.remove(j);
        let ghost s1 = self.interactions@;
        let r = setup_contents(&mut inter, part, content_type, definition, catalogue);
        let ghost newi = inter@;
        self.interactions.insert(j, inter);
        proof {
            let s0 = old(self).interactions@;
            s0.remove_ensures(j as int);
            s1.insert_ensures(j as int, self.interactions@[j as int]);
            assert forall|k: int| 0 <= k < s0.len() implies self.interactions@[k] == (if k == j {
                self.interactions@[j as int]
            } else {
                s0[k]
            }) by {
                if k > j {
                    assert(self.interactions@[k] == s1[k - 1]);
                    assert(s1[k - 1] == s0[k]);
                } else if k < j {
                    assert(self.interactions@[k] == s1[k]);
                    assert(s1[k] == s0[k]);
                }
            };
            assert(self.interactions@[j as int].deep_view() == newi);
            assert(self@.interactions =~= old(self)@.interactions.update(j as int, newi));
        }
        r
    }

    /// Merges a plugin reply into one interaction and records any
    /// contract-level configuration the plugin surfaced.
    fn with_apply_reply(
        &mut self,
        j: usize,
        part: InteractionPart,
        content_type: &MimeType,
        plugin_name: &str,
        plugin_version: &str,
        reply: PluginReply,
    )
        requires
            j < old(self)@.interactions.len(),
        ensures
            final(self)@ == (PactModel {
                interactions: old(self)@.interactions.update(
                    j as int,
                    spec_apply_reply(
                        old(self)@.interactions[j as int],
                        part,
                        content_type.raw@,
                        plugin_name@,
                        reply@,
                    ),
                ),
                plugin_data: match reply@.plugin_config {
                    None => old(self)@.plugin_data,
                    Some(cfg) => upsert_replace(
                        old(self)@.plugin_data,
                        IdentityModel { name: plugin_name@, version: plugin_version@ },
                        cfg.pact_configuration,
                    ),
                },
                ..old(self)@
            }),
    {
        let mut inter = self.interactions.remove(j);
        let ghost s1 = self.interactions@;
        let attribution = apply_plugin_reply(
            &mut inter,
            part,
            content_type,
            plugin_name,
            plugin_version,
            reply,
        );
        let ghost newi = inter@;
        self.interactions.insert(j, inter);
        proof {
            let s0 = old(self).interactions@;
            s0.remove_ensures(j as int);
            s1.insert_ensures(j as int, self.interactions@[j as int]);
            assert forall|k: int| 0 <= k < s0.len() implies self.interactions@[k] == (if k == j {
                self.interactions@[j as int]
            } else {
                s0[k]
            }) by {
                if k > j {
                    assert(self.interactions@[k] == s1[k - 1]);
                    assert(s1[k - 1] == s0[k]);
                } else if k < j {
                    assert(self.interactions@[k] == s1[k]);
                    assert(s1[k] == s0[k]);
                }
            };
            assert(self.interactions@[j as int].deep_view() == newi);
            assert(self@.interactions =~= old(self)@.interactions.update(j as int, newi));
        }
        if let Some(attr) = attribution {
            let PluginAttribution { name, version, configuration } = attr;
            self.record_plugin(name.as_str(), version.as_str(), configuration.pact_configuration);
        }
    }
}

/// The owned store the foreign-function boundary indexes into.
#[derive(Debug)]
pub struct Store {
    pub pacts: Vec<Pact>,
}

impl View for Store {
    type V = Seq<PactModel>;

    open spec fn view(&self) -> Seq<PactModel> {
        self.pacts.deep_view()
    }
}

/// The store with one interaction of one contract replaced.
pub open spec fn store_with_interaction(
    store: Seq<PactModel>,
    h: InteractionHandle,
    im: InteractionModel,
) -> Seq<PactModel> {
    store.update(
        h.pact as int,
        PactModel {
            interactions: store[h.pact as int].interactions.update(h.interaction as int, im),
            ..store[h.pact as int]
        },
    )
}

/// What `using_plugin_begin` asks of its caller: a finished status, or a
/// plugin process to start before calling `using_plugin_confirm`.
#[derive(Debug)]
pub enum UsingPluginStep {
    Done(u32),
    StartPlugin(PluginIdentity),
}

/// A plugin configure call in flight: everything `interaction_contents_apply`
/// needs once the caller has the plugin's answer.
#[derive(Debug)]
pub struct PendingPluginCall {
    pub handle: InteractionHandle,
    pub part: InteractionPart,
    pub content_type: MimeType,
    pub request: PluginCallRequest,
}

/// What `interaction_contents_begin` asks of its caller: a finished status
/// code, or one plugin configure call to perform.
#[derive(Debug)]
pub enum ContentsStep {
    Finished(u32),
    PluginCall(PendingPluginCall),
}

/// The store `interaction_contents_begin` leaves behind: changed only when
/// both inputs parse, the handle is valid, and the part is core-handled.
pub open spec fn contents_begin_state(
    store: Seq<PactModel>,
    h: InteractionHandle,
    part: InteractionPart,
    cat: Seq<crate::catalogue::EntryModel>,
    ct: Seq<char>,
    def: Seq<char>,
) -> Seq<PactModel> {
    if !mime_wf(ct) || def_shape_of(def) is None || !valid_interaction(store, h) {
        store
    } else {
        let im = store[h.pact as int].interactions[h.interaction as int];
        store_with_interaction(
            store,
            h,
            spec_contents_state(
                im,
                part,
                ct,
                def_shape_of(def).unwrap(),
                cat,
                spec_main_type(ct),
                spec_sub_type(ct),
            ),
        )
    }
}

/// The answer `interaction_contents_begin` gives, case by case: 4 for an
/// unparseable content type, 5 for text that is not JSON, 3 for a dangling
/// handle, 2 for a started interaction, 1 for an unsupported interaction
/// shape, 0 for applied core content, 6 for a definition a plugin cannot
/// take, and the configure call itself where a plugin must answer first.
pub open spec fn contents_begin_ok(
    r: ContentsStep,
    store: Seq<PactModel>,
    h: InteractionHandle,
    part: InteractionPart,
    cat: Seq<crate::catalogue::EntryModel>,
    ct: Seq<char>,
    def: Seq<char>,
) -> bool {
    if !mime_wf(ct) {
        r == ContentsStep::Finished(4u32)
    } else if def_shape_of(def) is None {
        r == ContentsStep::Finished(5u32)
    } else if !valid_interaction(store, h) {
        r == ContentsStep::Finished(3u32)
    } else {
        let im = store[h.pact as int].interactions[h.interaction as int];
        let dm = def_shape_of(def).unwrap();
        if im.started {
            r == ContentsStep::Finished(2u32)
        } else if im.kind != InteractionKind::SynchronousHttp {
            r == ContentsStep::Finished(1u32)
        } else {
            match crate::catalogue::spec_find_matcher(cat, spec_main_type(ct), spec_sub_type(ct)) {
                crate::catalogue::MatcherModel::Core => r == ContentsStep::Finished(0u32),
                crate::catalogue::MatcherModel::Plugin { name, version } => match dm {
                    DefModel::Object { entries, .. } => r matches ContentsStep::PluginCall(pc)
                        && pc.handle == h && pc.part == part && pc.content_type.raw@ == ct
                        && pc.content_type.wf() && pc.request@ == (CallModel {
                        plugin_name: name,
                        plugin_version: version,
                        content_type: ct,
                        config: entries,
                    }),
                    _ => r == ContentsStep::Finished(6u32),
                },
            }
        }
    }
}

/// The store `interaction_contents_apply` leaves behind on a successful
/// answer: the reply merged into the part, and the plugin's contract-level
/// configuration recorded in the ledger when it surfaced any.
pub open spec fn contents_apply_state(
    store: Seq<PactModel>,
    h: InteractionHandle,
    part: InteractionPart,
    ct_raw: Seq<char>,
    plugin_name: Seq<char>,
    plugin_version: Seq<char>,
    reply: ReplyModel,
) -> Seq<PactModel> {
    let im = store[h.pact as int].interactions[h.interaction as int];
    let s2 = store_with_interaction(
        store,
        h,
        spec_apply_reply(im, part, ct_raw, plugin_name, reply),
    );
    match reply.plugin_config {
        None => s2,
        Some(cfg) => s2.update(
            h.pact as int,
            PactModel {
                plugin_data: upsert_replace(
                    s2[h.pact as int].plugin_data,
                    IdentityModel { name: plugin_name, version: plugin_version },
                    cfg.pact_configuration,
                ),
                ..s2[h.pact as int]
            },
        ),
    }
}

impl Store {
    /// An empty store.
    pub fn new() -> (r: Store)
        ensures
            r@ == Seq::<PactModel>::empty(),
    {
        let r = Store { pacts: Vec::new() };
        proof {
            assert(r@ =~= Seq::<PactModel>::empty());
        }
        r
    }

    /// Adds an empty contract and hands back its handle.
    pub fn add_pact(&mut self) -> (r: PactHandle)
        ensures
            r.pact == old(self)@.len(),
            final(self)@ == old(self)@.push(
                PactModel {
                    interactions: Seq::<InteractionModel>::empty(),
                    plugin_data: Seq::<(IdentityModel, Seq<(Seq<char>, Seq<char>)>)>::empty(),
                    plugins_released: false,
                },
            ),
    {
        let h = PactHandle { pact: self.pacts.len() };
        let pact = Pact::new();
        let ghost pm = pact@;
        self.pacts.push(pact);
        proof {
            assert(self@ =~= old(self)@.push(pm));
        }
        h
    }

    /// Adds a fresh interaction of the given shape to a contract. A dangling
    /// pact handle changes nothing and gets no interaction handle.
    pub fn add_interaction(&mut self, h: PactHandle, kind: InteractionKind) -> (r: Option<
        InteractionHandle,
    >)
        ensures
            !valid_pact(old(self)@, h) ==> r is None && final(self)@ == old(self)@,
            valid_pact(old(self)@, h) ==> (r matches Some(ih) && ih.pact == h.pact
                && ih.interaction == old(self)@[h.pact as int].interactions.len() && final(self)@
                == old(self)@.update(
                h.pact as int,
                PactModel {
                    interactions: old(self)@[h.pact as int].interactions.push(
                        Interaction::new_model(kind),
                    ),
                    ..old(self)@[h.pact as int]
                },
            )),
    {
        if h.pact >= self.pacts.len() {
            return None;
        }
        let mut pact = self.pacts.remove(h.pact);
        let ghost s1 = self.pacts@;
        let ghost pm0 = pact@;
        let idx = pact.interactions.len();
        pact.interactions.push(Interaction::new(kind));
        proof {
            assert(pact@.interactions =~= pm0.interactions.push(Interaction::new_model(kind)));
        }
        let ghost pm1 = pact@;
        self.pacts.insert(h.pact, pact);
        proof {
            let s0 = old(self).pacts@;
            s0.remove_ensures(h.pact as int);
            s1.insert_ensures(h.pact as int, self.pacts@[h.pact as int]);
            assert forall|k: int| 0 <= k < s0.len() implies self.pacts@[k] == (if k == h.pact {
                self.pacts@[h.pact as int]
            } else {
                s0[k]
            }) by {
                if k > h.pact {
                    assert(self.pacts@[k] == s1[k - 1]);
                    assert(s1[k - 1] == s0[k]);
                } else if k < h.pact {
                    assert(self.pacts@[k] == s1[k]);
                    assert(s1[k] == s0[k]);
                }
            };
            assert(self.pacts@[h.pact as int].deep_view() == pm1);
            assert(self@ =~= old(self)@.update(h.pact as int, pm1));
        }
        Some(InteractionHandle { pact: h.pact, interaction: idx })
    }

    /// Attaches a plugin to a contract, loading it through the lifecycle
    /// manager. When the plugin is already running the ledger entry is made
    /// at once: 0, or 3 on a dangling handle. Otherwise the caller is handed
    /// the identity to start, and reports back to `using_plugin_confirm`.
    pub fn using_plugin_begin(
        &mut self,
        h: PactHandle,
        manager: &mut PluginManager,
        plugin_name: &str,
        plugin_version: &str,
    ) -> (r: UsingPluginStep)
        requires
            old(manager).wf(),
        ensures
            final(manager)@ == spec_load(
                old(manager)@,
                IdentityModel { name: plugin_name@, version: plugin_version@ },
            ),
            final(manager).wf(),
            load_starts(
                old(manager)@,
                IdentityModel { name: plugin_name@, version: plugin_version@ },
            ) ==> (r matches UsingPluginStep::StartPlugin(id) && id@ == (IdentityModel {
                name: plugin_name@,
                version: plugin_version@,
            }) && final(self)@ == old(self)@),
            !load_starts(
                old(manager)@,
                IdentityModel { name: plugin_name@, version: plugin_version@ },
            ) ==> (if valid_pact(old(self)@, h) {
                r == UsingPluginStep::Done(0u32) && final(self)@ == old(self)@.update(
                    h.pact as int,
                    PactModel {
                        plugin_data: spec_ensure_plugin(
                            old(self)@[h.pact as int].plugin_data,
                            IdentityModel { name: plugin_name@, version: plugin_version@ },
                        ),
                        ..old(self)@[h.pact as int]
                    },
                )
            } else {
                r == UsingPluginStep::Done(3u32) && final(self)@ == old(self)@
            }),
    {
        let id = PluginIdentity {
            name: plugin_name.to_owned(),
            version: plugin_version.to_owned(),
        };
        match manager.load(&id) {
            LoadStep::Started => UsingPluginStep::StartPlugin(id),
            LoadStep::Attached => UsingPluginStep::Done(self.attach_plugin(h, &id)),
        }
    }

    /// Confirms the outcome of a plugin start that `using_plugin_begin`
    /// asked for. On success the ledger entry is made: 0, or 3 on a dangling
    /// handle. On failure the reference taken by the load is given back and
    /// the answer is 2.
    pub fn using_plugin_confirm(
        &mut self,
        h: PactHandle,
        manager: &mut PluginManager,
        id: &PluginIdentity,
        started_ok: bool,
    ) -> (r: u32)
        requires
            old(manager).wf(),
        ensures
            final(manager).wf(),
            started_ok ==> final(manager)@ == old(manager)@ && (if valid_pact(old(self)@, h) {
                r == 0 && final(self)@ == old(self)@.update(
                    h.pact as int,
                    PactModel {
                        plugin_data: spec_ensure_plugin(old(self)@[h.pact as int].plugin_data, id@),
                        ..old(self)@[h.pact as int]
                    },
                )
            } else {
                r == 3 && final(self)@ == old(self)@
            }),
            !started_ok ==> r == 2 && final(self)@ == old(self)@ && final(manager)@ == spec_release(
                old(manager)@,
                id@,
            ),
    {
        if started_ok {
            self.attach_plugin(h, id)
        } else {
            manager.release(id);
            2
        }
    }

    /// Makes the ledger entry for a loaded plugin: 0, or 3 on a dangling
    /// handle.
    fn attach_plugin(&mut self, h: PactHandle, id: &PluginIdentity) -> (r: u32)
        ensures
            valid_pact(old(self)@, h) ==> r == 0 && final(self)@ == old(self)@.update(
                h.pact as int,
                PactModel {
                    plugin_data: spec_ensure_plugin(old(self)@[h.pact as int].plugin_data, id@),
                    ..old(self)@[h.pact as int]
                },
            ),
            !valid_pact(old(self)@, h) ==> r == 3 && final(self)@ == old(self)@,
    {
        if h.pact >= self.pacts.len() {
            return 3;
        }
        let mut pact = self.pacts.remove(h.pact);
        let ghost s1 = self.pacts@;
        pact.ensure_plugin(id);
        let ghost pm1 = pact@;
        self.pacts.insert(h.pact, pact);
        proof {
            let s0 = old(self).pacts@;
            s0.remove_ensures(h.pact as int);
            s1.insert_ensures(h.pact as int, self.pacts@[h.pact as int]);
            assert forall|k: int| 0 <= k < s0.len() implies self.pacts@[k] == (if k == h.pact {
                self.pacts@[h.pact as int]
            } else {
                s0[k]
            }) by {
                if k > h.pact {
                    assert(self.pacts@[k] == s1[k - 1]);
                    assert(s1[k - 1] == s0[k]);
                } else if k < h.pact {
                    assert(self.pacts@[k] == s1[k]);
                    assert(s1[k] == s0[k]);
                }
            };
            assert(self.pacts@[h.pact as int].deep_view() == pm1);
            assert(self@ =~= old(self)@.update(h.pact as int, pm1));
        }
        0
    }

    /// Releases every plugin reference a contract's ledger holds, one
    /// release per entry, and reports the identities whose processes must be
    /// stopped. A dangling handle releases nothing, and so does a second
    /// call for the same contract: teardown is idempotent, and never takes
    /// references that other contracts still hold. The ledger itself is
    /// kept: the contract still says which plugins it used.
    pub fn cleanup_plugins(&mut self, h: PactHandle, manager: &mut PluginManager) -> (stops: Vec<
        PluginIdentity,
    >)
        requires
            old(manager).wf(),
        ensures
            final(manager).wf(),
            !valid_pact(old(self)@, h) ==> final(manager)@ == old(manager)@ && stops@.len() == 0
                && final(self)@ == old(self)@,
            valid_pact(old(self)@, h) && old(self)@[h.pact as int].plugins_released ==> final(
                manager)@ == old(manager)@ && stops@.len() == 0 && final(self)@ == old(self)@,
            valid_pact(old(self)@, h) && !old(self)@[h.pact as int].plugins_released ==> {
                let ids = ledger_ids(old(self)@[h.pact as int].plugin_data);
                final(manager)@ == spec_release_all(old(manager)@, ids) && stops.deep_view()
                    == spec_stops(old(manager)@, ids) && final(self)@ == old(self)@.update(
                    h.pact as int,
                    PactModel { plugins_released: true, ..old(self)@[h.pact as int] },
                )
            },
    {
        let mut stops: Vec<PluginIdentity> = Vec::new();
        if h.pact >= self.pacts.len() {
            return stops;
        }
        proof {
            assert(self@[h.pact as int] == self.pacts@[h.pact as int].deep_view());
        }
        if self.pacts[h.pact].plugins_released {
            return stops;
        }
        let ghost m0 = manager@;
        let ghost ids = ledger_ids(self@[h.pact as int].plugin_data);
        let n = self.pacts[h.pact].plugin_data.len();
        proof {
            assert(ids.len() == n);
            assert(ids.take(0) =~= Seq::<IdentityModel>::empty());
            assert(stops.deep_view() =~= spec_stops(m0, ids.take(0)));
        }
        let mut i: usize = 0;
        while i < n
            invariant
                i <= n,
                h.pact < self.pacts.len(),
                n == self.pacts[h.pact as int].plugin_data.len(),
                ids == ledger_ids(self@[h.pact as int].plugin_data),
                ids.len() == n,
                m0 == old(manager)@,
                manager@ == spec_release_all(m0, ids.take(i as int)),
                manager.wf(),
                stops.deep_view() == spec_stops(m0, ids.take(i as int)),
            decreases n - i,
        {
            let id = self.pacts[h.pact].plugin_data[i].0.duplicate();
            proof {
                assert(self@[h.pact as int] == self.pacts@[h.pact as int].deep_view());
                assert(self@[h.pact as int].plugin_data[i as int] == self.pacts@[h.pact
                    as int].plugin_data@[i as int].deep_view());
                assert(id@ == ids[i as int]);
                assert(ids.take(i as int).push(ids[i as int]) =~= ids.take(i as int + 1));
                crate::manager::lemma_release_all_push(m0, ids.take(i as int), ids[i as int]);
            }
            let step = manager.release(&id);
            if let ReleaseStep::Stop = step {
                stops.push(id);
                proof {
                    assert(stops.deep_view() =~= spec_stops(m0, ids.take(i as int + 1)));
                }
            } else {
                proof {
                    assert(stops.deep_view() =~= spec_stops(m0, ids.take(i as int + 1)));
                }
            }
            i += 1;
        }
        proof {
            assert(ids.take(n as int) =~= ids);
        }
        let mut pact = self.pacts.remove(h.pact);
        let ghost s1 = self.pacts@;
        pact.plugins_released = true;
        let ghost pm1 = pact@;
        self.pacts.insert(h.pact, pact);
        proof {
            let s0 = old(self).pacts@;
            s0.remove_ensures(h.pact as int);
            s1.insert_ensures(h.pact as int, self.pacts@[h.pact as int]);
            assert forall|k: int| 0 <= k < s0.len() implies self.pacts@[k] == (if k == h.pact {
                self.pacts@[h.pact as int]
            } else {
                s0[k]
            }) by {
                if k > h.pact {
                    assert(self.pacts@[k] == s1[k - 1]);
                    assert(s1[k - 1] == s0[k]);
                } else if k < h.pact {
                    assert(self.pacts@[k] == s1[k]);
                    assert(s1[k] == s0[k]);
                }
            };
            assert(self.pacts@[h.pact as int].deep_view() == pm1);
            assert(self@ =~= old(self)@.update(h.pact as int, pm1));
        }
        stops
    }

    /// Configures the contents of one interaction part from a content-type
    /// string and JSON text. Everything that can be decided without a plugin
    /// is decided here; a part whose content type is plugin-matched comes
    /// back as the configure call to perform, whose answer goes to
    /// `interaction_contents_apply`.
    pub fn interaction_contents_begin(
        &mut self,
        h: InteractionHandle,
        part: InteractionPart,
        catalogue: &Catalogue,
        content_type: &str,
        contents: &str,
    ) -> (r: ContentsStep)
        ensures
            final(self)@ == contents_begin_state(
                old(self)@,
                h,
                part,
                catalogue@,
                content_type@,
                contents@,
            ),
            contents_begin_ok(r, old(self)@, h, part, catalogue@, content_type@, contents@),
    {
        let ct = match crate::resolver::resolve_content_type(content_type) {
            Ok(m) => m,
            Err(_) => {
                return ContentsStep::Finished(4);
            },
        };
        let def = match parse_definition(contents) {
            Some(d) => d,
            None => {
                return ContentsStep::Finished(5);
            },
        };
        if h.pact >= self.pacts.len() {
            return ContentsStep::Finished(3);
        }
        if h.interaction >= self.pacts[h.pact].interactions.len() {
            proof {
                assert(self@[h.pact as int] == self.pacts@[h.pact as int].deep_view());
            }
            return ContentsStep::Finished(3);
        }
        proof {
            assert(self@[h.pact as int] == self.pacts@[h.pact as int].deep_view());
        }
        let mut pact = self.pacts.remove(h.pact);
        let ghost s1 = self.pacts@;
        let res = pact.with_setup_contents(h.interaction, part, &ct, def, catalogue);
        let ghost pm1 = pact@;
        self.pacts.insert(h.pact, pact);
        proof {
            let s0 = old(self).pacts@;
            s0.remove_ensures(h.pact as int);
            s1.insert_ensures(h.pact as int, self.pacts@[h.pact as int]);
            assert forall|k: int| 0 <= k < s0.len() implies self.pacts@[k] == (if k == h.pact {
                self.pacts@[h.pact as int]
            } else {
                s0[k]
            }) by {
                if k > h.pact {
                    assert(self.pacts@[k] == s1[k - 1]);
                    assert(s1[k - 1] == s0[k]);
                } else if k < h.pact {
                    assert(self.pacts@[k] == s1[k]);
                    assert(s1[k] == s0[k]);
                }
            };
            assert(self.pacts@[h.pact as int].deep_view() == pm1);
            assert(self@ =~= old(self)@.update(h.pact as int, pm1));
        }
        match res {
            Ok(SetupStep::Done) => ContentsStep::Finished(0),
            Ok(SetupStep::PluginCall(request)) => ContentsStep::PluginCall(
                PendingPluginCall { handle: h, part, content_type: ct, request },
            ),
            Err(ResolveError::AlreadyStarted) => ContentsStep::Finished(2),
            Err(ResolveError::Unimplemented) => ContentsStep::Finished(1),
            Err(_) => ContentsStep::Finished(6),
        }
    }

    /// Takes the plugin's answer to a pending configure call. A failed call
    /// leaves everything untouched and answers 6, with the plugin's error
    /// text for the caller to report. A successful reply is merged and
    /// answers 0 — unless the handle has gone stale in between (3) or the
    /// interaction's mock server was started meanwhile (2): live state is
    /// never reconfigured.
    pub fn interaction_contents_apply(
        &mut self,
        pending: PendingPluginCall,
        outcome: Result<PluginReply, String>,
    ) -> (r: u32)
        ensures
            outcome matches Err(_) ==> r == 6 && final(self)@ == old(self)@,
            outcome matches Ok(reply) ==> (if !valid_interaction(old(self)@, pending.handle) {
                r == 3 && final(self)@ == old(self)@
            } else if old(self)@[pending.handle.pact as int].interactions[pending.handle.interaction as int].started {
                r == 2 && final(self)@ == old(self)@
            } else {
                r == 0 && final(self)@ == contents_apply_state(
                    old(self)@,
                    pending.handle,
                    pending.part,
                    pending.content_type.raw@,
                    pending.request.plugin_name@,
                    pending.request.plugin_version@,
                    reply@,
                )
            }),
    {
        let PendingPluginCall { handle, part, content_type, request } = pending;
        let reply = match crate::resolver::plugin_call_outcome(outcome) {
            Ok(reply) => reply,
            Err(_) => {
                return 6;
            },
        };
        if handle.pact >= self.pacts.len() {
            return 3;
        }
        if handle.interaction >= self.pacts[handle.pact].interactions.len() {
            proof {
                assert(self@[handle.pact as int] == self.pacts@[handle.pact as int].deep_view());
            }
            return 3;
        }
        proof {
            assert(self@[handle.pact as int] == self.pacts@[handle.pact as int].deep_view());
        }
        if self.pacts[handle.pact].interactions[handle.interaction].started {
            proof {
                assert(self@[handle.pact as int].interactions[handle.interaction as int]
                    == self.pacts@[handle.pact as int].interactions@[handle.interaction
                    as int].deep_view());
            }
            return 2;
        }
        proof {
            assert(self@[handle.pact as int].interactions[handle.interaction as int]
                == self.pacts@[handle.pact as int].interactions@[handle.interaction
                as int].deep_view());
        }
        let mut pact = self.pacts.remove(handle.pact);
        let ghost s1 = self.pacts@;
        pact.with_apply_reply(
            handle.interaction,
            part,
            &content_type,
            request.plugin_name.as_str(),
            request.plugin_version.as_str(),
            reply,
        );
        let ghost pm1 = pact@;
        self.pacts.insert(handle.pact, pact);
        proof {
            let s0 = old(self).pacts@;
            s0.remove_ensures(handle.pact as int);
            s1.insert_ensures(handle.pact as int, self.pacts@[handle.pact as int]);
            assert forall|k: int| 0 <= k < s0.len() implies self.pacts@[k] == (if k == handle.pact {
                self.pacts@[handle.pact as int]
            } else {
                s0[k]
            }) by {
                if k > handle.pact {
                    assert(self.pacts@[k] == s1[k - 1]);
                    assert(s1[k - 1] == s0[k]);
                } else if k < handle.pact {
                    assert(self.pacts@[k] == s1[k]);
                    assert(s1[k] == s0[k]);
                }
            };
            assert(self.pacts@[handle.pact as int].deep_view() == pm1);
            assert(self@ =~= old(self)@.update(handle.pact as int, pm1));
        }
        0
    }
}


} // verus!
