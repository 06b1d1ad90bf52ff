//! Interactions: one recorded request/response exchange, with the state the
//! content resolver reads and writes.

use vstd::prelude::*;

use crate::assoc::upsert_replace;
use crate::part::{HttpPart, PartModel};
use crate::strutil::str_eq;

verus! {

/// Which half of an interaction an operation addresses.
#[derive(Clone, Copy, Debug, PartialEq, Eq, Structural)]
pub enum InteractionPart {
    Request,
    Response,
}

/// The shape of an interaction. Only HTTP request/response interactions can
/// have their contents configured; the other shapes are recognised and
/// reported as unimplemented rather than silently skipped.
#[derive(Clone, Copy, Debug, PartialEq, Eq, Structural)]
pub enum InteractionKind {
    SynchronousHttp,
    AsynchronousMessage,
    SynchronousMessage,
}

/// Human-readable rendering of an interaction, supplied by a plugin.
#[derive(Clone, Debug)]
pub struct InteractionMarkup {
    pub markup: String,
    pub markup_type: String,
}

/// Mathematical model of an `InteractionMarkup`.
pub struct MarkupModel {
    pub markup: Seq<char>,
    pub markup_type: Seq<char>,
}

impl View for InteractionMarkup {
    type V = MarkupModel;

    open spec fn view(&self) -> MarkupModel {
        MarkupModel { markup: self.markup@, markup_type: self.markup_type@ }
    }
}

/// One recorded interaction: its shape, whether its mock server has been
/// started, its two parts, per-plugin configuration, and markup.
///
/// Once `started` is set, no part may be reconfigured: resolution requests
/// against a started interaction fail rather than mutate live state.
#[derive(Clone, Debug)]
pub struct Interaction {
    pub kind: InteractionKind,
    pub started: bool,
    pub request: HttpPart,
    pub response: HttpPart,
    pub plugin_config: Vec<(String, Vec<(String, String)>)>,
    pub markup: InteractionMarkup,
}

/// Mathematical model of an `Interaction`.
pub struct InteractionModel {
    pub kind: InteractionKind,
    pub started: bool,
    pub request: PartModel,
    pub response: PartModel,
    pub plugin_config: Seq<(Seq<char>, Seq<(Seq<char>, Seq<char>)>)>,
    pub markup: MarkupModel,
}

impl View for Interaction {
    type V = InteractionModel;

    open spec fn view(&self) -> InteractionModel {
        InteractionModel {
            kind: self.kind,
            started: self.started,
            request: self.request@,
            response: self.response@,
            plugin_config: self.plugin_config.deep_view(),
            markup: self.markup@,
        }
    }
}

impl DeepView for Interaction {
    type V = InteractionModel;

    open spec fn deep_view(&self) -> InteractionModel {
        self@
    }
}

impl Interaction {
    /// The model of a fresh, not-yet-started interaction of the given shape.
    pub open spec fn new_model(kind: InteractionKind) -> InteractionModel {
        InteractionModel {
            kind: kind,
            started: false,
            request: HttpPart::new_model(),
            response: HttpPart::new_model(),
            plugin_config: Seq::<(Seq<char>, Seq<(Seq<char>, Seq<char>)>)>::empty(),
            markup: MarkupModel {
                markup: Seq::<char>::empty(),
                markup_type: Seq::<char>::empty(),
            },
        }
    }

    /// A fresh, not-yet-started interaction of the given shape with empty
    /// parts.
    pub fn new(kind: InteractionKind) -> (r: Interaction)
        ensures
            r@ == Self::new_model(kind),
    {
        let r = Interaction {
            kind,
            started: false,
            request: HttpPart::new(),
            response: HttpPart::new(),
            plugin_config: Vec::new(),
            markup: InteractionMarkup { markup: String::new(), markup_type: String::new() },
        };
        proof {
            assert(r@.plugin_config =~= Seq::<(Seq<char>, Seq<(Seq<char>, Seq<char>)>)>::empty());
        }
        r
    }

    /// Records a plugin's per-interaction configuration, replacing any entry
    /// the plugin already has.
    pub fn set_plugin_config(&mut self, plugin_name: &str, entries: Vec<(String, String)>)
        ensures
            final(self)@ == (InteractionModel {
                plugin_config: upsert_replace(
                    old(self)@.plugin_config,
                    plugin_name@,
                    entries.deep_view(),
                ),
                ..old(self)@
            }),
    {
        let ghost model = self@.plugin_config;
        let ghost value = entries.deep_view();
        let n = self.plugin_config.len();
        let mut i: usize = 0;
        while i < n
            invariant
                i <= n,
                n == self.plugin_config.len(),
                self == old(self),
                model == self@.plugin_config,
                entries.deep_view() == value,
                forall|k: int| 0 <= k < i ==> (#[trigger] model[k]).0 != plugin_name@,
            decreases n - i,
        {
            let hit = str_eq(self.plugin_config[i].0.as_str(), plugin_name);
            proof {
                assert(model[i as int] == self.plugin_config@[i as int].deep_view());
            }
            if hit {
                proof {
                    crate::assoc::lemma_first_match(model, plugin_name@);
                    assert(crate::assoc::first_match(model, plugin_name@) == i);
                }
                let key = self.plugin_config.remove(i).0;
                let ghost s1 = self.plugin_config@;
                let pair = (key, entries);
                let ghost newe = pair;
                self.plugin_config.insert(i, pair);
                proof {
                    let s0 = old(self).plugin_config@;
                    s0.remove_ensures(i as int);
                    s1.insert_ensures(i as int, newe);
                    assert forall|j: int| 0 <= j < s0.update(i as int, newe).len() implies s1
                        .insert(i as int, newe)[j] == s0.update(i as int, newe)[j] by {
                        if j > i {
                            assert(s1.insert(i as int, newe)[j] == s1[j - 1]);
                            assert(s1[j - 1] == s0[j]);
                        }
                    };
                    assert(self.plugin_config@ =~= s0.update(i as int, newe));
                    assert(newe.deep_view() == (plugin_name@, value));
                    assert(self@.plugin_config =~= upsert_replace(model, plugin_name@, value));
                }
                return ;
            }
            i += 1;
        }
        proof {
            crate::assoc::lemma_first_match(model, plugin_name@);
        }
        self.plugin_config.push((plugin_name.to_owned(), entries));
        proof {
            let newe = self.plugin_config@[n as int];
            assert(newe.deep_view() == (plugin_name@, value));
            assert(self@.plugin_config =~= upsert_replace(model, plugin_name@, value));
        }
    }

    /// Replaces the interaction's markup wholesale.
    pub fn set_markup(&mut self, markup: InteractionMarkup)
        ensures
            final(self)@ == (InteractionModel { markup: markup@, ..old(self)@ }),
    {
        self.markup = markup;
    }
}

} // verus!
