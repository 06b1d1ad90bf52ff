//! The matcher catalogue: a process-wide registry mapping content types to
//! the matcher that handles them — the built-in core rules or a plugin.
//!
//! Lookup is pure; a content type with no registered entry falls back to the
//! core rules. That fallback is deliberate policy, not an error.

use vstd::prelude::*;

use crate::mime::MimeType;
use crate::strutil::str_eq;

verus! {

/// The matcher chosen for a content type: either the built-in core rules, or
/// a named, versioned content plugin.
#[derive(Clone, Debug)]
pub enum MatcherKind {
    Core,
    Plugin { name: String, version: String },
}

/// Mathematical model of a `MatcherKind`.
pub enum MatcherModel {
    Core,
    Plugin { name: Seq<char>, version: Seq<char> },
}

impl View for MatcherKind {
    type V = MatcherModel;

    open spec fn view(&self) -> MatcherModel {
        match self {
            MatcherKind::Core => MatcherModel::Core,
            MatcherKind::Plugin { name, version } => MatcherModel::Plugin {
                name: name@,
                version: version@,
            },
        }
    }
}

/// One registered matcher, keyed by the exact `type/subtype` pair.
#[derive(Clone, Debug)]
pub struct CatalogueEntry {
    pub main_type: String,
    pub sub_type: String,
    pub kind: MatcherKind,
}

/// Mathematical model of a `CatalogueEntry`.
pub struct EntryModel {
    pub main_type: Seq<char>,
    pub sub_type: Seq<char>,
    pub kind: MatcherModel,
}

impl View for CatalogueEntry {
    type V = EntryModel;

    open spec fn view(&self) -> EntryModel {
        EntryModel {
            main_type: self.main_type@,
            sub_type: self.sub_type@,
            kind: self.kind@,
        }
    }
}

impl DeepView for CatalogueEntry {
    type V = EntryModel;

    open spec fn deep_view(&self) -> EntryModel {
        self@
    }
}

/// The registry of known content matchers.
#[derive(Clone, Debug)]
pub struct Catalogue {
    pub entries: Vec<CatalogueEntry>,
}

impl View for Catalogue {
    type V = Seq<EntryModel>;

    open spec fn view(&self) -> Seq<EntryModel> {
        self.entries.deep_view()
    }
}

/// The matcher the catalogue chooses: the first entry registered for exactly
/// this `type/subtype`, or the core rules when none is.
pub open spec fn spec_find_matcher(entries: Seq<EntryModel>, main: Seq<char>, sub: Seq<char>)
    -> MatcherModel
    decreases entries.len(),
{
    if entries.len() == 0 {
        MatcherModel::Core
    } else if entries[0].main_type == main && entries[0].sub_type == sub {
        entries[0].kind
    } else {
        spec_find_matcher(entries.drop_first(), main, sub)
    }
}

/// When every entry registered for a `type/subtype` is a core entry — in
/// particular when none is registered at all — the catalogue's answer is the
/// core matcher.
pub proof fn lemma_find_no_plugin(entries: Seq<EntryModel>, main: Seq<char>, sub: Seq<char>)
    requires
        forall|i: int|
            0 <= i < entries.len() && (#[trigger] entries[i]).main_type == main
                && entries[i].sub_type == sub ==> entries[i].kind is Core,
    ensures
        spec_find_matcher(entries, main, sub) is Core,
    decreases entries.len(),
{
    if entries.len() > 0 {
        if entries[0].main_type == main && entries[0].sub_type == sub {
            assert(entries[0].kind is Core);
        } else {
            let rest = entries.drop_first();
            assert forall|i: int|
                0 <= i < rest.len() && (#[trigger] rest[i]).main_type == main && rest[i].sub_type
                    == sub implies rest[i].kind is Core by {
                assert(rest[i] == entries[i + 1]);
            };
            lemma_find_no_plugin(rest, main, sub);
        }
    }
}

impl Catalogue {
    /// An empty catalogue: every content type falls back to the core rules.
    pub fn new() -> (r: Catalogue)
        ensures
            r@ == Seq::<EntryModel>::empty(),
    {
        let r = Catalogue { entries: Vec::new() };
        proof {
            assert(r@ =~= Seq::<EntryModel>::empty());
        }
        r
    }

    /// Registers a matcher for a content type, at the end of the registry.
    pub fn register(&mut self, content_type: &MimeType, kind: MatcherKind)
        ensures
            final(self)@ == old(self)@.push(
                EntryModel {
                    main_type: content_type.main_type@,
                    sub_type: content_type.sub_type@,
                    kind: kind@,
                },
            ),
    {
        let ghost kind_model = kind@;
        self.entries.push(
            CatalogueEntry {
                main_type: content_type.main_type.clone(),
                sub_type: content_type.sub_type.clone(),
                kind,
            },
        );
        proof {
            assert(self@ =~= old(self)@.push(
                EntryModel {
                    main_type: content_type.main_type@,
                    sub_type: content_type.sub_type@,
                    kind: kind_model,
                },
            ));
        }
    }

    /// Looks the content type up. Returns the first matching registration,
    /// and the core rules when there is none — the explicit fallback.
    pub fn find_matcher(&self, content_type: &MimeType) -> (r: MatcherKind)
        ensures
            r@ == spec_find_matcher(self@, content_type.main_type@, content_type.sub_type@),
    {
        let ghost model = self@;
        let ghost main = content_type.main_type@;
        let ghost sub = content_type.sub_type@;
        let n = self.entries.len();
        let mut i: usize = 0;
        proof {
            assert(model.skip(0) =~= model);
        }
        while i < n
            invariant
                i <= n,
                n == self.entries.len(),
                model == self@,
                main == content_type.main_type@,
                sub == content_type.sub_type@,
                spec_find_matcher(model, main, sub) == spec_find_matcher(
                    model.skip(i as int),
                    main,
                    sub,
                ),
            decreases n - i,
        {
            proof {
                assert(model[i as int] == self.entries@[i as int].deep_view());
                assert(model.skip(i as int)[0] == model[i as int]);
            }
            let hit = str_eq(self.entries[i].main_type.as_str(), content_type.main_type.as_str())
                && str_eq(self.entries[i].sub_type.as_str(), content_type.sub_type.as_str());
            if hit {
                return self.entries[i].kind.clone_kind();
            }
            proof {
                assert(model.skip(i as int).drop_first() =~= model.skip(i as int + 1));
            }
            i += 1;
        }
        proof {
            assert(model.skip(n as int) =~= Seq::<EntryModel>::empty());
        }
        MatcherKind::Core
    }
}

impl MatcherKind {
    /// A copy with the same model.
    pub fn clone_kind(&self) -> (r: MatcherKind)
        ensures
            r@ == self@,
    {
        match self {
            MatcherKind::Core => MatcherKind::Core,
            MatcherKind::Plugin { name, version } => MatcherKind::Plugin {
                name: name.clone(),
                version: version.clone(),
            },
        }
    }
}

} // verus!
