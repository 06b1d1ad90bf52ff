//! The plugin lifecycle manager: reference-counted plugin processes shared
//! across interactions and contracts.
//!
//! The manager decides; the caller acts. `load` answers either that the
//! plugin is already running (its count was raised) or that the caller must
//! start its process; `release` answers whether the caller must stop it.
//! Plugins are started at most once per identity and stopped exactly when the
//! last reference is released.

use vstd::prelude::*;

use crate::assoc::{first_match, lemma_first_match, lemma_first_match_push};
use crate::strutil::str_eq;

verus! {

/// A plugin identity: the `(name, version)` pair that names one plugin
/// process. Two loads of the same identity share one process.
#[derive(Clone, Debug, PartialEq)]
pub struct PluginIdentity {
    pub name: String,
    pub version: String,
}

/// Mathematical model of a `PluginIdentity`.
pub struct IdentityModel {
    pub name: Seq<char>,
    pub version: Seq<char>,
}

impl View for PluginIdentity {
    type V = IdentityModel;

    open spec fn view(&self) -> IdentityModel {
        IdentityModel { name: self.name@, version: self.version@ }
    }
}

impl DeepView for PluginIdentity {
    type V = IdentityModel;

    open spec fn deep_view(&self) -> IdentityModel {
        self@
    }
}

impl PluginIdentity {
    /// Whether two identities name the same plugin.
    pub fn same_as(&self, other: &PluginIdentity) -> (r: bool)
        ensures
            r == (self@ == other@),
    {
        str_eq(self.name.as_str(), other.name.as_str()) && str_eq(
            self.version.as_str(),
            other.version.as_str(),
        )
    }

    /// A copy with the same model.
    pub fn duplicate(&self) -> (r: PluginIdentity)
        ensures
            r@ == self@,
    {
        PluginIdentity { name: self.name.clone(), version: self.version.clone() }
    }
}

/// What `load` asks of its caller.
#[derive(Clone, Copy, Debug, PartialEq, Eq, Structural)]
pub enum LoadStep {
    /// The plugin was already running; its reference count was raised.
    Attached,
    /// A first reference: the caller must start the plugin's process.
    Started,
}

/// What `release` asks of its caller.
#[derive(Clone, Copy, Debug, PartialEq, Eq, Structural)]
pub enum ReleaseStep {
    /// The identity was not loaded; nothing changed and nothing is stopped.
    NotLoaded,
    /// Other references remain; the process keeps running.
    Retained,
    /// The last reference went away: the caller must stop the process.
    Stop,
}

/// A reference count one above `c`, saturating at the machine limit.
pub open spec fn bump(c: u64) -> u64 {
    if c == u64::MAX {
        c
    } else {
        (c + 1) as u64
    }
}

/// The manager's entries after loading `id`: a fresh entry with count 1, or
/// the matching entry's count raised.
pub open spec fn spec_load(entries: Seq<(IdentityModel, u64)>, id: IdentityModel) -> Seq<
    (IdentityModel, u64),
> {
    let i = first_match(entries, id);
    if i == -1 {
        entries.push((id, 1u64))
    } else {
        entries.update(i, (id, bump(entries[i].1)))
    }
}

/// Whether loading `id` starts a process: exactly when no entry has it.
pub open spec fn load_starts(entries: Seq<(IdentityModel, u64)>, id: IdentityModel) -> bool {
    first_match(entries, id) == -1
}

/// The manager's entries after releasing `id`: unchanged when absent, the
/// entry removed when its count reaches zero, the count lowered otherwise.
pub open spec fn spec_release(entries: Seq<(IdentityModel, u64)>, id: IdentityModel) -> Seq<
    (IdentityModel, u64),
> {
    let i = first_match(entries, id);
    if i == -1 {
        entries
    } else if entries[i].1 <= 1 {
        entries.remove(i)
    } else {
        entries.update(i, (id, (entries[i].1 - 1) as u64))
    }
}

/// Whether releasing `id` stops a process: exactly when the last reference
/// goes away.
pub open spec fn release_stops(entries: Seq<(IdentityModel, u64)>, id: IdentityModel) -> bool {
    let i = first_match(entries, id);
    i != -1 && entries[i].1 == 1
}

/// The live reference count for `id`, 0 when it is not loaded.
pub open spec fn spec_count(entries: Seq<(IdentityModel, u64)>, id: IdentityModel) -> u64 {
    let i = first_match(entries, id);
    if i == -1 {
        0u64
    } else {
        entries[i].1
    }
}

/// Well-formed entries: one entry per identity, every count at least 1.
pub open spec fn entries_wf(entries: Seq<(IdentityModel, u64)>) -> bool {
    (forall|i: int, j: int|
        0 <= i < j < entries.len() ==> (#[trigger] entries[i]).0 != (#[trigger] entries[j]).0)
        && (forall|i: int| 0 <= i < entries.len() ==> (#[trigger] entries[i]).1 >= 1)
}

/// Loading keeps the entries well-formed.
pub proof fn lemma_load_preserves_wf(entries: Seq<(IdentityModel, u64)>, id: IdentityModel)
    requires
        entries_wf(entries),
    ensures
        entries_wf(spec_load(entries, id)),
{
    lemma_first_match(entries, id);
    let i = first_match(entries, id);
    let s = spec_load(entries, id);
    if i == -1 {
        assert forall|a: int, b: int| 0 <= a < b < s.len() implies (#[trigger] s[a]).0 != (
        #[trigger] s[b]).0 by {
            if b < entries.len() {
                assert(s[a] == entries[a] && s[b] == entries[b]);
            } else {
                assert(s[b] == (id, 1u64));
                assert(s[a] == entries[a]);
            }
        };
        assert forall|a: int| 0 <= a < s.len() implies (#[trigger] s[a]).1 >= 1 by {
            if a < entries.len() {
                assert(s[a] == entries[a]);
            } else {
                assert(s[a] == (id, 1u64));
            }
        };
    } else {
        let e2 = (id, bump(entries[i].1));
        assert forall|a: int, b: int| 0 <= a < b < s.len() implies (#[trigger] s[a]).0 != (
        #[trigger] s[b]).0 by {
            assert(s[a] == if a == i {
                e2
            } else {
                entries[a]
            });
            assert(s[b] == if b == i {
                e2
            } else {
                entries[b]
            });
            assert(entries[i].0 == id);
        };
        assert forall|a: int| 0 <= a < s.len() implies (#[trigger] s[a]).1 >= 1 by {
            if a == i {
                assert(s[a] == e2);
            } else {
                assert(s[a] == entries[a]);
            }
        };
    }
}

/// Releasing keeps the entries well-formed.
pub proof fn lemma_release_preserves_wf(entries: Seq<(IdentityModel, u64)>, id: IdentityModel)
    requires
        entries_wf(entries),
    ensures
        entries_wf(spec_release(entries, id)),
{
    lemma_first_match(entries, id);
    let i = first_match(entries, id);
    let s = spec_release(entries, id);
    if i == -1 {
    } else if entries[i].1 <= 1 {
        entries.remove_ensures(i);
        assert forall|a: int, b: int| 0 <= a < b < s.len() implies (#[trigger] s[a]).0 != (
        #[trigger] s[b]).0 by {
            assert(s[a] == if a < i {
                entries[a]
            } else {
                entries[a + 1]
            });
            assert(s[b] == if b < i {
                entries[b]
            } else {
                entries[b + 1]
            });
        };
        assert forall|a: int| 0 <= a < s.len() implies (#[trigger] s[a]).1 >= 1 by {
            assert(s[a] == if a < i {
                entries[a]
            } else {
                entries[a + 1]
            });
        };
    } else {
        let e2 = (id, (entries[i].1 - 1) as u64);
        assert forall|a: int, b: int| 0 <= a < b < s.len() implies (#[trigger] s[a]).0 != (
        #[trigger] s[b]).0 by {
            assert(s[a] == if a == i {
                e2
            } else {
                entries[a]
            });
            assert(s[b] == if b == i {
                e2
            } else {
                entries[b]
            });
            assert(entries[i].0 == id);
        };
        assert forall|a: int| 0 <= a < s.len() implies (#[trigger] s[a]).1 >= 1 by {
            if a == i {
                assert(s[a] == e2);
            } else {
                assert(s[a] == entries[a]);
            }
        };
    }
}

/// The plugin lifecycle manager. One instance is shared by every contract of
/// a test run; all reference-count changes go through it.
#[derive(Debug)]
pub struct PluginManager {
    pub entries: Vec<(PluginIdentity, u64)>,
}

impl View for PluginManager {
    type V = Seq<(IdentityModel, u64)>;

    open spec fn view(&self) -> Seq<(IdentityModel, u64)> {
        self.entries.deep_view()
    }
}

impl PluginManager {
    /// Every identity distinct and every count live.
    pub open spec fn wf(&self) -> bool {
        entries_wf(self@)
    }

    /// A manager with nothing loaded.
    pub fn new() -> (r: PluginManager)
        ensures
            r@ == Seq::<(IdentityModel, u64)>::empty(),
            r.wf(),
    {
        let r = PluginManager { entries: Vec::new() };
        proof {
            assert(r@ =~= Seq::<(IdentityModel, u64)>::empty());
        }
        r
    }

    /// Loads a plugin identity. When it is already loaded, only its count is
    /// raised; a process is started only on the answer `Started`, and a
    /// failed start is undone with `release`.
    pub fn load(&mut self, id: &PluginIdentity) -> (r: LoadStep)
        requires
            old(self).wf(),
        ensures
            final(self)@ == spec_load(old(self)@, id@),
            final(self).wf(),
            r == LoadStep::Started <==> load_starts(old(self)@, id@),
    {
        let ghost model = self@;
        let n = self.entries.len();
        let mut i: usize = 0;
        while i < n
            invariant
                i <= n,
                n == self.entries.len(),
                self == old(self),
                old(self).wf(),
                model == self@,
                forall|k: int| 0 <= k < i ==> (#[trigger] model[k]).0 != id@,
            decreases n - i,
        {
            let hit = self.entries[i].0.same_as(id);
            proof {
                assert(model[i as int] == self.entries@[i as int].deep_view());
            }
            if hit {
                proof {
                    lemma_first_match(model, id@);
                    assert(first_match(model, id@) == i);
                }
                let (key, c) = self.entries.remove(i);
                let ghost s1 = self.entries@;
                let c2 = if c == u64::MAX {
                    c
                } else {
                    c + 1
                };
                let pair = (key, c2);
                let ghost newe = pair;
                self.entries.insert(i, pair);
                proof {
                    let s0 = old(self).entries@;
                    s0.remove_ensures(i as int);
                    s1.insert_ensures(i as int, newe);
                    assert forall|j: int| 0 <= j < s0.update(i as int, newe).len() implies s1
                        .insert(i as int, newe)[j] == s0.update(i as int, newe)[j] by {
                        if j > i {
                            assert(s1.insert(i as int, newe)[j] == s1[j - 1]);
                            assert(s1[j - 1] == s0[j]);
                        }
                    };
                    assert(self.entries@ =~= s0.update(i as int, newe));
                    assert(newe.deep_view() == (id@, bump(model[i as int].1)));
                    assert(self@ =~= spec_load(model, id@));
                    lemma_load_preserves_wf(model, id@);
                }
                return LoadStep::Attached;
            }
            i += 1;
        }
        proof {
            lemma_first_match(model, id@);
        }
        self.entries.push((id.duplicate(), 1));
        proof {
            assert(self.entries@[n as int].deep_view() == (id@, 1u64));
            assert(self@ =~= model.push((id@, 1u64)));
            lemma_load_preserves_wf(model, id@);
        }
        LoadStep::Started
    }

    /// Releases one reference to a plugin identity. Releasing an identity
    /// that is not loaded changes nothing and stops nothing; the process is
    /// stopped only on the answer `Stop`, when its last reference goes away.
    pub fn release(&mut self, id: &PluginIdentity) -> (r: ReleaseStep)
        requires
            old(self).wf(),
        ensures
            final(self)@ == spec_release(old(self)@, id@),
            final(self).wf(),
            r == ReleaseStep::Stop <==> release_stops(old(self)@, id@),
            r == ReleaseStep::NotLoaded <==> !crate::assoc::has_entry(old(self)@, id@),
            !crate::assoc::has_entry(old(self)@, id@) ==> final(self)@ == old(self)@,
    {
        let ghost model = self@;
        let n = self.entries.len();
        let mut i: usize = 0;
        while i < n
            invariant
                i <= n,
                n == self.entries.len(),
                self == old(self),
                old(self).wf(),
                model == self@,
                forall|k: int| 0 <= k < i ==> (#[trigger] model[k]).0 != id@,
            decreases n - i,
        {
            let hit = self.entries[i].0.same_as(id);
            proof {
                assert(model[i as int] == self.entries@[i as int].deep_view());
            }
            if hit {
                proof {
                    lemma_first_match(model, id@);
                    assert(first_match(model, id@) == i);
                }
                let c = self.entries[i].1;
                if c <= 1 {
                    self.entries.remove(i);
                    proof {
                        let s0 = old(self).entries@;
                        s0.remove_ensures(i as int);
                        model.remove_ensures(i as int);
                        assert forall|j: int| 0 <= j < model.remove(i as int).len() implies self@[j]
                            == model.remove(i as int)[j] by {
                            if j < i {
                                assert(self.entries@[j] == s0[j]);
                                assert(model.remove(i as int)[j] == model[j]);
                            } else {
                                assert(self.entries@[j] == s0[j + 1]);
                                assert(model.remove(i as int)[j] == model[j + 1]);
                            }
                        };
                        assert(self@ =~= model.remove(i as int));
                        lemma_release_preserves_wf(model, id@);
                    }
                    return ReleaseStep::Stop;
                } else {
                    let (key, c0) = self.entries.remove(i);
                    let ghost s1 = self.entries@;
                    let pair = (key, c0 - 1);
                    let ghost newe = pair;
                    self.entries.insert(i, pair);
                    proof {
                        let s0 = old(self).entries@;
                        s0.remove_ensures(i as int);
                        s1.insert_ensures(i as int, newe);
                        assert forall|j: int| 0 <= j < s0.update(i as int, newe).len() implies s1
                            .insert(i as int, newe)[j] == s0.update(i as int, newe)[j] by {
                            if j > i {
                                assert(s1.insert(i as int, newe)[j] == s1[j - 1]);
                                assert(s1[j - 1] == s0[j]);
                            }
                        };
                        assert(self.entries@ =~= s0.update(i as int, newe));
                        assert(newe.deep_view() == (id@, (model[i as int].1 - 1) as u64));
                        assert(self@ =~= spec_release(model, id@));
                        lemma_release_preserves_wf(model, id@);
                    }
                    return ReleaseStep::Retained;
                }
            }
            i += 1;
        }
        proof {
            lemma_first_match(model, id@);
        }
        ReleaseStep::NotLoaded
    }

    /// The live reference count for an identity, 0 when it is not loaded.
    pub fn loaded_count(&self, id: &PluginIdentity) -> (r: u64)
        ensures
            r == spec_count(self@, id@),
    {
        let ghost model = self@;
        let n = self.entries.len();
        let mut i: usize = 0;
        while i < n
            invariant
                i <= n,
                n == self.entries.len(),
                model == self@,
                forall|k: int| 0 <= k < i ==> (#[trigger] model[k]).0 != id@,
            decreases n - i,
        {
            let hit = self.entries[i].0.same_as(id);
            proof {
                assert(model[i as int] == self.entries@[i as int].deep_view());
            }
            if hit {
                proof {
                    lemma_first_match(model, id@);
                    assert(first_match(model, id@) == i);
                }
                return self.entries[i].1;
            }
            i += 1;
        }
        proof {
            lemma_first_match(model, id@);
        }
        0
    }
}

/// The manager's entries after releasing each identity of `ids` once, in
/// order.
pub open spec fn spec_release_all(entries: Seq<(IdentityModel, u64)>, ids: Seq<IdentityModel>)
    -> Seq<(IdentityModel, u64)>
    decreases ids.len(),
{
    if ids.len() == 0 {
        entries
    } else {
        spec_release_all(spec_release(entries, ids[0]), ids.drop_first())
    }
}

/// The identities whose processes those releases stop, in release order.
pub open spec fn spec_stops(entries: Seq<(IdentityModel, u64)>, ids: Seq<IdentityModel>) -> Seq<
    IdentityModel,
>
    decreases ids.len(),
{
    if ids.len() == 0 {
        Seq::<IdentityModel>::empty()
    } else {
        let rest = spec_stops(spec_release(entries, ids[0]), ids.drop_first());
        if release_stops(entries, ids[0]) {
            seq![ids[0]] + rest
        } else {
            rest
        }
    }
}

/// Releasing one more identity extends the fold by one step at the end.
pub proof fn lemma_release_all_push(
    entries: Seq<(IdentityModel, u64)>,
    ids: Seq<IdentityModel>,
    x: IdentityModel,
)
    ensures
        spec_release_all(entries, ids.push(x)) == spec_release(spec_release_all(entries, ids), x),
        spec_stops(entries, ids.push(x)) =~= spec_stops(entries, ids) + (if release_stops(
            spec_release_all(entries, ids),
            x,
        ) {
            seq![x]
        } else {
            Seq::<IdentityModel>::empty()
        }),
    decreases ids.len(),
{
    let p = ids.push(x);
    let extra = if release_stops(spec_release_all(entries, ids), x) {
        seq![x]
    } else {
        Seq::<IdentityModel>::empty()
    };
    if ids.len() == 0 {
        assert(p[0] == x);
        assert(p.drop_first() =~= Seq::<IdentityModel>::empty());
        assert(spec_release_all(entries, p) == spec_release_all(spec_release(entries, x),
            p.drop_first()));
        assert(spec_release_all(spec_release(entries, x), p.drop_first()) == spec_release(
            entries,
            x,
        ));
        assert(spec_release_all(entries, ids) == entries);
        assert(spec_stops(spec_release(entries, x), p.drop_first()) =~= Seq::<
            IdentityModel,
        >::empty());
        assert(spec_stops(entries, ids) =~= Seq::<IdentityModel>::empty());
        assert(spec_stops(entries, p) =~= spec_stops(entries, ids) + extra);
    } else {
        assert(p[0] == ids[0]);
        assert(p.drop_first() =~= ids.drop_first().push(x));
        let m2 = spec_release(entries, ids[0]);
        lemma_release_all_push(m2, ids.drop_first(), x);
        assert(spec_release_all(entries, p) == spec_release_all(m2, ids.drop_first().push(x)));
        assert(spec_release_all(entries, ids) == spec_release_all(m2, ids.drop_first()));
        let head = if release_stops(entries, ids[0]) {
            seq![ids[0]]
        } else {
            Seq::<IdentityModel>::empty()
        };
        assert(spec_stops(entries, p) == head + spec_stops(m2, ids.drop_first().push(x)));
        assert(spec_stops(m2, ids.drop_first().push(x)) =~= spec_stops(m2, ids.drop_first())
            + extra);
        assert(spec_stops(entries, ids) == head + spec_stops(m2, ids.drop_first()));
        assert(spec_stops(entries, p) =~= spec_stops(entries, ids) + extra);
    }
}

/// Releasing a list of identities keeps the entries well-formed.
pub proof fn lemma_release_all_wf(entries: Seq<(IdentityModel, u64)>, ids: Seq<IdentityModel>)
    requires
        entries_wf(entries),
    ensures
        entries_wf(spec_release_all(entries, ids)),
    decreases ids.len(),
{
    if ids.len() > 0 {
        lemma_release_preserves_wf(entries, ids[0]);
        lemma_release_all_wf(spec_release(entries, ids[0]), ids.drop_first());
    }
}

/// The manager's entries after `n` successive loads of `id`.
pub open spec fn iter_load(entries: Seq<(IdentityModel, u64)>, id: IdentityModel, n: nat) -> Seq<
    (IdentityModel, u64),
>
    decreases n,
{
    if n == 0 {
        entries
    } else {
        spec_load(iter_load(entries, id, (n - 1) as nat), id)
    }
}

/// The manager's entries after `n` successive releases of `id`.
pub open spec fn iter_release(entries: Seq<(IdentityModel, u64)>, id: IdentityModel, n: nat)
    -> Seq<(IdentityModel, u64)>
    decreases n,
{
    if n == 0 {
        entries
    } else {
        spec_release(iter_release(entries, id, (n - 1) as nat), id)
    }
}

/// After `k` loads of an identity that was absent, the manager holds one
/// entry for it, counted `k`, at the end; only the first load starts a
/// process.
proof fn lemma_loads_accumulate(entries: Seq<(IdentityModel, u64)>, id: IdentityModel, n: nat)
    requires
        first_match(entries, id) == -1,
        1 <= n <= u64::MAX,
    ensures
        iter_load(entries, id, n) == entries.push((id, n as u64)),
        forall|k: nat| 1 <= k < n ==> !load_starts(#[trigger] iter_load(entries, id, k), id),
    decreases n,
{
    if n == 1 {
        assert(iter_load(entries, id, 0) == entries);
        assert(iter_load(entries, id, 1) == spec_load(entries, id));
    } else {
        lemma_loads_accumulate(entries, id, (n - 1) as nat);
        lemma_first_match_push(entries, id, (n - 1) as u64);
        let p = entries.push((id, (n - 1) as u64));
        assert(iter_load(entries, id, n) == spec_load(p, id));
        assert(spec_load(p, id) == p.update(entries.len() as int, (id, n as u64)));
        assert(p.update(entries.len() as int, (id, n as u64)) =~= entries.push((id, n as u64)));
        assert forall|k: nat| 1 <= k < n implies !load_starts(
            #[trigger] iter_load(entries, id, k),
            id,
        ) by {
            if k == n - 1 {
                lemma_first_match_push(entries, id, (n - 1) as u64);
            }
        };
    }
}

/// Draining `j` of `c` references held by the final entry lowers its count
/// to `c - j`; the process is stopped exactly at the last release, which
/// restores the entries it started from.
proof fn lemma_releases_drain(
    entries: Seq<(IdentityModel, u64)>,
    id: IdentityModel,
    c: u64,
    j: nat,
)
    requires
        first_match(entries, id) == -1,
        1 <= c,
        j <= c,
    ensures
        j < c ==> iter_release(entries.push((id, c)), id, j) == entries.push(
            (id, (c - j) as u64),
        ),
        j == c ==> iter_release(entries.push((id, c)), id, j) == entries,
        forall|k: nat|
            1 <= k <= j ==> (release_stops(
                #[trigger] iter_release(entries.push((id, c)), id, (k - 1) as nat),
                id,
            ) <==> k == c),
    decreases j,
{
    let p = entries.push((id, c));
    if j == 0 {
    } else {
        lemma_releases_drain(entries, id, c, (j - 1) as nat);
        let prev = iter_release(p, id, (j - 1) as nat);
        assert(prev == entries.push((id, (c - (j - 1)) as u64)));
        lemma_first_match_push(entries, id, (c - (j - 1)) as u64);
        let len = entries.len() as int;
        if j == c {
            assert(release_stops(prev, id));
            assert(prev.remove(len) =~= entries);
        } else {
            assert(!release_stops(prev, id));
            assert(prev.update(len, (id, (c - j) as u64)) =~= entries.push((id, (c - j) as u64)));
        }
    }
}

/// Loading one identity `n` times and releasing it `n` times leaves the
/// manager exactly as it was, with no live reference for the identity;
/// along the way only the first load starts a process and only the last
/// release stops one. Releases of an identity that was never loaded fall
/// under `release`'s own contract: they change nothing.
pub proof fn lemma_balanced_lifecycle(
    entries: Seq<(IdentityModel, u64)>,
    id: IdentityModel,
    n: nat,
)
    requires
        first_match(entries, id) == -1,
        1 <= n <= u64::MAX,
    ensures
        iter_release(iter_load(entries, id, n), id, n) == entries,
        spec_count(iter_release(iter_load(entries, id, n), id, n), id) == 0,
        load_starts(entries, id),
        forall|k: nat| 1 <= k < n ==> !load_starts(#[trigger] iter_load(entries, id, k), id),
        forall|k: nat|
            1 <= k <= n ==> (release_stops(
                #[trigger] iter_release(iter_load(entries, id, n), id, (k - 1) as nat),
                id,
            ) <==> k == n),
{
    lemma_loads_accumulate(entries, id, n);
    lemma_releases_drain(entries, id, n as u64, n);
}

} // verus!
