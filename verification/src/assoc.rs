//! Association sequences: keyed entry lists looked up by first match.
//!
//! Headers, matching rules, generators, plugin configuration and the
//! contract's plugin ledger all keep entries as ordered `(key, value)` lists
//! whose lookups take the first entry with the wanted key. The spec functions
//! here give those lists one vocabulary.

use vstd::prelude::*;

verus! {

/// First index whose key equals `key`, or -1 when no entry has it.
pub open spec fn first_match<K, V>(entries: Seq<(K, V)>, key: K) -> int
    decreases entries.len(),
{
    if entries.len() == 0 {
        -1
    } else if entries[0].0 == key {
        0
    } else {
        let r = first_match(entries.drop_first(), key);
        if r == -1 {
            -1
        } else {
            r + 1
        }
    }
}

/// Whether some entry has the key.
pub open spec fn has_entry<K, V>(entries: Seq<(K, V)>, key: K) -> bool {
    first_match(entries, key) != -1
}

/// `first_match` returns -1 exactly when no entry has the key, and otherwise
/// the first index whose key matches.
pub proof fn lemma_first_match<K, V>(entries: Seq<(K, V)>, key: K)
    ensures
        first_match(entries, key) == -1 ==> forall|i: int|
            0 <= i < entries.len() ==> (#[trigger] entries[i]).0 != key,
        first_match(entries, key) != -1 ==> {
            let r = first_match(entries, key);
            0 <= r < entries.len() && entries[r].0 == key && forall|i: int|
                0 <= i < r ==> (#[trigger] entries[i]).0 != key
        },
    decreases entries.len(),
{
    if entries.len() > 0 && entries[0].0 != key {
        let rest = entries.drop_first();
        lemma_first_match(rest, key);
        let r = first_match(rest, key);
        if r == -1 {
            assert forall|i: int| 0 <= i < entries.len() implies (#[trigger] entries[i]).0
                != key by {
                if i > 0 {
                    assert(rest[i - 1] == entries[i]);
                }
            };
        } else {
            assert(entries[r + 1] == rest[r]);
            assert forall|i: int| 0 <= i < r + 1 implies (#[trigger] entries[i]).0 != key by {
                if i > 0 {
                    assert(rest[i - 1] == entries[i]);
                }
            };
        }
    }
}

/// Appends `more` to the value of the first entry keyed `key`, or adds a new
/// entry `(key, more)` at the end when none has it.
pub open spec fn upsert_append<K, V>(entries: Seq<(K, Seq<V>)>, key: K, more: Seq<V>) -> Seq<
    (K, Seq<V>),
> {
    let i = first_match(entries, key);
    if i == -1 {
        entries.push((key, more))
    } else {
        entries.update(i, (key, entries[i].1 + more))
    }
}

/// Pushing an entry with an absent key makes it the first match.
pub proof fn lemma_first_match_push<K, V>(entries: Seq<(K, V)>, key: K, value: V)
    requires
        first_match(entries, key) == -1,
    ensures
        first_match(entries.push((key, value)), key) == entries.len(),
{
    let p = entries.push((key, value));
    lemma_first_match(entries, key);
    lemma_first_match(p, key);
    assert(p[entries.len() as int].0 == key);
    let r = first_match(p, key);
    if r == -1 {
        assert(false);
    } else if r < entries.len() {
        assert(p[r] == entries[r]);
        assert(false);
    }
}

/// The element-wise deep view of a sequence. `Vec::deep_view` is this
/// function applied to the vector's view.
pub open spec fn seq_deep<T: DeepView>(s: Seq<T>) -> Seq<T::V> {
    Seq::new(s.len(), |i: int| s[i].deep_view())
}

/// Deep views distribute over concatenation.
pub proof fn lemma_seq_deep_concat<T: DeepView>(a: Seq<T>, b: Seq<T>)
    ensures
        seq_deep(a + b) =~= seq_deep(a) + seq_deep(b),
{
    assert forall|i: int| 0 <= i < (a + b).len() implies seq_deep(a + b)[i] == (seq_deep(a)
        + seq_deep(b))[i] by {
        if i < a.len() {
            assert((a + b)[i] == a[i]);
        } else {
            assert((a + b)[i] == b[i - a.len()]);
        }
    };
}

/// Replaces the value of the first entry keyed `key`, or adds a new entry
/// `(key, value)` at the end when none has it.
pub open spec fn upsert_replace<K, V>(entries: Seq<(K, V)>, key: K, value: V) -> Seq<(K, V)> {
    let i = first_match(entries, key);
    if i == -1 {
        entries.push((key, value))
    } else {
        entries.update(i, (key, value))
    }
}

} // verus!
