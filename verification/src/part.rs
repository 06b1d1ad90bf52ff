//! The request or response half of an interaction: body, headers, matching
//! rules and generators, with the mutators the content resolver uses.

use vstd::prelude::*;

use crate::assoc::{first_match, has_entry, lemma_first_match, lemma_seq_deep_concat, seq_deep,
    upsert_append};
use crate::body::{BodyModel, BodyValue};
use crate::strutil::str_eq;

verus! {

/// One half (request or response) of an interaction.
#[derive(Clone, Debug)]
pub struct HttpPart {
    pub body: BodyValue,
    pub headers: Vec<(String, Vec<String>)>,
    pub matching_rules: Vec<(String, Vec<(String, String)>)>,
    pub generators: Vec<(String, Vec<(String, String)>)>,
}

/// Mathematical model of an `HttpPart`. Rules and generators are kept as
/// entry lists per category; the resolver merges into the `body` category.
pub struct PartModel {
    pub body: BodyModel,
    pub headers: Seq<(Seq<char>, Seq<Seq<char>>)>,
    pub matching_rules: Seq<(Seq<char>, Seq<(Seq<char>, Seq<char>)>)>,
    pub generators: Seq<(Seq<char>, Seq<(Seq<char>, Seq<char>)>)>,
}

impl View for HttpPart {
    type V = PartModel;

    open spec fn view(&self) -> PartModel {
        PartModel {
            body: self.body@,
            headers: self.headers.deep_view(),
            matching_rules: self.matching_rules.deep_view(),
            generators: self.generators.deep_view(),
        }
    }
}

impl HttpPart {
    /// The model of a freshly created part.
    pub open spec fn new_model() -> PartModel {
        PartModel {
            body: BodyModel::Missing,
            headers: Seq::<(Seq<char>, Seq<Seq<char>>)>::empty(),
            matching_rules: Seq::<(Seq<char>, Seq<(Seq<char>, Seq<char>)>)>::empty(),
            generators: Seq::<(Seq<char>, Seq<(Seq<char>, Seq<char>)>)>::empty(),
        }
    }

    /// A part with no body and no annotations.
    pub fn new() -> (r: HttpPart)
        ensures
            r@ == Self::new_model(),
    {
        let r = HttpPart {
            body: BodyValue::Missing,
            headers: Vec::new(),
            matching_rules: Vec::new(),
            generators: Vec::new(),
        };
        proof {
            assert(r@.headers =~= Seq::<(Seq<char>, Seq<Seq<char>>)>::empty());
            assert(r@.matching_rules =~= Seq::<(Seq<char>, Seq<(Seq<char>, Seq<char>)>)>::empty());
            assert(r@.generators =~= Seq::<(Seq<char>, Seq<(Seq<char>, Seq<char>)>)>::empty());
        }
        r
    }

    /// Replaces the body.
    pub fn set_body(&mut self, body: BodyValue)
        ensures
            final(self)@ == (PartModel { body: body@, ..old(self)@ }),
    {
        self.body = body;
    }

    /// Whether a header with exactly this name is present.
    pub fn has_header(&self, name: &str) -> (r: bool)
        ensures
            r == has_entry(self@.headers, name@),
    {
        let ghost model = self@.headers;
        let n = self.headers.len();
        let mut i: usize = 0;
        while i < n
            invariant
                i <= n,
                n == self.headers.len(),
                model == self@.headers,
                forall|k: int| 0 <= k < i ==> (#[trigger] model[k]).0 != name@,
            decreases n - i,
        {
            let hit = str_eq(self.headers[i].0.as_str(), name);
            proof {
                assert(model[i as int] == self.headers@[i as int].deep_view());
            }
            if hit {
                proof {
                    lemma_first_match(model, name@);
                }
                return true;
            }
            i += 1;
        }
        proof {
            lemma_first_match(model, name@);
        }
        false
    }

    /// Adds a header entry at the end.
    pub fn add_header(&mut self, name: &str, values: Vec<String>)
        ensures
            final(self)@ == (PartModel {
                headers: old(self)@.headers.push((name@, values.deep_view())),
                ..old(self)@
            }),
    {
        let ghost values_model = values.deep_view();
        self.headers.push((name.to_owned(), values));
        proof {
            assert(self@.headers =~= old(self)@.headers.push((name@, values_model)));
        }
    }

    /// Merges matching rules additively into the given category.
    pub fn add_rules(&mut self, category: &str, rules: Vec<(String, String)>)
        ensures
            final(self)@ == (PartModel {
                matching_rules: upsert_append(
                    old(self)@.matching_rules,
                    category@,
                    rules.deep_view(),
                ),
                ..old(self)@
            }),
    {
        let ghost model = self@.matching_rules;
        let ghost more = rules.deep_view();
        let ghost rulesv = rules@;
        let n = self.matching_rules.len();
        let mut i: usize = 0;
        while i < n
            invariant
                i <= n,
                n == self.matching_rules.len(),
                self == old(self),
                model == self@.matching_rules,
                rules@ == rulesv,
                rules.deep_view() == more,
                forall|k: int| 0 <= k < i ==> (#[trigger] model[k]).0 != category@,
            decreases n - i,
        {
            let hit = str_eq(self.matching_rules[i].0.as_str(), category);
            proof {
                assert(model[i as int] == self.matching_rules@[i as int].deep_view());
            }
            if hit {
                proof {
                    lemma_first_match(model, category@);
                    assert(first_match(model, category@) == i);
                }
                let mut tail = rules;
                let (key, mut merged) = self.matching_rules.remove(i);
                let ghost s1 = self.matching_rules@;
                proof {
                    assert(key == old(self).matching_rules@[i as int].0);
                    assert(merged == old(self).matching_rules@[i as int].1);
                    assert(tail@ == rulesv);
                }
                merged.append(&mut tail);
                proof {
                    assert(merged@ == old(self).matching_rules@[i as int].1@ + rulesv);
                }
                let pair = (key, merged);
                let ghost newe = pair;
                self.matching_rules.insert(i, pair);
                proof {
                    let s0 = old(self).matching_rules@;
                    let olde = s0[i as int];
                    s0.remove_ensures(i as int);
                    s1.insert_ensures(i as int, newe);
                    lemma_seq_deep_concat::<(String, String)>(olde.1@, rulesv);
                    assert forall|j: int| 0 <= j < s0.update(i as int, newe).len() implies s1
                        .insert(i as int, newe)[j] == s0.update(i as int, newe)[j] by {
                        if j > i {
                            assert(s1.insert(i as int, newe)[j] == s1[j - 1]);
                            assert(s1[j - 1] == s0[j]);
                        }
                    };
                    assert(self.matching_rules@ =~= s0.update(i as int, newe));
                    assert(newe.1@ == olde.1@ + rulesv);
                    assert(newe.1.deep_view() =~= seq_deep(olde.1@ + rulesv));
                    assert(olde.1.deep_view() =~= seq_deep(olde.1@));
                    assert(more =~= seq_deep(rulesv));
                    assert(newe.deep_view() == (category@, model[i as int].1 + more));
                    assert(self@.matching_rules =~= upsert_append(model, category@, more));
                }
                return ;
            }
            i += 1;
        }
        proof {
            lemma_first_match(model, category@);
        }
        self.matching_rules.push((category.to_owned(), rules));
        proof {
            let newe = self.matching_rules@[n as int];
            assert(newe.deep_view() == (category@, more));
            assert(self@.matching_rules =~= upsert_append(model, category@, more));
        }
    }

    /// Merges generators additively into the given category.
    pub fn add_generators(&mut self, category: &str, generators: Vec<(String, String)>)
        ensures
            final(self)@ == (PartModel {
                generators: upsert_append(
                    old(self)@.generators,
                    category@,
                    generators.deep_view(),
                ),
                ..old(self)@
            }),
    {
        let ghost model = self@.generators;
        let ghost more = generators.deep_view();
        let ghost gensv = generators@;
        let n = self.generators.len();
        let mut i: usize = 0;
        while i < n
            invariant
                i <= n,
                n == self.generators.len(),
                self == old(self),
                model == self@.generators,
                generators@ == gensv,
                generators.deep_view() == more,
                forall|k: int| 0 <= k < i ==> (#[trigger] model[k]).0 != category@,
            decreases n - i,
        {
            let hit = str_eq(self.generators[i].0.as_str(), category);
            proof {
                assert(model[i as int] == self.generators@[i as int].deep_view());
            }
            if hit {
                proof {
                    lemma_first_match(model, category@);
                    assert(first_match(model, category@) == i);
                }
                let mut tail = generators;
                let (key, mut merged) = self.generators.remove(i);
                let ghost s1 = self.generators@;
                proof {
                    assert(key == old(self).generators@[i as int].0);
                    assert(merged == old(self).generators@[i as int].1);
                    assert(tail@ == gensv);
                }
                merged.append(&mut tail);
                proof {
                    assert(merged@ == old(self).generators@[i as int].1@ + gensv);
                }
                let pair = (key, merged);
                let ghost newe = pair;
                self.generators.insert(i, pair);
                proof {
                    let s0 = old(self).generators@;
                    let olde = s0[i as int];
                    s0.remove_ensures(i as int);
                    s1.insert_ensures(i as int, newe);
                    lemma_seq_deep_concat::<(String, String)>(olde.1@, gensv);
                    assert forall|j: int| 0 <= j < s0.update(i as int, newe).len() implies s1
                        .insert(i as int, newe)[j] == s0.update(i as int, newe)[j] by {
                        if j > i {
                            assert(s1.insert(i as int, newe)[j] == s1[j - 1]);
                            assert(s1[j - 1] == s0[j]);
                        }
                    };
                    assert(self.generators@ =~= s0.update(i as int, newe));
                    assert(newe.1@ == olde.1@ + gensv);
                    assert(newe.1.deep_view() =~= seq_deep(olde.1@ + gensv));
                    assert(olde.1.deep_view() =~= seq_deep(olde.1@));
                    assert(more =~= seq_deep(gensv));
                    assert(newe.deep_view() == (category@, model[i as int].1 + more));
                    assert(self@.generators =~= upsert_append(model, category@, more));
                }
                return ;
            }
            i += 1;
        }
        proof {
            lemma_first_match(model, category@);
        }
        self.generators.push((category.to_owned(), generators));
        proof {
            let newe = self.generators@[n as int];
            assert(newe.deep_view() == (category@, more));
            assert(self@.generators =~= upsert_append(model, category@, more));
        }
    }
}

} // verus!
