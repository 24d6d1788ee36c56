//! Pairs of named byte counters, and the change of each since its previous
//! reading.

use crate::text::str_eq;
use vstd::prelude::*;

verus! {

/// A pair of cumulative counters read for a named device.
#[derive(Debug, Clone)]
pub struct Counters {
    pub name: String,
    pub first: u64,
    pub second: u64,
}

/// The model of a reading: name and both counters.
pub type CountersModel = (Seq<char>, u64, u64);

pub open spec fn counters_view(s: Seq<Counters>) -> Seq<CountersModel> {
    s.map_values(|c: Counters| (c.name@, c.first, c.second))
}

pub open spec fn sat_sub(a: u64, b: u64) -> u64 {
    if a >= b {
        (a - b) as u64
    } else {
        0
    }
}

/// The last reading of each device.
pub struct CounterTable {
    entries: Vec<Counters>,
}

/// The counters recorded for `k`: those of its first entry.
pub open spec fn lookup(es: Seq<Counters>, k: Seq<char>) -> Option<(u64, u64)>
    decreases es.len(),
{
    if es.len() == 0 {
        None
    } else if es[0].name@ == k {
        Some((es[0].first, es[0].second))
    } else {
        lookup(es.drop_first(), k)
    }
}

proof fn lemma_lookup_first(es: Seq<Counters>, i: int, k: Seq<char>)
    requires
        0 <= i < es.len(),
        forall|j: int| 0 <= j < i ==> #[trigger] es[j].name@ != k,
        es[i].name@ == k,
    ensures
        lookup(es, k) == Some((es[i].first, es[i].second)),
    decreases i,
{
    if i > 0 {
        assert forall|j: int| 0 <= j < i - 1 implies #[trigger] es.drop_first()[j].name@ != k by {
            assert(es.drop_first()[j] == es[j + 1]);
        }
        lemma_lookup_first(es.drop_first(), i - 1, k);
    }
}

proof fn lemma_lookup_absent(es: Seq<Counters>, k: Seq<char>)
    requires
        forall|j: int| 0 <= j < es.len() ==> #[trigger] es[j].name@ != k,
    ensures
        lookup(es, k) is None,
    decreases es.len(),
{
    if es.len() > 0 {
        assert forall|j: int| 0 <= j < es.len() - 1 implies #[trigger] es.drop_first()[j].name@ != k by {
            assert(es.drop_first()[j] == es[j + 1]);
        }
        lemma_lookup_absent(es.drop_first(), k);
    }
}

proof fn lemma_lookup_update(es: Seq<Counters>, i: int, e: Counters, k: Seq<char>)
    requires
        0 <= i < es.len(),
        es[i].name@ == e.name@,
        k != e.name@,
    ensures
        lookup(es.update(i, e), k) == lookup(es, k),
    decreases i,
{
    if i > 0 {
        assert(es.update(i, e).drop_first() =~= es.drop_first().update(i - 1, e));
        lemma_lookup_update(es.drop_first(), i - 1, e, k);
    } else {
        assert(es.update(i, e).drop_first() =~= es.drop_first());
    }
}

proof fn lemma_lookup_push(es: Seq<Counters>, e: Counters, k: Seq<char>)
    ensures
        lookup(es.push(e), k) == match lookup(es, k) {
            Some(v) => Some(v),
            None => if e.name@ == k {
                Some((e.first, e.second))
            } else {
                None
            },
        },
    decreases es.len(),
{
    let p = es.push(e);
    if es.len() > 0 {
        assert(p[0] == es[0]);
        assert(p.drop_first() =~= es.drop_first().push(e));
        lemma_lookup_push(es.drop_first(), e, k);
        if es[0].name@ == k {
            assert(lookup(p, k) == Some((es[0].first, es[0].second)));
        } else {
            assert(lookup(p, k) == lookup(p.drop_first(), k));
            assert(lookup(es, k) == lookup(es.drop_first(), k));
        }
    } else {
        assert(es.push(e)[0] == e);
        assert(es.push(e).drop_first() =~= Seq::<Counters>::empty());
    }
}

impl View for CounterTable {
    type V = Map<Seq<char>, (u64, u64)>;

    closed spec fn view(&self) -> Map<Seq<char>, (u64, u64)> {
        Map::new(
            |k: Seq<char>| lookup(self.entries@, k) is Some,
            |k: Seq<char>| lookup(self.entries@, k).unwrap(),
        )
    }
}

impl CounterTable {
    /// A table with no readings.
    pub fn new() -> (t: CounterTable)
        ensures
            t@ == Map::<Seq<char>, (u64, u64)>::empty(),
    {
        let t = CounterTable { entries: Vec::new() };
        assert(t@ =~= Map::<Seq<char>, (u64, u64)>::empty());
        t
    }

    /// Record a reading of `name`; the change since its previous reading
    /// (never below zero), or `None` on its first reading.
    pub fn observe(&mut self, name: &str, first: u64, second: u64) -> (d: Option<(u64, u64)>)
        ensures
            final(self)@ == old(self)@.insert(name@, (first, second)),
            d == match old(self)@.get(name@) {
                Some(p) => Some((sat_sub(first, p.0), sat_sub(second, p.1))),
                None => None::<(u64, u64)>,
            },
    {
        let n = self.entries.len();
        let mut i: usize = 0;
        while i < n
            invariant
                n == self.entries@.len(),
                i <= n,
                self.entries@ == old(self).entries@,
                forall|j: int| 0 <= j < i ==> #[trigger] self.entries@[j].name@ != name@,
            decreases n - i,
        {
            if str_eq(self.entries[i].name.as_str(), name) {
                let prev_first = self.entries[i].first;
                let prev_second = self.entries[i].second;
                let ghost old_entries = self.entries@;
                proof {
                    lemma_lookup_first(old_entries, i as int, name@);
                    assert(old(self)@.contains_key(name@));
                    assert(old(self)@[name@] == (prev_first, prev_second));
                }
                let entry = Counters { name: name.to_owned(), first, second };
                self.entries.set(i, entry);
                proof {
                    assert forall|j: int| 0 <= j < i implies #[trigger] self.entries@[j].name@ != name@ by {
                        assert(self.entries@[j] == old_entries[j]);
                    }
                    lemma_lookup_first(self.entries@, i as int, name@);
                    assert forall|k: Seq<char>| k != name@ implies lookup(self.entries@, k) == lookup(
                        old_entries,
                        k,
                    ) by {
                        lemma_lookup_update(old_entries, i as int, entry, k);
                    }
                    assert forall|k: Seq<char>| #[trigger] self@.contains_key(k) == old(self)@.insert(
                        name@,
                        (first, second),
                    ).contains_key(k) by {}
                    assert forall|k: Seq<char>| #[trigger] self@.contains_key(k) implies self@[k]
                        == old(self)@.insert(name@, (first, second))[k] by {}
                    assert(self@ =~= old(self)@.insert(name@, (first, second)));
                }
                return Some((first.saturating_sub(prev_first), second.saturating_sub(prev_second)));
            }
            i = i + 1;
        }
        let ghost old_entries = self.entries@;
        proof {
            lemma_lookup_absent(old_entries, name@);
        }
        let entry = Counters { name: name.to_owned(), first, second };
        self.entries.push(entry);
        proof {
            assert forall|k: Seq<char>| #![auto] lookup(self.entries@, k) == match lookup(old_entries, k) {
                Some(v) => Some(v),
                None => if name@ == k {
                    Some((first, second))
                } else {
                    None
                },
            } by {
                lemma_lookup_push(old_entries, entry, k);
            }
            assert forall|k: Seq<char>| #[trigger] self@.contains_key(k) == old(self)@.insert(
                name@,
                (first, second),
            ).contains_key(k) by {
                lemma_lookup_push(old_entries, entry, k);
            }
            assert forall|k: Seq<char>| #[trigger] self@.contains_key(k) implies self@[k]
                == old(self)@.insert(name@, (first, second))[k] by {
                lemma_lookup_push(old_entries, entry, k);
            }
            assert(self@ =~= old(self)@.insert(name@, (first, second)));
            assert(!old(self)@.contains_key(name@));
        }
        None
    }
}

} // verus!
