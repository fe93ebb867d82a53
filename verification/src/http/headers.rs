//! A map from header names to header values, in which each name occurs once.
use crate::text::str_eq;
use vstd::prelude::*;

verus! {

/// The map that inserting `pairs` one after the other into an empty map gives:
/// a later value for a name replaces an earlier one.
pub open spec fn pairs_map(pairs: Seq<(Seq<char>, Seq<char>)>) -> Map<Seq<char>, Seq<char>>
    decreases pairs.len(),
{
    if pairs.len() == 0 {
        Map::empty()
    } else {
        pairs_map(pairs.drop_last()).insert(pairs.last().0, pairs.last().1)
    }
}

/// No name occurs twice among `pairs`.
pub open spec fn distinct_names(pairs: Seq<(Seq<char>, Seq<char>)>) -> bool {
    forall|i: int, j: int|
        0 <= i < pairs.len() && 0 <= j < pairs.len() && i != j ==> #[trigger] pairs[i].0
            != #[trigger] pairs[j].0
}

/// The names and values of `entries`, as sequences of characters.
pub open spec fn entry_views(entries: Seq<(String, String)>) -> Seq<(Seq<char>, Seq<char>)> {
    entries.map_values(|e: (String, String)| (e.0@, e.1@))
}

/// Header names mapped to their values; a name occurs at most once.
#[derive(Debug)]
pub struct HeaderMap {
    entries: Vec<(String, String)>,
}

impl HeaderMap {
    #[verifier::type_invariant]
    spec fn names_distinct(self) -> bool {
        distinct_names(entry_views(self.entries@))
    }

    /// The map that the entries stand for.
    pub closed spec fn as_map(&self) -> Map<Seq<char>, Seq<char>> {
        pairs_map(entry_views(self.entries@))
    }
}

impl View for HeaderMap {
    type V = Map<Seq<char>, Seq<char>>;

    open spec fn view(&self) -> Map<Seq<char>, Seq<char>> {
        self.as_map()
    }
}

/// Dropping the last pair keeps the names distinct.
proof fn lemma_distinct_drop_last(pairs: Seq<(Seq<char>, Seq<char>)>)
    requires
        distinct_names(pairs),
        pairs.len() > 0,
    ensures
        distinct_names(pairs.drop_last()),
{
    let rest = pairs.drop_last();
    assert forall|a: int, b: int|
        0 <= a < rest.len() && 0 <= b < rest.len() && a != b implies #[trigger] rest[a].0
        != #[trigger] rest[b].0 by {
        assert(rest[a] == pairs[a] && rest[b] == pairs[b]);
    }
}

/// With distinct names, every entry's name is in the map with that entry's value,
/// and the map holds no other name.
proof fn lemma_pairs_map_distinct(pairs: Seq<(Seq<char>, Seq<char>)>)
    requires
        distinct_names(pairs),
    ensures
        forall|i: int|
            0 <= i < pairs.len() ==> pairs_map(pairs).contains_key(#[trigger] pairs[i].0)
                && pairs_map(pairs)[pairs[i].0] == pairs[i].1,
        forall|k: Seq<char>|
            #[trigger] pairs_map(pairs).contains_key(k) ==> exists|i: int|
                0 <= i < pairs.len() && #[trigger] pairs[i] == (k, pairs_map(pairs)[k]),
    decreases pairs.len(),
{
    if pairs.len() > 0 {
        let rest = pairs.drop_last();
        let last = pairs.len() - 1;
        lemma_distinct_drop_last(pairs);
        lemma_pairs_map_distinct(rest);
        assert forall|i: int| 0 <= i < pairs.len() implies pairs_map(pairs).contains_key(
            #[trigger] pairs[i].0,
        ) && pairs_map(pairs)[pairs[i].0] == pairs[i].1 by {
            if i < last {
                assert(rest[i] == pairs[i]);
                assert(pairs[i].0 != pairs[last].0);
            }
        }
        assert forall|k: Seq<char>| #[trigger] pairs_map(pairs).contains_key(k) implies exists|i: int|
            0 <= i < pairs.len() && #[trigger] pairs[i] == (k, pairs_map(pairs)[k]) by {
            if k == pairs[last].0 {
                assert(pairs[last] == (k, pairs_map(pairs)[k]));
            } else {
                let i = choose|i: int| 0 <= i < rest.len() && #[trigger] rest[i] == (k, pairs_map(rest)[k]);
                assert(rest[i] == pairs[i]);
                assert(pairs[i] == (k, pairs_map(pairs)[k]));
            }
        }
    }
}

/// Replacing the value of the entry that holds a name is inserting it into the map.
proof fn lemma_pairs_map_update(pairs: Seq<(Seq<char>, Seq<char>)>, j: int, v: Seq<char>)
    requires
        distinct_names(pairs),
        0 <= j < pairs.len(),
    ensures
        pairs_map(pairs.update(j, (pairs[j].0, v))) == pairs_map(pairs).insert(pairs[j].0, v),
    decreases pairs.len(),
{
    let k = pairs[j].0;
    let updated = pairs.update(j, (k, v));
    let last = pairs.len() - 1;
    if j == last {
        assert(updated.drop_last() =~= pairs.drop_last());
        assert(pairs_map(updated) =~= pairs_map(pairs).insert(k, v));
    } else {
        let rest = pairs.drop_last();
        lemma_distinct_drop_last(pairs);
        assert(rest[j] == pairs[j]);
        lemma_pairs_map_update(rest, j, v);
        assert(updated.drop_last() =~= rest.update(j, (k, v)));
        assert(updated.last() == pairs.last());
        assert(pairs.last().0 != k);
        assert(pairs_map(updated) =~= pairs_map(pairs).insert(k, v));
    }
}

impl HeaderMap {
    /// Inserts `pairs` in order into an empty map, as collecting them into a
    /// `HashMap` does: a later value for a name replaces an earlier one.
    pub fn collect(pairs: Vec<(String, String)>) -> (map: HeaderMap)
        ensures
            map@ == pairs_map(entry_views(pairs@)),
    {
        let mut entries: Vec<(String, String)> = Vec::new();
        let n = pairs.len();
        let mut i: usize = 0;
        while i < n
            invariant
                0 <= i <= n,
                n == pairs@.len(),
                distinct_names(entry_views(entries@)),
                pairs_map(entry_views(entries@)) == pairs_map(entry_views(pairs@).subrange(0, i as int)),
            decreases n - i,
        {
            let name = pairs[i].0.clone();
            let value = pairs[i].1.clone();
            let ghost before = entry_views(entries@);
            let found = find_name(&entries, name.as_str());
            proof {
                let p = entry_views(pairs@).subrange(0, i + 1);
                assert(p.drop_last() =~= entry_views(pairs@).subrange(0, i as int));
                assert(p.last() == (name@, value@));
            }
            if let Some(j) = found {
                entries.set(j, (name, value));
                proof {
                    assert(entry_views(entries@) =~= before.update(j as int, (name@, value@)));
                    lemma_pairs_map_update(before, j as int, value@);
                    assert(distinct_names(entry_views(entries@))) by {
                        assert forall|a: int, b: int|
                            0 <= a < entries@.len() && 0 <= b < entries@.len() && a != b implies
                            #[trigger] entry_views(entries@)[a].0 != #[trigger] entry_views(
                                entries@,
                            )[b].0 by {
                            assert(entry_views(entries@)[a].0 == before[a].0);
                            assert(entry_views(entries@)[b].0 == before[b].0);
                        }
                    }
                }
            } else {
                entries.push((name, value));
                proof {
                    assert(entry_views(entries@) =~= before.push((name@, value@)));
                    assert(entry_views(entries@).drop_last() =~= before);
                    assert(distinct_names(entry_views(entries@))) by {
                        assert forall|a: int, b: int|
                            0 <= a < entries@.len() && 0 <= b < entries@.len() && a != b implies
                            #[trigger] entry_views(entries@)[a].0 != #[trigger] entry_views(
                                entries@,
                            )[b].0 by {
                            if a < before.len() && b < before.len() {
                                assert(entry_views(entries@)[a] == before[a]);
                                assert(entry_views(entries@)[b] == before[b]);
                            } else if a < before.len() {
                                assert(entry_views(entries@)[a] == before[a]);
                            } else {
                                assert(entry_views(entries@)[b] == before[b]);
                            }
                        }
                    }
                }
            }
            i = i + 1;
        }
        assert(entry_views(pairs@).subrange(0, n as int) =~= entry_views(pairs@));
        HeaderMap { entries }
    }

    /// The value stored for `name`, if any. Names are compared exactly.
    pub fn get(&self, name: &str) -> (value: Option<&String>)
        ensures
            match value {
                Some(v) => self@.contains_key(name@) && self@[name@] == v@,
                None => !self@.contains_key(name@),
            },
    {
        proof {
            use_type_invariant(self);
            lemma_pairs_map_distinct(entry_views(self.entries@));
        }
        match find_name(&self.entries, name) {
            Some(j) => {
                assert(entry_views(self.entries@)[j as int].0 == name@);
                Some(&self.entries[j].1)
            },
            None => {
                proof {
                    if self@.contains_key(name@) {
                        let i = choose|i: int|
                            0 <= i < entry_views(self.entries@).len() && #[trigger] entry_views(
                                self.entries@,
                            )[i] == (name@, self@[name@]);
                        assert(entry_views(self.entries@)[i].0 == name@);
                    }
                }
                None
            },
        }
    }

    /// The number of names in the map.
    pub fn len(&self) -> (n: usize)
        ensures
            n == self@.dom().len(),
    {
        proof {
            use_type_invariant(self);
            lemma_pairs_map_len(entry_views(self.entries@));
        }
        self.entries.len()
    }
}

/// The index of the entry named `name`, if any.
fn find_name(entries: &Vec<(String, String)>, name: &str) -> (r: Option<usize>)
    ensures
        match r {
            Some(j) => j < entries@.len() && entry_views(entries@)[j as int].0 == name@,
            None => forall|t: int| 0 <= t < entries@.len() ==> #[trigger] entry_views(entries@)[t].0 != name@,
        },
{
    let mut j: usize = 0;
    while j < entries.len()
        invariant
            0 <= j <= entries@.len(),
            forall|t: int| 0 <= t < j ==> #[trigger] entry_views(entries@)[t].0 != name@,
        decreases entries@.len() - j,
    {
        if str_eq(entries[j].0.as_str(), name) {
            return Some(j);
        }
        j = j + 1;
    }
    None
}

/// With distinct names, the map has one name per entry.
proof fn lemma_pairs_map_len(pairs: Seq<(Seq<char>, Seq<char>)>)
    requires
        distinct_names(pairs),
    ensures
        pairs_map(pairs).dom().len() == pairs.len(),
        pairs_map(pairs).dom().finite(),
    decreases pairs.len(),
{
    if pairs.len() > 0 {
        let rest = pairs.drop_last();
        lemma_distinct_drop_last(pairs);
        lemma_pairs_map_len(rest);
        lemma_pairs_map_distinct(rest);
        let k = pairs.last().0;
        assert(!pairs_map(rest).contains_key(k)) by {
            if pairs_map(rest).contains_key(k) {
                let i = choose|i: int| 0 <= i < rest.len() && #[trigger] rest[i] == (k, pairs_map(rest)[k]);
                assert(rest[i] == pairs[i]);
                assert(pairs[i].0 == pairs[pairs.len() - 1].0);
            }
        }
    }
}

} // verus!
