//! A dictionary from string keys to values, kept as a vector of entries in
//! strictly increasing key order.

use crate::key_order::{
    compare_keys, key_precedes, lemma_precedes_asymmetric, lemma_precedes_transitive, KeyOrder,
};
use vstd::prelude::*;
use vstd::utf8::*;

verus! {

/// A finite map from string keys to values of type `V`.
#[derive(Debug, PartialEq)]
pub struct Dictionary<V> {
    entries: Vec<(String, V)>,
}

/// The entry at `i` of `s` has the key `k`.
pub open spec fn keyed_at<T>(s: Seq<(Seq<char>, T)>, k: Seq<char>, i: int) -> bool {
    0 <= i < s.len() && s[i].0 == k
}

/// The map that a list of entries with distinct keys stands for.
pub open spec fn assoc_map<T>(s: Seq<(Seq<char>, T)>) -> Map<Seq<char>, T> {
    Map::new(
        |k: Seq<char>| exists|i: int| keyed_at(s, k, i),
        |k: Seq<char>| s[choose|i: int| keyed_at(s, k, i)].1,
    )
}

/// No key occurs twice in `s`.
pub open spec fn distinct_keys<T>(s: Seq<(Seq<char>, T)>) -> bool {
    forall|i: int, j: int| 0 <= i < s.len() && 0 <= j < s.len() && i != j ==> s[i].0 != s[j].0
}

/// The keys of `s` are in strictly increasing order.
pub open spec fn increasing_keys<T>(s: Seq<(Seq<char>, T)>) -> bool {
    forall|i: int, j: int| 0 <= i < j < s.len() ==> key_precedes(#[trigger] s[i].0, #[trigger] s[j].0)
}

/// Keys in strictly increasing order are distinct.
pub proof fn lemma_increasing_is_distinct<T>(s: Seq<(Seq<char>, T)>)
    requires
        increasing_keys(s),
    ensures
        distinct_keys(s),
{
    assert forall|i: int, j: int| 0 <= i < s.len() && 0 <= j < s.len() && i != j implies s[i].0
        != s[j].0 by {
        if i < j {
            lemma_precedes_asymmetric(encode_utf8(s[i].0), encode_utf8(s[j].0));
        } else {
            lemma_precedes_asymmetric(encode_utf8(s[j].0), encode_utf8(s[i].0));
        }
    }
}

/// With distinct keys, the map holds each entry of the list, and no key
/// besides theirs.
pub proof fn lemma_assoc_map_entries<T>(s: Seq<(Seq<char>, T)>)
    requires
        distinct_keys(s),
    ensures
        forall|i: int|
            0 <= i < s.len() ==> assoc_map(s).dom().contains(#[trigger] s[i].0) && assoc_map(
                s,
            )[s[i].0] == s[i].1,
        forall|k: Seq<char>|
            assoc_map(s).dom().contains(k) ==> exists|i: int| #[trigger] keyed_at(s, k, i),
{
    assert forall|i: int| 0 <= i < s.len() implies assoc_map(s).dom().contains(#[trigger] s[i].0)
        && assoc_map(s)[s[i].0] == s[i].1 by {
        assert(keyed_at(s, s[i].0, i));
    }
}

/// Putting a new key into a list, at any place, inserts it into the map.
pub proof fn lemma_assoc_map_insert<T>(s: Seq<(Seq<char>, T)>, at: int, k: Seq<char>, v: T)
    requires
        0 <= at <= s.len(),
        distinct_keys(s),
        forall|i: int| 0 <= i < s.len() ==> (#[trigger] s[i]).0 != k,
    ensures
        distinct_keys(s.insert(at, (k, v))),
        assoc_map(s.insert(at, (k, v))) == assoc_map(s).insert(k, v),
{
    let t = s.insert(at, (k, v));
    assert(distinct_keys(t));
    lemma_assoc_map_entries(s);
    lemma_assoc_map_entries(t);
    assert forall|q: Seq<char>| assoc_map(s).insert(k, v).dom().contains(q) implies assoc_map(
        t,
    ).dom().contains(q) by {
        if q == k {
            assert(keyed_at(t, q, at));
        } else {
            let i = choose|i: int| keyed_at(s, q, i);
            if i < at {
                assert(keyed_at(t, q, i));
            } else {
                assert(keyed_at(t, q, i + 1));
            }
        }
    }
    assert(assoc_map(t) =~= assoc_map(s).insert(k, v));
}

/// Replacing the value of an entry replaces it in the map.
pub proof fn lemma_assoc_map_update<T>(s: Seq<(Seq<char>, T)>, at: int, v: T)
    requires
        0 <= at < s.len(),
        distinct_keys(s),
    ensures
        distinct_keys(s.update(at, (s[at].0, v))),
        assoc_map(s.update(at, (s[at].0, v))) == assoc_map(s).insert(s[at].0, v),
{
    let k = s[at].0;
    let t = s.update(at, (k, v));
    assert(distinct_keys(t));
    lemma_assoc_map_entries(s);
    lemma_assoc_map_entries(t);
    assert forall|q: Seq<char>| assoc_map(s).dom().contains(q) implies assoc_map(
        t,
    ).dom().contains(q) by {
        let i = choose|i: int| keyed_at(s, q, i);
        assert(keyed_at(t, q, i));
    }
    assert(assoc_map(t) =~= assoc_map(s).insert(k, v));
}

/// Where a second list has the keys of a first, and for each value of the
/// first what `f` makes of it, its map is the map of the first with `f`
/// applied to every value.
pub proof fn lemma_assoc_map_related<T, U>(
    a: Seq<(Seq<char>, T)>,
    b: Seq<(Seq<char>, U)>,
    f: spec_fn(T) -> U,
)
    requires
        distinct_keys(a),
        a.len() == b.len(),
        forall|j: int| 0 <= j < a.len() ==> (#[trigger] b[j]).0 == a[j].0 && b[j].1 == f(a[j].1),
    ensures
        distinct_keys(b),
        assoc_map(b) == assoc_map(a).map_values(f),
{
    assert(distinct_keys(b));
    lemma_assoc_map_entries(a);
    lemma_assoc_map_entries(b);
    assert forall|k: Seq<char>| assoc_map(a).dom().contains(k) implies assoc_map(
        b,
    ).dom().contains(k) by {
        let j = choose|j: int| keyed_at(a, k, j);
        assert(keyed_at(b, k, j));
    }
    assert(assoc_map(b) =~= assoc_map(a).map_values(f));
}

/// The entries of a vector, each key taken by its view.
pub open spec fn listing_of<V>(entries: Seq<(String, V)>) -> Seq<(Seq<char>, V)> {
    entries.map_values(|e: (String, V)| (e.0@, e.1))
}

/// Where `key` belongs in `entries`: the index of the entry that holds it,
/// with `true`, or else the index of the first entry that comes after it,
/// with `false`.
fn locate<V>(entries: &Vec<(String, V)>, key: &str) -> (r: (usize, bool))
    requires
        increasing_keys(listing_of(entries@)),
    ensures
        r.0 <= entries@.len(),
        forall|j: int| 0 <= j < r.0 ==> key_precedes(#[trigger] entries@[j].0@, key@),
        r.1 ==> r.0 < entries@.len() && entries@[r.0 as int].0@ == key@,
        !r.1 ==> forall|j: int|
            r.0 <= j < entries@.len() ==> key_precedes(key@, #[trigger] entries@[j].0@),
{
    let ghost listing = listing_of(entries@);
    let mut i: usize = 0;
    while i < entries.len()
        invariant
            i <= entries@.len(),
            listing == listing_of(entries@),
            increasing_keys(listing),
            forall|j: int| 0 <= j < i ==> key_precedes(#[trigger] entries@[j].0@, key@),
        decreases entries@.len() - i,
    {
        match compare_keys(key, entries[i].0.as_str()) {
            KeyOrder::After => {
                i += 1;
            },
            KeyOrder::Same => {
                return (i, true);
            },
            KeyOrder::Before => {
                assert forall|j: int| i <= j < entries@.len() implies key_precedes(
                    key@,
                    #[trigger] entries@[j].0@,
                ) by {
                    if i < j {
                        assert(key_precedes(listing[i as int].0, listing[j].0));
                        lemma_precedes_transitive(
                            encode_utf8(key@),
                            encode_utf8(entries@[i as int].0@),
                            encode_utf8(entries@[j].0@),
                        );
                    }
                }
                return (i, false);
            },
        }
    }
    (i, false)
}

impl<V> Dictionary<V> {
    /// The entries in key order, each key taken by its view.
    pub closed spec fn listing(&self) -> Seq<(Seq<char>, V)> {
        listing_of(self.entries@)
    }

    /// The map that the dictionary stands for.
    pub closed spec fn map(&self) -> Map<Seq<char>, V> {
        assoc_map(self.listing())
    }

    #[verifier::type_invariant]
    spec fn ordered(&self) -> bool {
        increasing_keys(listing_of(self.entries@))
    }

    /// The map is the one that the listing stands for.
    pub proof fn lemma_map_of_listing(&self)
        ensures
            self.map() == assoc_map(self.listing()),
    {
    }

    /// The empty dictionary.
    pub fn new() -> (r: Self)
        ensures
            r.listing() == Seq::<(Seq<char>, V)>::empty(),
            r.map() == Map::<Seq<char>, V>::empty(),
    {
        let r = Dictionary { entries: Vec::new() };
        r
    }

    /// The number of entries. The listing is in strictly increasing key
    /// order, so that no key occurs twice in it.
    pub fn len(&self) -> (r: usize)
        ensures
            r == self.listing().len(),
            increasing_keys(self.listing()),
            distinct_keys(self.listing()),
    {
        proof {
            use_type_invariant(self);
            lemma_increasing_is_distinct(self.listing());
        }
        self.entries.len()
    }

    /// The key of the entry at `index` of the listing.
    pub fn key_at(&self, index: usize) -> (r: &str)
        requires
            index < self.listing().len(),
        ensures
            r@ == self.listing()[index as int].0,
    {
        self.entries[index].0.as_str()
    }

    /// The value of the entry at `index` of the listing.
    pub fn value_at(&self, index: usize) -> (r: &V)
        requires
            index < self.listing().len(),
        ensures
            *r == self.listing()[index as int].1,
    {
        &self.entries[index].1
    }

    /// The value stored under `key`, if there is one.
    pub fn get(&self, key: &str) -> (r: Option<&V>)
        ensures
            match r {
                Some(v) => self.map().dom().contains(key@) && *v == self.map()[key@],
                None => !self.map().dom().contains(key@),
            },
    {
        proof {
            use_type_invariant(self);
            lemma_increasing_is_distinct(self.listing());
            lemma_assoc_map_entries(self.listing());
        }
        let (i, found) = locate(&self.entries, key);
        if found {
            assert(self.listing()[i as int].0 == key@);
            Some(&self.entries[i].1)
        } else {
            proof {
                if self.map().dom().contains(key@) {
                    let j = choose|j: int| keyed_at(self.listing(), key@, j);
                    if j < i {
                        lemma_precedes_asymmetric(
                            encode_utf8(self.entries@[j].0@),
                            encode_utf8(key@),
                        );
                    } else {
                        lemma_precedes_asymmetric(
                            encode_utf8(key@),
                            encode_utf8(self.entries@[j].0@),
                        );
                    }
                }
            }
            None
        }
    }

    /// Stores `value` under `key`, in place of any value that was there.
    pub fn insert(&mut self, key: String, value: V)
        ensures
            final(self).map() == old(self).map().insert(key@, value),
    {
        proof {
            use_type_invariant(&*self);
            lemma_increasing_is_distinct(self.listing());
        }
        let ghost before = self.listing();
        let mut entries: Vec<(String, V)> = Vec::new();
        std::mem::swap(&mut entries, &mut self.entries);
        let (i, found) = locate(&entries, key.as_str());
        if found {
            proof {
                lemma_assoc_map_update(before, i as int, value);
            }
            entries[i] = (key, value);
            assert(listing_of(entries@) =~= before.update(i as int, (before[i as int].0, value)));
        } else {
            proof {
                assert forall|j: int| 0 <= j < before.len() implies (#[trigger] before[j]).0
                    != key@ by {
                    if j < i {
                        lemma_precedes_asymmetric(encode_utf8(before[j].0), encode_utf8(key@));
                    } else {
                        lemma_precedes_asymmetric(encode_utf8(key@), encode_utf8(before[j].0));
                    }
                }
                lemma_assoc_map_insert(before, i as int, key@, value);
            }
            entries.insert(i, (key, value));
            assert(listing_of(entries@) =~= before.insert(i as int, (key@, value)));
        }
        self.entries = entries;
    }
}

} // verus!
