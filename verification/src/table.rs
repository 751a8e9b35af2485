//! A small map from plain keys to values, kept as a list without repeated keys.
use crate::id::NodeId;
use crate::net::{IpAddr, SocketAddr};
use crate::rendezvous::Tag;
use crate::text::same_text;
use vstd::prelude::*;
use vstd::string::*;

verus! {

/// A plain value that can be compared.
pub trait Key: Copy {
    /// Whether two keys are the same.
    fn same(&self, other: &Self) -> (r: bool)
        ensures
            r == (*self == *other),
    ;
}

impl Key for u64 {
    fn same(&self, other: &Self) -> (r: bool) {
        *self == *other
    }
}

impl Key for NodeId {
    fn same(&self, other: &Self) -> (r: bool) {
        NodeId::same(self, other)
    }
}

impl Key for Tag {
    fn same(&self, other: &Self) -> (r: bool) {
        Tag::same(self, other)
    }
}

impl Key for IpAddr {
    fn same(&self, other: &Self) -> (r: bool) {
        IpAddr::same(self, other)
    }
}

impl Key for SocketAddr {
    fn same(&self, other: &Self) -> (r: bool) {
        SocketAddr::same(self, other)
    }
}

/// A map kept as a list of pairs.
#[derive(Clone)]
pub struct Table<K, V> {
    entries: Vec<(K, V)>,
}

/// Whether some pair has this key.
pub open spec fn has_key<K, V>(pairs: Seq<(K, V)>, key: K) -> bool {
    exists|i: int| 0 <= i < pairs.len() && (#[trigger] pairs[i]).0 == key
}

/// The place of a key.
pub open spec fn place<K, V>(pairs: Seq<(K, V)>, key: K) -> int {
    choose|i: int| 0 <= i < pairs.len() && (#[trigger] pairs[i]).0 == key
}

/// No key occurs twice.
pub open spec fn keys_distinct<K, V>(pairs: Seq<(K, V)>) -> bool {
    forall|i: int, j: int|
        0 <= i < j < pairs.len() ==> (#[trigger] pairs[i]).0 != (#[trigger] pairs[j]).0
}

/// The map that a list of pairs stands for.
pub open spec fn pairs_map<K, V>(pairs: Seq<(K, V)>) -> Map<K, V> {
    Map::new(|key: K| has_key(pairs, key), |key: K| pairs[place(pairs, key)].1)
}

/// Each pair of a list without repeated keys is in its map.
pub proof fn lemma_pair_in_map<K, V>(pairs: Seq<(K, V)>, i: int)
    requires
        keys_distinct(pairs),
        0 <= i < pairs.len(),
    ensures
        pairs_map(pairs).contains_key(pairs[i].0),
        pairs_map(pairs)[pairs[i].0] == pairs[i].1,
{
    let at = place(pairs, pairs[i].0);
    assert(has_key(pairs, pairs[i].0));
    assert(pairs[at].0 == pairs[i].0);
    if at < i {
        assert(pairs[at].0 != pairs[i].0);
    } else if i < at {
        assert(pairs[i].0 != pairs[at].0);
    }
}

/// A list without repeated keys has as many pairs as its map has keys.
pub proof fn lemma_map_len<K, V>(pairs: Seq<(K, V)>)
    requires
        keys_distinct(pairs),
    ensures
        pairs_map(pairs).dom().finite(),
        pairs_map(pairs).dom().len() == pairs.len(),
    decreases pairs.len(),
{
    if pairs.len() == 0 {
        assert(pairs_map(pairs).dom() =~= Set::empty());
    } else {
        let rest = pairs.drop_last();
        lemma_map_len(rest);
        let key = pairs.last().0;
        assert(!has_key(rest, key)) by {
            if has_key(rest, key) {
                let i = place(rest, key);
                assert(pairs[i].0 == key);
                assert(pairs[pairs.len() - 1].0 == key);
            }
        }
        assert(pairs_map(pairs).dom() =~= pairs_map(rest).dom().insert(key)) by {
            assert forall|k: K| has_key(pairs, k) == (has_key(rest, k) || k == key) by {
                if has_key(pairs, k) {
                    let i = place(pairs, k);
                    if i < pairs.len() - 1 {
                        assert(rest[i].0 == k);
                    }
                }
                if has_key(rest, k) {
                    let i = place(rest, k);
                    assert(pairs[i].0 == k);
                }
                if k == key {
                    assert(pairs[pairs.len() - 1].0 == k);
                }
            }
        }
    }
}

impl<K: Key, V> Table<K, V> {
    /// The pairs, in the order of their arrival.
    pub closed spec fn pairs(self) -> Seq<(K, V)> {
        self.entries@
    }

    /// The map this table stands for.
    pub open spec fn map(self) -> Map<K, V> {
        pairs_map(self.pairs())
    }

    /// No key occurs twice.
    pub open spec fn well_formed(self) -> bool {
        keys_distinct(self.pairs())
    }

    /// The empty table.
    pub fn new() -> (r: Self)
        ensures
            r.well_formed(),
            r.pairs() == Seq::<(K, V)>::empty(),
            r.map() == Map::<K, V>::empty(),
    {
        let r = Table { entries: Vec::new() };
        proof {
            assert(r.map() =~= Map::<K, V>::empty());
        }
        r
    }

    /// How many keys there are.
    pub fn len(&self) -> (r: usize)
        requires
            self.well_formed(),
        ensures
            r == self.pairs().len(),
            self.map().dom().finite(),
            r == self.map().dom().len(),
    {
        proof {
            lemma_map_len(self.pairs());
        }
        self.entries.len()
    }

    /// The pair at a position.
    pub fn at(&self, i: usize) -> (r: (&K, &V))
        requires
            i < self.pairs().len(),
        ensures
            *r.0 == self.pairs()[i as int].0,
            *r.1 == self.pairs()[i as int].1,
    {
        let pair = &self.entries[i];
        (&pair.0, &pair.1)
    }

    /// The position of a key.
    pub fn find(&self, key: &K) -> (r: Option<usize>)
        requires
            self.well_formed(),
        ensures
            match r {
                Some(i) => i < self.pairs().len() && self.pairs()[i as int].0 == *key
                    && self.map().contains_key(*key) && self.map()[*key]
                    == self.pairs()[i as int].1,
                None => !self.map().contains_key(*key),
            },
    {
        let mut i: usize = 0;
        while i < self.entries.len()
            invariant
                i <= self.entries.len(),
                self.well_formed(),
                forall|k: int| 0 <= k < i ==> (#[trigger] self.entries@[k]).0 != *key,
            decreases self.entries.len() - i,
        {
            if self.entries[i].0.same(key) {
                proof {
                    lemma_pair_in_map(self.pairs(), i as int);
                }
                return Some(i);
            }
            i += 1;
        }
        None
    }

    /// Whether a key is present.
    pub fn contains(&self, key: &K) -> (r: bool)
        requires
            self.well_formed(),
        ensures
            r == self.map().contains_key(*key),
    {
        self.find(key).is_some()
    }

    /// The value of a key.
    pub fn get(&self, key: &K) -> (r: Option<&V>)
        requires
            self.well_formed(),
        ensures
            match r {
                Some(value) => self.map().contains_key(*key) && self.map()[*key] == *value,
                None => !self.map().contains_key(*key),
            },
    {
        match self.find(key) {
            Some(i) => Some(&self.entries[i].1),
            None => None,
        }
    }

    /// Give a key a value, and hand back the one it had.
    pub fn insert(&mut self, key: K, value: V) -> (r: Option<V>)
        requires
            old(self).well_formed(),
        ensures
            final(self).well_formed(),
            final(self).map() == old(self).map().insert(key, value),
            r is Some <==> old(self).map().contains_key(key),
            r matches Some(before) ==> before == old(self).map()[key],
    {
        let before = self.remove(&key);
        let ghost middle = self.pairs();
        self.entries.push((key, value));
        proof {
            assert(self.pairs() =~= middle.push((key, value)));
            lemma_push_map(middle, key, value);
            assert(self.map() =~= old(self).map().insert(key, value));
        }
        before
    }

    /// Take a key out, and hand back its value.
    pub fn remove(&mut self, key: &K) -> (r: Option<V>)
        requires
            old(self).well_formed(),
        ensures
            final(self).well_formed(),
            final(self).map() == old(self).map().remove(*key),
            r is Some <==> old(self).map().contains_key(*key),
            r matches Some(before) ==> before == old(self).map()[*key],
    {
        match self.find(key) {
            Some(i) => Some(self.remove_at(i).1),
            None => {
                proof {
                    assert(self.map() =~= self.map().remove(*key));
                }
                None
            },
        }
    }

    /// Take the pair at a position out; later pairs move up by one.
    pub fn remove_at(&mut self, i: usize) -> (r: (K, V))
        requires
            old(self).well_formed(),
            i < old(self).pairs().len(),
        ensures
            final(self).well_formed(),
            final(self).pairs() == old(self).pairs().remove(i as int),
            final(self).map() == old(self).map().remove(old(self).pairs()[i as int].0),
            r == old(self).pairs()[i as int],
            old(self).map().contains_key(r.0),
            old(self).map()[r.0] == r.1,
    {
        proof {
            lemma_remove_map(self.pairs(), i as int);
            lemma_pair_in_map(self.pairs(), i as int);
        }
        self.entries.remove(i)
    }
}

/// Appending a new key is an insertion.
proof fn lemma_push_map<K, V>(pairs: Seq<(K, V)>, key: K, value: V)
    requires
        keys_distinct(pairs),
        !pairs_map(pairs).contains_key(key),
    ensures
        keys_distinct(pairs.push((key, value))),
        pairs_map(pairs.push((key, value))) == pairs_map(pairs).insert(key, value),
{
    let after = pairs.push((key, value));
    assert(keys_distinct(after));
    assert forall|k: K| has_key(after, k) == (has_key(pairs, k) || k == key) by {
        if has_key(after, k) {
            let i = place(after, k);
            if i < pairs.len() {
                assert(pairs[i].0 == k);
            }
        }
        if has_key(pairs, k) {
            let i = place(pairs, k);
            assert(after[i].0 == k);
        }
        if k == key {
            assert(after[pairs.len() as int].0 == k);
        }
    }
    assert forall|k: K| has_key(after, k) implies #[trigger] pairs_map(after)[k] == pairs_map(
        pairs,
    ).insert(key, value)[k] by {
        let i = place(after, k);
        lemma_pair_in_map(after, i);
        if i < pairs.len() {
            assert(pairs[i] == after[i]);
            lemma_pair_in_map(pairs, i);
        }
    }
    assert(pairs_map(after) =~= pairs_map(pairs).insert(key, value));
}

/// Taking a pair out removes its key.
proof fn lemma_remove_map<K, V>(pairs: Seq<(K, V)>, at: int)
    requires
        keys_distinct(pairs),
        0 <= at < pairs.len(),
    ensures
        keys_distinct(pairs.remove(at)),
        pairs_map(pairs.remove(at)) == pairs_map(pairs).remove(pairs[at].0),
{
    let after = pairs.remove(at);
    let key = pairs[at].0;
    assert forall|i: int, j: int| 0 <= i < j < after.len() implies (#[trigger] after[i]).0 != (
    #[trigger] after[j]).0 by {
        let x = if i < at { i } else { i + 1 };
        let y = if j < at { j } else { j + 1 };
        assert(after[i] == pairs[x] && after[j] == pairs[y]);
    }
    assert forall|k: K| has_key(after, k) == (has_key(pairs, k) && k != key) by {
        if has_key(after, k) {
            let i = place(after, k);
            let x = if i < at { i } else { i + 1 };
            assert(after[i] == pairs[x]);
            assert(pairs[x].0 == k);
            if k == key {
                if x < at {
                    assert(pairs[x].0 != pairs[at].0);
                } else {
                    assert(pairs[at].0 != pairs[x].0);
                }
            }
        }
        if has_key(pairs, k) && k != key {
            let x = place(pairs, k);
            let i = if x < at { x } else { x - 1 };
            assert(after[i] == pairs[x]);
        }
    }
    assert forall|k: K| has_key(after, k) implies #[trigger] pairs_map(after)[k] == pairs_map(
        pairs,
    ).remove(key)[k] by {
        let i = place(after, k);
        lemma_pair_in_map(after, i);
        let x = if i < at { i } else { i + 1 };
        assert(after[i] == pairs[x]);
        lemma_pair_in_map(pairs, x);
    }
    assert(pairs_map(after) =~= pairs_map(pairs).remove(key));
}

/// A map from texts to values, kept as a list without repeated names.
#[derive(Clone)]
pub struct NameTable<V> {
    entries: Vec<(String, V)>,
}

impl<V> NameTable<V> {
    /// The pairs, in the order of their arrival.
    pub closed spec fn pairs(self) -> Seq<(Seq<char>, V)> {
        self.entries@.map_values(|entry: (String, V)| (entry.0@, entry.1))
    }

    /// The map this table stands for.
    pub open spec fn map(self) -> Map<Seq<char>, V> {
        pairs_map(self.pairs())
    }

    /// No name occurs twice.
    pub open spec fn well_formed(self) -> bool {
        keys_distinct(self.pairs())
    }

    /// The empty table.
    pub fn new() -> (r: Self)
        ensures
            r.well_formed(),
            r.map() == Map::<Seq<char>, V>::empty(),
    {
        let r = NameTable { entries: Vec::new() };
        proof {
            assert(r.pairs() =~= Seq::empty());
            assert(r.map() =~= Map::<Seq<char>, V>::empty());
        }
        r
    }

    /// How many names there are.
    pub fn len(&self) -> (r: usize)
        requires
            self.well_formed(),
        ensures
            r == self.pairs().len(),
            self.map().dom().finite(),
            r == self.map().dom().len(),
    {
        proof {
            lemma_map_len(self.pairs());
        }
        self.entries.len()
    }

    /// The value at a position.
    pub fn at(&self, i: usize) -> (r: (&str, &V))
        requires
            i < self.pairs().len(),
        ensures
            r.0@ == self.pairs()[i as int].0,
            *r.1 == self.pairs()[i as int].1,
    {
        let entry = &self.entries[i];
        (entry.0.as_str(), &entry.1)
    }

    /// The value at a position, to be changed.
    pub fn at_mut(&mut self, i: usize) -> (r: &mut V)
        requires
            i < old(self).pairs().len(),
        ensures
            *r == old(self).pairs()[i as int].1,
            final(self).pairs() == old(self).pairs().update(
                i as int,
                (old(self).pairs()[i as int].0, *final(r)),
            ),
    {
        &mut self.entries[i].1
    }

    fn find(&self, name: &str) -> (r: Option<usize>)
        requires
            self.well_formed(),
        ensures
            match r {
                Some(i) => i < self.pairs().len() && self.pairs()[i as int].0 == name@
                    && self.map().contains_key(name@) && self.map()[name@]
                    == self.pairs()[i as int].1,
                None => !self.map().contains_key(name@),
            },
    {
        let mut i: usize = 0;
        while i < self.entries.len()
            invariant
                i <= self.entries.len(),
                self.well_formed(),
                forall|k: int| 0 <= k < i ==> (#[trigger] self.pairs()[k]).0 != name@,
            decreases self.entries.len() - i,
        {
            if same_text(self.entries[i].0.as_str(), name) {
                proof {
                    assert(self.pairs()[i as int].0 == name@);
                    lemma_pair_in_map(self.pairs(), i as int);
                }
                return Some(i);
            }
            assert(self.pairs()[i as int].0 != name@);
            i += 1;
        }
        None
    }

    /// Whether a name is present.
    pub fn contains(&self, name: &str) -> (r: bool)
        requires
            self.well_formed(),
        ensures
            r == self.map().contains_key(name@),
    {
        self.find(name).is_some()
    }

    /// The value of a name.
    pub fn get(&self, name: &str) -> (r: Option<&V>)
        requires
            self.well_formed(),
        ensures
            match r {
                Some(value) => self.map().contains_key(name@) && self.map()[name@] == *value,
                None => !self.map().contains_key(name@),
            },
    {
        match self.find(name) {
            Some(i) => Some(&self.entries[i].1),
            None => None,
        }
    }

    /// Take a name out, and hand back its value.
    pub fn remove(&mut self, name: &str) -> (r: Option<V>)
        requires
            old(self).well_formed(),
        ensures
            final(self).well_formed(),
            final(self).map() == old(self).map().remove(name@),
            r is Some <==> old(self).map().contains_key(name@),
            r matches Some(before) ==> before == old(self).map()[name@],
    {
        match self.find(name) {
            Some(i) => {
                let ghost pairs = self.pairs();
                let (_, value) = self.entries.remove(i);
                proof {
                    lemma_remove_map(pairs, i as int);
                    assert(self.pairs() =~= pairs.remove(i as int));
                }
                Some(value)
            },
            None => {
                assert(self.map() =~= self.map().remove(name@));
                None
            },
        }
    }

    /// Give a name a value, and hand back the one it had.
    pub fn insert(&mut self, name: String, value: V) -> (r: Option<V>)
        requires
            old(self).well_formed(),
        ensures
            final(self).well_formed(),
            final(self).map() == old(self).map().insert(name@, value),
            r is Some <==> old(self).map().contains_key(name@),
            r matches Some(before) ==> before == old(self).map()[name@],
    {
        let ghost text = name@;
        let before = self.remove(name.as_str());
        let ghost middle = self.pairs();
        self.entries.push((name, value));
        proof {
            lemma_push_map(middle, text, value);
            assert(self.pairs() =~= middle.push((text, value)));
            assert(self.map() =~= old(self).map().insert(text, value));
        }
        before
    }
}

} // verus!
