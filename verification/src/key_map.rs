//! A finite map held as a list of entries with pairwise different keys.

use crate::clock::Instant;
use vstd::prelude::*;

verus! {

/// A key that can be compared with another by its view.
pub trait MapKey: View + Sized {
    fn same_key(&self, other: &Self) -> (same: bool)
        ensures
            same == (self@ == other@),
    ;
}

/// No key occurs twice.
pub open spec fn unique_keys<A, B>(pairs: Seq<(A, B)>) -> bool {
    forall|i: int, j: int|
        0 <= i < j < pairs.len() ==> (#[trigger] pairs[i]).0 != (#[trigger] pairs[j]).0
}

/// `key` is the key of some entry.
pub open spec fn has_key<A, B>(pairs: Seq<(A, B)>, key: A) -> bool {
    exists|i: int| 0 <= i < pairs.len() && (#[trigger] pairs[i]).0 == key
}

/// The position of an entry with this key.
pub open spec fn position_of<A, B>(pairs: Seq<(A, B)>, key: A) -> int {
    choose|i: int| 0 <= i < pairs.len() && (#[trigger] pairs[i]).0 == key
}

/// The map from keys to values that the entries describe.
pub open spec fn pairs_map<A, B>(pairs: Seq<(A, B)>) -> Map<A, B> {
    Map::new(|key: A| has_key(pairs, key), |key: A| pairs[position_of(pairs, key)].1)
}

/// The part of a map whose entries satisfy `keep`.
pub open spec fn kept<A, B>(map: Map<A, B>, keep: spec_fn(A, B) -> bool) -> Map<A, B> {
    Map::new(|key: A| map.contains_key(key) && keep(key, map[key]), |key: A| map[key])
}

/// `after` holds at most `limit` entries of `before`: all of them when they fit,
/// otherwise the `limit` most recently seen ones. Which of several entries seen
/// at the same time stays is left open.
pub open spec fn keeps_youngest<A, B>(
    before: Map<A, B>,
    seen: spec_fn(B) -> Instant,
    limit: nat,
    after: Map<A, B>,
) -> bool {
    &&& after.submap_of(before)
    &&& after.dom().finite()
    &&& after.len() == if before.len() <= limit {
        before.len()
    } else {
        limit
    }
    &&& forall|gone: A, stays: A|
        #![trigger before.contains_key(gone), after.contains_key(stays)]
        before.contains_key(gone) && !after.contains_key(gone) && after.contains_key(stays)
            ==> seen(before[gone]).nanos <= seen(before[stays]).nanos
}

pub proof fn lemma_pair_in_map<A, B>(pairs: Seq<(A, B)>, i: int)
    requires
        unique_keys(pairs),
        0 <= i < pairs.len(),
    ensures
        pairs_map(pairs).contains_key(pairs[i].0),
        pairs_map(pairs)[pairs[i].0] == pairs[i].1,
{
    assert(has_key(pairs, pairs[i].0));
    let j = position_of(pairs, pairs[i].0);
    assert(pairs[j].0 == pairs[i].0);
    if i < j {
        assert(pairs[i].0 != pairs[j].0);
    } else if j < i {
        assert(pairs[j].0 != pairs[i].0);
    }
}

proof fn lemma_push<A, B>(pairs: Seq<(A, B)>, key: A, value: B)
    requires
        unique_keys(pairs),
        !has_key(pairs, key),
    ensures
        unique_keys(pairs.push((key, value))),
        pairs_map(pairs.push((key, value))) =~= pairs_map(pairs).insert(key, value),
{
    let longer = pairs.push((key, value));
    assert(unique_keys(longer)) by {
        assert forall|i: int, j: int| 0 <= i < j < longer.len() implies (#[trigger] longer[i]).0 != (
        #[trigger] longer[j]).0 by {
            assert(longer[i] == pairs[i]);
            if j < pairs.len() {
                assert(longer[j] == pairs[j]);
            }
        }
    }
    lemma_pair_in_map(longer, pairs.len() as int);
    assert forall|k: A| has_key(longer, k) <==> (has_key(pairs, k) || k == key) by {
        if has_key(pairs, k) {
            let i = position_of(pairs, k);
            assert(longer[i].0 == k);
        }
        if has_key(longer, k) {
            let i = position_of(longer, k);
            if i < pairs.len() {
                assert(pairs[i].0 == k);
            }
        }
        assert(longer[pairs.len() as int].0 == key);
    }
    assert forall|k: A| has_key(pairs, k) implies pairs_map(longer)[k] == pairs_map(pairs)[k] by {
        let i = position_of(pairs, k);
        assert(longer[i] == pairs[i]);
        lemma_pair_in_map(longer, i);
        lemma_pair_in_map(pairs, i);
    }
}

/// Taking one entry more of a list adds that entry to the map.
pub proof fn lemma_take_next<A, B>(pairs: Seq<(A, B)>, at: int)
    requires
        unique_keys(pairs),
        0 <= at < pairs.len(),
    ensures
        pairs_map(pairs.take(at + 1)) == pairs_map(pairs.take(at)).insert(pairs[at].0, pairs[at].1),
        !pairs_map(pairs.take(at)).contains_key(pairs[at].0),
{
    let init = pairs.take(at);
    assert(pairs.take(at + 1) =~= init.push(pairs[at]));
    assert(unique_keys(init)) by {
        assert forall|i: int, j: int| 0 <= i < j < init.len() implies (#[trigger] init[i]).0 != (
        #[trigger] init[j]).0 by {
            assert(pairs[i].0 != pairs[j].0);
        }
    }
    if has_key(init, pairs[at].0) {
        let i = position_of(init, pairs[at].0);
        assert(pairs[i].0 != pairs[at].0);
    }
    lemma_push(init, pairs[at].0, pairs[at].1);
}

proof fn lemma_update<A, B>(pairs: Seq<(A, B)>, at: int, value: B)
    requires
        unique_keys(pairs),
        0 <= at < pairs.len(),
    ensures
        unique_keys(pairs.update(at, (pairs[at].0, value))),
        pairs_map(pairs.update(at, (pairs[at].0, value))) =~= pairs_map(pairs).insert(
            pairs[at].0,
            value,
        ),
{
    let new = pairs.update(at, (pairs[at].0, value));
    assert forall|i: int| 0 <= i < pairs.len() implies (#[trigger] new[i]).0 == pairs[i].0 by {}
    assert(unique_keys(new));
    lemma_pair_in_map(new, at);
    assert forall|k: A| has_key(new, k) <==> has_key(pairs, k) by {
        if has_key(pairs, k) {
            assert(new[position_of(pairs, k)].0 == k);
        }
        if has_key(new, k) {
            assert(pairs[position_of(new, k)].0 == k);
        }
    }
    assert(has_key(pairs, pairs[at].0));
    assert forall|k: A| has_key(pairs, k) && k != pairs[at].0 implies pairs_map(new)[k]
        == pairs_map(pairs)[k] by {
        let i = position_of(pairs, k);
        assert(new[i] == pairs[i]);
        lemma_pair_in_map(new, i);
        lemma_pair_in_map(pairs, i);
    }
}

proof fn lemma_remove<A, B>(pairs: Seq<(A, B)>, at: int)
    requires
        unique_keys(pairs),
        0 <= at < pairs.len(),
    ensures
        unique_keys(pairs.remove(at)),
        pairs_map(pairs.remove(at)) =~= pairs_map(pairs).remove(pairs[at].0),
{
    let new = pairs.remove(at);
    let back = |i: int| if i < at { i } else { i + 1 };
    assert forall|i: int| 0 <= i < new.len() implies #[trigger] new[i] == pairs[back(i)] by {}
    assert(unique_keys(new)) by {
        assert forall|i: int, j: int| 0 <= i < j < new.len() implies (#[trigger] new[i]).0 != (
        #[trigger] new[j]).0 by {
            assert(pairs[back(i)].0 != pairs[back(j)].0);
        }
    }
    assert forall|k: A| has_key(new, k) <==> (has_key(pairs, k) && k != pairs[at].0) by {
        if has_key(new, k) {
            let i = position_of(new, k);
            assert(pairs[back(i)].0 == k);
            if back(i) < at {
                assert(pairs[back(i)].0 != pairs[at].0);
            } else {
                assert(pairs[at].0 != pairs[back(i)].0);
            }
        }
        if has_key(pairs, k) && k != pairs[at].0 {
            let i = position_of(pairs, k);
            let j = if i < at { i } else { i - 1 };
            assert(new[j] == pairs[i]);
        }
    }
    assert forall|k: A| has_key(new, k) implies pairs_map(new)[k] == pairs_map(pairs)[k] by {
        let i = position_of(new, k);
        lemma_pair_in_map(new, i);
        lemma_pair_in_map(pairs, back(i));
    }
}

proof fn lemma_change<A, B>(pairs: Seq<(A, B)>, new: Seq<(A, B)>, c: spec_fn(B) -> B)
    requires
        unique_keys(pairs),
        new.len() == pairs.len(),
        forall|i: int| 0 <= i < new.len() ==> (#[trigger] new[i]) == (pairs[i].0, c(pairs[i].1)),
    ensures
        unique_keys(new),
        pairs_map(new) =~= pairs_map(pairs).map_values(c),
{
    assert forall|k: A| has_key(new, k) <==> has_key(pairs, k) by {
        if has_key(pairs, k) {
            assert(new[position_of(pairs, k)].0 == k);
        }
        if has_key(new, k) {
            assert(pairs[position_of(new, k)].0 == k);
        }
    }
    assert forall|k: A| has_key(pairs, k) implies pairs_map(new)[k] == c(pairs_map(pairs)[k]) by {
        let i = position_of(pairs, k);
        assert(new[i].0 == k);
        lemma_pair_in_map(new, i);
        lemma_pair_in_map(pairs, i);
    }
}

/// The domain is finite, and with unique keys it is as large as the list is long.
pub proof fn lemma_pairs_len<A, B>(pairs: Seq<(A, B)>)
    ensures
        pairs_map(pairs).dom().finite(),
        unique_keys(pairs) ==> pairs_map(pairs).len() == pairs.len(),
    decreases pairs.len(),
{
    if pairs.len() == 0 {
        assert(pairs_map(pairs).dom() =~= Set::<A>::empty());
    } else {
        let init = pairs.drop_last();
        lemma_pairs_len(init);
        let key = pairs.last().0;
        assert(pairs_map(pairs).dom() =~= pairs_map(init).dom().insert(key)) by {
            assert forall|k: A| has_key(pairs, k) <==> (has_key(init, k) || k == key) by {
                if has_key(init, k) {
                    assert(pairs[position_of(init, k)].0 == k);
                }
                if has_key(pairs, k) && k != key {
                    assert(init[position_of(pairs, k)].0 == k);
                }
                assert(pairs[pairs.len() - 1].0 == key);
            }
        }
        if unique_keys(pairs) {
            assert(unique_keys(init)) by {
                assert forall|i: int, j: int| 0 <= i < j < init.len() implies (
                #[trigger] init[i]).0 != (#[trigger] init[j]).0 by {
                    assert(pairs[i].0 != pairs[j].0);
                }
            }
            if has_key(init, key) {
                let i = position_of(init, key);
                assert(pairs[i].0 != pairs[pairs.len() - 1].0);
            }
        }
    }
}

/// Entries with pairwise different keys, seen as a map between views.
pub struct KeyMap<K: MapKey, V: View> {
    entries: Vec<(K, V)>,
}

spec fn views<K: MapKey, V: View>(entries: Seq<(K, V)>) -> Seq<(K::V, V::V)> {
    Seq::new(entries.len(), |i: int| (entries[i].0@, entries[i].1@))
}

impl<K: MapKey, V: View> View for KeyMap<K, V> {
    type V = Map<K::V, V::V>;

    open spec fn view(&self) -> Map<K::V, V::V> {
        pairs_map(self.pairs())
    }
}

impl<K: MapKey, V: View> KeyMap<K, V> {
    /// The entries in the order in which they are walked.
    pub closed spec fn pairs(self) -> Seq<(K::V, V::V)> {
        views(self.entries@)
    }

    #[verifier::type_invariant]
    spec fn keys_differ(self) -> bool {
        unique_keys(views(self.entries@))
    }

    pub proof fn lemma_finite(self)
        ensures
            self@.dom().finite(),
    {
        lemma_pairs_len(self.pairs());
    }

    pub fn new() -> (map: Self)
        ensures
            map@ == Map::<K::V, V::V>::empty(),
            map.pairs().len() == 0,
    {
        let map = KeyMap { entries: Vec::new() };
        assert(map@ =~= Map::<K::V, V::V>::empty());
        map
    }

    pub fn len(&self) -> (len: usize)
        ensures
            len == self@.len(),
            len == self.pairs().len(),
            self@.dom().finite(),
            unique_keys(self.pairs()),
    {
        proof {
            use_type_invariant(self);
            lemma_pairs_len(self.pairs());
        }
        self.entries.len()
    }

    pub fn is_empty(&self) -> (empty: bool)
        ensures
            empty == (self@.len() == 0),
            empty == (self@ == Map::<K::V, V::V>::empty()),
    {
        let len: usize = self.len();
        proof {
            if len == 0 {
                assert(self@ =~= Map::<K::V, V::V>::empty());
            }
        }
        len == 0
    }

    /// The key of the entry at `at`.
    pub fn key_at(&self, at: usize) -> (key: &K)
        requires
            at < self.pairs().len(),
        ensures
            key@ == self.pairs()[at as int].0,
    {
        &self.entries[at].0
    }

    /// The value of the entry at `at`.
    pub fn value_at(&self, at: usize) -> (value: &V)
        requires
            at < self.pairs().len(),
        ensures
            value@ == self.pairs()[at as int].1,
    {
        &self.entries[at].1
    }

    fn find(&self, key: &K) -> (found: Option<usize>)
        ensures
            match found {
                Some(i) => i < self.pairs().len() && self.pairs()[i as int].0 == key@,
                None => !has_key(self.pairs(), key@),
            },
    {
        let mut i: usize = 0;
        while i < self.entries.len()
            invariant
                i <= self.entries.len(),
                self.entries.len() == self.pairs().len(),
                forall|j: int| 0 <= j < i ==> (#[trigger] self.pairs()[j]).0 != key@,
            decreases self.entries.len() - i,
        {
            if self.entries[i].0.same_key(key) {
                return Some(i);
            }
            i += 1;
        }
        None
    }

    pub fn get(&self, key: &K) -> (value: Option<&V>)
        ensures
            match value {
                Some(v) => self@.contains_key(key@) && v@ == self@[key@],
                None => !self@.contains_key(key@),
            },
    {
        proof {
            use_type_invariant(self);
        }
        match self.find(key) {
            Some(i) => {
                proof {
                    lemma_pair_in_map(self.pairs(), i as int);
                }
                Some(&self.entries[i].1)
            },
            None => None,
        }
    }

    pub fn contains_key(&self, key: &K) -> (found: bool)
        ensures
            found == self@.contains_key(key@),
    {
        self.get(key).is_some()
    }

    /// Sets the value of `key` and returns the one it had.
    pub fn insert(&mut self, key: K, value: V) -> (previous: Option<V>)
        ensures
            final(self)@ == old(self)@.insert(key@, value@),
            match previous {
                Some(v) => old(self)@.contains_key(key@) && v@ == old(self)@[key@],
                None => !old(self)@.contains_key(key@),
            },
    {
        proof {
            use_type_invariant(&*self);
        }
        let found = self.find(&key);
        let ghost before = self.pairs();
        let ghost key_view = key@;
        let ghost value_view = value@;
        let mut entries: Vec<(K, V)> = Vec::new();
        std::mem::swap(&mut entries, &mut self.entries);
        let previous: Option<V> = match found {
            Some(i) => {
                let mut entry: (K, V) = (key, value);
                std::mem::swap(&mut entry, &mut entries[i]);
                proof {
                    assert(views(entries@) =~= before.update(i as int, (key_view, value_view)));
                    lemma_update(before, i as int, value_view);
                    lemma_pair_in_map(before, i as int);
                }
                Some(entry.1)
            },
            None => {
                entries.push((key, value));
                proof {
                    assert(views(entries@) =~= before.push((key_view, value_view)));
                    lemma_push(before, key_view, value_view);
                }
                None
            },
        };
        self.entries = entries;
        previous
    }

    /// Removes the entry of `key` and returns its value.
    pub fn remove(&mut self, key: &K) -> (value: Option<V>)
        ensures
            final(self)@ == old(self)@.remove(key@),
            match value {
                Some(v) => old(self)@.contains_key(key@) && v@ == old(self)@[key@],
                None => !old(self)@.contains_key(key@),
            },
    {
        proof {
            use_type_invariant(&*self);
        }
        let found = self.find(key);
        let ghost before = self.pairs();
        match found {
            Some(i) => {
                let mut entries: Vec<(K, V)> = Vec::new();
                std::mem::swap(&mut entries, &mut self.entries);
                let entry = entries.remove(i);
                proof {
                    assert(views(entries@) =~= before.remove(i as int));
                    lemma_remove(before, i as int);
                    lemma_pair_in_map(before, i as int);
                }
                self.entries = entries;
                Some(entry.1)
            },
            None => {
                assert(self@ =~= self@.remove(key@));
                None
            },
        }
    }

    /// Keeps the entries for which `keep` says so; `p` is what `keep` decides.
    pub(crate) fn retain<F: Fn(&K, &V) -> bool>(
        &mut self,
        keep: F,
        Ghost(p): Ghost<spec_fn(K::V, V::V) -> bool>,
    )
        requires
            forall|k: &K, v: &V| #[trigger] call_requires(keep, (k, v)),
            forall|k: &K, v: &V, b: bool| #[trigger]
                call_ensures(keep, (k, v), b) ==> b == p(k@, v@),
        ensures
            final(self)@ == kept(old(self)@, p),
    {
        proof {
            use_type_invariant(&*self);
        }
        let ghost before = self.pairs();
        let mut all: Vec<(K, V)> = Vec::new();
        std::mem::swap(&mut all, &mut self.entries);
        let mut entries: Vec<(K, V)> = Vec::new();
        assert(pairs_map(views(entries@)) =~= kept(pairs_map(before.take(0)), p));
        for entry in it: all
            invariant
                forall|k: &K, v: &V| #[trigger] call_requires(keep, (k, v)),
                forall|k: &K, v: &V, b: bool| #[trigger]
                    call_ensures(keep, (k, v), b) ==> b == p(k@, v@),
                unique_keys(before),
                views(it.seq()) == before,
                unique_keys(views(entries@)),
                pairs_map(views(entries@)) == kept(pairs_map(before.take(it.index() as int)), p),
        {
            let ghost done = it.index() as int;
            let ghost entries_before = entries@;
            let ghost key = entry.0@;
            let ghost value = entry.1@;
            proof {
                assert(views(it.seq())[done] == (key, value));
                lemma_take_next(before, done);
            }
            if keep(&entry.0, &entry.1) {
                entries.push(entry);
                proof {
                    assert(views(entries@) =~= views(entries_before).push((key, value)));
                    assert(!has_key(views(entries_before), key)) by {
                        if has_key(views(entries_before), key) {
                            assert(pairs_map(views(entries_before)).contains_key(key));
                        }
                    }
                    lemma_push(views(entries_before), key, value);
                }
            }
            assert(pairs_map(views(entries@)) =~= kept(pairs_map(before.take(done + 1)), p));
        }
        assert(before.take(before.len() as int) =~= before);
        self.entries = entries;
    }

    /// Replaces every value by what `change` makes of it; `c` is what that is.
    pub(crate) fn change_values<F: Fn(V) -> V>(
        &mut self,
        change: F,
        Ghost(c): Ghost<spec_fn(V::V) -> V::V>,
    )
        requires
            forall|v: V| #[trigger] call_requires(change, (v,)),
            forall|v: V, r: V| #[trigger] call_ensures(change, (v,), r) ==> r@ == c(v@),
        ensures
            final(self)@ == old(self)@.map_values(c),
    {
        proof {
            use_type_invariant(&*self);
        }
        let ghost before = self.pairs();
        let mut all: Vec<(K, V)> = Vec::new();
        std::mem::swap(&mut all, &mut self.entries);
        let mut entries: Vec<(K, V)> = Vec::new();
        for entry in it: all
            invariant
                forall|v: V| #[trigger] call_requires(change, (v,)),
                forall|v: V, r: V| #[trigger] call_ensures(change, (v,), r) ==> r@ == c(v@),
                views(it.seq()) == before,
                entries@.len() == it.index(),
                forall|i: int|
                    0 <= i < entries@.len() ==> (#[trigger] views(entries@)[i]) == (
                        before[i].0,
                        c(before[i].1),
                    ),
        {
            let ghost done = it.index() as int;
            let ghost entries_before = entries@;
            proof {
                assert(views(it.seq())[done] == (entry.0@, entry.1@));
            }
            let (key, value) = entry;
            let changed = change(value);
            entries.push((key, changed));
            proof {
                assert forall|i: int| 0 <= i < entries@.len() implies (#[trigger] views(
                    entries@,
                )[i]) == (before[i].0, c(before[i].1)) by {
                    if i < done {
                        assert(views(entries_before)[i] == (before[i].0, c(before[i].1)));
                    }
                }
            }
        }
        proof {
            lemma_change(before, views(entries@), c);
        }
        self.entries = entries;
    }

    fn remove_at(&mut self, at: usize)
        requires
            at < old(self).pairs().len(),
        ensures
            final(self)@ == old(self)@.remove(old(self).pairs()[at as int].0),
    {
        proof {
            use_type_invariant(&*self);
        }
        let ghost before = self.pairs();
        let mut entries: Vec<(K, V)> = Vec::new();
        std::mem::swap(&mut entries, &mut self.entries);
        let _ = entries.remove(at);
        proof {
            assert(views(entries@) =~= before.remove(at as int));
            lemma_remove(before, at as int);
        }
        self.entries = entries;
    }

    /// Removes the entry seen longest ago until at most `limit` are left;
    /// `seen` is what `last_seen` reads.
    pub(crate) fn evict_oldest<F: Fn(&V) -> Instant>(
        &mut self,
        limit: usize,
        last_seen: F,
        Ghost(seen): Ghost<spec_fn(V::V) -> Instant>,
    )
        requires
            forall|v: &V| #[trigger] call_requires(last_seen, (v,)),
            forall|v: &V, t: Instant| #[trigger]
                call_ensures(last_seen, (v,), t) ==> t == seen(v@),
        ensures
            keeps_youngest(old(self)@, seen, limit as nat, final(self)@),
    {
        let ghost before = self@;
        let mut len: usize = self.len();
        assert(keeps_youngest(before, seen, before.len(), self@));
        while len > limit
            invariant
                forall|v: &V| #[trigger] call_requires(last_seen, (v,)),
                forall|v: &V, t: Instant| #[trigger]
                    call_ensures(last_seen, (v,), t) ==> t == seen(v@),
                len == self@.len(),
                len == self.pairs().len(),
                unique_keys(self.pairs()),
                before.len() > limit ==> len >= limit,
                before.len() <= limit ==> len == before.len(),
                len <= before.len(),
                keeps_youngest(before, seen, len as nat, self@),
            decreases len,
        {
            let ghost now = self@;
            let mut oldest: usize = 0;
            let mut oldest_seen: Instant = last_seen(self.value_at(0));
            let mut i: usize = 1;
            while i < len
                invariant
                    forall|v: &V| #[trigger] call_requires(last_seen, (v,)),
                    forall|v: &V, t: Instant| #[trigger]
                        call_ensures(last_seen, (v,), t) ==> t == seen(v@),
                    len == self.pairs().len(),
                    0 < i <= len,
                    oldest < i,
                    oldest_seen == seen(self.pairs()[oldest as int].1),
                    forall|j: int|
                        0 <= j < i ==> oldest_seen.nanos <= seen((#[trigger] self.pairs()[j]).1).nanos,
                decreases len - i,
            {
                let candidate = last_seen(self.value_at(i));
                if candidate.nanos < oldest_seen.nanos {
                    oldest = i;
                    oldest_seen = candidate;
                }
                i += 1;
            }
            let ghost pairs = self.pairs();
            let ghost key = pairs[oldest as int].0;
            self.remove_at(oldest);
            proof {
                lemma_pair_in_map(pairs, oldest as int);
                assert forall|gone: K::V, stays: K::V|
                    #![trigger before.contains_key(gone), self@.contains_key(stays)]
                    before.contains_key(gone) && !self@.contains_key(gone) && self@.contains_key(
                        stays,
                    ) implies seen(before[gone]).nanos <= seen(before[stays]).nanos by {
                    assert(now.contains_key(stays));
                    assert(now.dom().contains(stays) && before.dom().contains(stays));
                    assert(before[stays] == now[stays]);
                    if gone == key {
                        assert(now.dom().contains(key) && before.dom().contains(key));
                        assert(before[key] == now[key]);
                        let j = position_of(pairs, stays);
                        lemma_pair_in_map(pairs, j);
                        assert(oldest_seen.nanos <= seen(pairs[j].1).nanos);
                    } else {
                        assert(!now.contains_key(gone));
                    }
                }
                now.lemma_remove_key_len(key);
            }
            len = self.len();
        }
    }
}

/// A finite set of keys.
pub struct KeySet<K: MapKey> {
    items: KeyMap<K, ()>,
}

impl<K: MapKey> View for KeySet<K> {
    type V = Set<K::V>;

    closed spec fn view(&self) -> Set<K::V> {
        self.items@.dom()
    }
}

impl<K: MapKey> KeySet<K> {
    pub fn new() -> (set: Self)
        ensures
            set@ == Set::<K::V>::empty(),
    {
        let set = KeySet { items: KeyMap::new() };
        assert(set@ =~= Set::<K::V>::empty());
        set
    }

    pub fn len(&self) -> (len: usize)
        ensures
            len == self@.len(),
            self@.finite(),
    {
        self.items.len()
    }

    pub fn contains(&self, key: &K) -> (found: bool)
        ensures
            found == self@.contains(key@),
    {
        self.items.contains_key(key)
    }

    /// Adds `key`; `false` when it was there already.
    pub fn insert(&mut self, key: K) -> (added: bool)
        ensures
            final(self)@ == old(self)@.insert(key@),
            added == !old(self)@.contains(key@),
    {
        let previous = self.items.insert(key, ());
        assert(self@ =~= old(self)@.insert(key@));
        previous.is_none()
    }
}

impl MapKey for String {
    fn same_key(&self, other: &Self) -> (same: bool) {
        *self == *other
    }
}

impl MapKey for u64 {
    fn same_key(&self, other: &Self) -> (same: bool) {
        *self == *other
    }
}

impl<A: MapKey, B: MapKey> MapKey for (A, B) {
    fn same_key(&self, other: &Self) -> (same: bool) {
        self.1.same_key(&other.1) && self.0.same_key(&other.0)
    }
}

} // verus!
