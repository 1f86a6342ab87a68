//! The multimap: a hash table from keys to groups of values.

use crate::group::{
    agrees, askable, filtered_by, group_as_mut_slice, group_as_slice, group_collect, group_extend,
    group_extend_from_slice, group_from_slice, group_from_vec, group_into_vec, group_items,
    group_new, group_push, group_retain, Group,
};
use crate::iter::{Iter, IterMut};
use crate::laws::lemma_groups_keys;
use crate::render::{
    is_rendering, key_text, list_text, map_string, renders, texts_of, values_text,
};
use crate::table::{
    table_capacity, table_drain, table_get_mut, table_iter_mut,
    table_with_capacity_and_hasher, table_with_hasher,
};
use std::collections::hash_map::Entry;
use std::collections::hash_map::RandomState;
use std::collections::HashMap;
use std::fmt::Debug;
use std::hash::{BuildHasher, Hash};
use vstd::prelude::*;
use vstd::std_specs::hash::*;
use vstd::std_specs::iter::IteratorSpec;

verus! {

broadcast use vstd::std_specs::hash::group_hash_axioms;

/// The group that `m` has for `k`; the empty sequence where `k` is absent.
pub open spec fn values_of<K>(m: Map<K, Seq<i64>>, k: K) -> Seq<i64> {
    if m.contains_key(k) {
        m[k]
    } else {
        Seq::empty()
    }
}

/// `m` after `vs` has been appended to the group of `k`. An absent key is created
/// with `vs` as its group; with no values to give it, it stays absent.
pub open spec fn appended<K>(m: Map<K, Seq<i64>>, k: K, vs: Seq<i64>) -> Map<K, Seq<i64>> {
    if vs.len() == 0 && !m.contains_key(k) {
        m
    } else {
        m.insert(k, values_of(m, k) + vs)
    }
}

/// `m` after each pair of `pairs`, from the first on, has been inserted.
pub open spec fn with_pairs<K>(m: Map<K, Seq<i64>>, pairs: Seq<(K, i64)>) -> Map<K, Seq<i64>>
    decreases pairs.len(),
{
    if pairs.len() == 0 {
        m
    } else {
        appended(with_pairs(m, pairs.drop_last()), pairs.last().0, seq![pairs.last().1])
    }
}

/// `m` after the values of each group of `groups`, from the first on, have been
/// appended under that group's key. A group without values creates no key.
pub open spec fn with_groups<K>(m: Map<K, Seq<i64>>, groups: Seq<(K, Seq<i64>)>) -> Map<
    K,
    Seq<i64>,
>
    decreases groups.len(),
{
    if groups.len() == 0 {
        m
    } else {
        appended(with_groups(m, groups.drop_last()), groups.last().0, groups.last().1)
    }
}

/// The keys and groups of `groups`, each group as the sequence of its values.
pub open spec fn groups_view<K>(groups: Seq<(K, Vec<i64>)>) -> Seq<(K, Seq<i64>)> {
    Seq::new(groups.len(), |i: int| (groups[i].0, groups[i].1@))
}

/// Whatever `f` answers about a pair is what `p` says of it.
pub open spec fn decides<K, F: Fn(&K, &i64) -> bool>(f: F, p: spec_fn(K, i64) -> bool) -> bool {
    forall|k: K, v: i64, b: bool| #[trigger] call_ensures(f, (&k, &v), b) ==> b == p(k, v)
}

/// What `p` says of the values under the key `k`.
pub open spec fn at_key<K>(p: spec_fn(K, i64) -> bool, k: K) -> spec_fn(i64) -> bool {
    |v: i64| p(k, v)
}

/// What is left of `m` when only the pairs of which `p` holds are kept: in each
/// group the values that `p` keeps, in their order, and no key whose group is empty
/// after that.
pub open spec fn retained<K>(m: Map<K, Seq<i64>>, p: spec_fn(K, i64) -> bool) -> Map<
    K,
    Seq<i64>,
> {
    Map::new(
        |k: K| m.contains_key(k) && m[k].filter(at_key(p, k)).len() > 0,
        |k: K| m[k].filter(at_key(p, k)),
    )
}

/// A map from keys to groups of values. The values of one key keep the order in which
/// they were inserted; the keys have no order.
///
/// The view is the map from each key that is present to its group. The inserts,
/// `remove` and `retain` leave no key with an empty group. Only a caller that pops
/// every value through the handle of `get_all_mut` leaves one: `get` and `get_slice`
/// then find nothing under the key, while `contains_key`, `len` and `keys` still
/// count it, until `retain` or `remove` takes it out.
#[verifier::reject_recursive_types(S)]
pub struct MultiMap<K, S = RandomState> {
    inner: HashMap<K, Group, S>,
}

impl<K, S> View for MultiMap<K, S> {
    type V = Map<K, Seq<i64>>;

    closed spec fn view(&self) -> Map<K, Seq<i64>> {
        Map::new(|k: K| self.inner@.contains_key(k), |k: K| group_items(self.inner@[k]))
    }
}

impl<K, S> MultiMap<K, S> {
    /// A multimap has finitely many keys.
    pub proof fn lemma_finite(&self)
        ensures
            self@.dom().finite(),
    {
        let keys = spec_keys_iter(&self.inner).remaining().unref();
        vstd::seq_lib::seq_to_set_is_finite(keys);
        assert(self@.dom() =~= self.inner@.dom());
    }
}

impl<K: Eq + Hash> MultiMap<K, RandomState> {
    /// An empty multimap.
    pub fn new() -> (m: Self)
        ensures
            m@ == (Map::<K, Seq<i64>>::empty()),
    {
        let m = MultiMap { inner: HashMap::new() };
        assert(m@ =~= Map::<K, Seq<i64>>::empty());
        m
    }

    /// An empty multimap with room for `capacity` keys.
    pub fn with_capacity(capacity: usize) -> (m: Self)
        ensures
            m@ == (Map::<K, Seq<i64>>::empty()),
    {
        let m = MultiMap { inner: HashMap::with_capacity(capacity) };
        assert(m@ =~= Map::<K, Seq<i64>>::empty());
        m
    }
}

impl<K: Eq + Hash, S: BuildHasher> MultiMap<K, S> {
    /// An empty multimap that hashes its keys with `hash_builder`.
    pub fn with_hasher(hash_builder: S) -> (m: Self)
        ensures
            m@ == (Map::<K, Seq<i64>>::empty()),
    {
        let m = MultiMap { inner: table_with_hasher(hash_builder) };
        assert(m@ =~= Map::<K, Seq<i64>>::empty());
        m
    }

    /// An empty multimap with room for `capacity` keys, which hashes its keys with
    /// `hash_builder`.
    pub fn with_capacity_and_hasher(capacity: usize, hash_builder: S) -> (m: Self)
        ensures
            m@ == (Map::<K, Seq<i64>>::empty()),
    {
        let m = MultiMap { inner: table_with_capacity_and_hasher(capacity, hash_builder) };
        assert(m@ =~= Map::<K, Seq<i64>>::empty());
        m
    }

    /// The number of keys that the table has room for before it grows.
    pub fn capacity(&self) -> usize {
        table_capacity(&self.inner)
    }

    /// Appends `v` to the group of `k`, which is created if `k` is absent.
    pub fn insert(&mut self, k: K, v: i64)
        requires
            obeys_key_model::<K>(),
            builds_valid_hashers::<S>(),
        ensures
            final(self)@ == appended(old(self)@, k, seq![v]),
    {
        match self.inner.entry(k) {
            Entry::Occupied(mut entry) => {
                group_push(entry.get_mut(), v);
            },
            Entry::Vacant(entry) => {
                let mut g = group_new();
                group_push(&mut g, v);
                entry.insert(g);
            },
        }
        assert(values_of(old(self)@, k) + seq![v] =~= values_of(old(self)@, k).push(v));
        assert(self@ =~= appended(old(self)@, k, seq![v]));
    }

    /// Appends the values of `vs`, in order, to the group of `k`, which is created if
    /// `k` is absent and `vs` holds a value. It does what an `insert` of each value in
    /// turn does.
    pub fn insert_many(&mut self, k: K, vs: Vec<i64>)
        requires
            obeys_key_model::<K>(),
            builds_valid_hashers::<S>(),
        ensures
            final(self)@ == appended(old(self)@, k, vs@),
    {
        match self.inner.entry(k) {
            Entry::Occupied(mut entry) => {
                group_extend(entry.get_mut(), vs);
            },
            Entry::Vacant(entry) => {
                if vs.len() > 0 {
                    entry.insert(group_collect(vs));
                }
            },
        }
        assert(self@ =~= appended(old(self)@, k, vs@));
    }

    /// Appends a copy of the values of `vs`, in order, to the group of `k`, which is
    /// created if `k` is absent and `vs` holds a value.
    pub fn insert_many_from_slice(&mut self, k: K, vs: &[i64])
        requires
            obeys_key_model::<K>(),
            builds_valid_hashers::<S>(),
        ensures
            final(self)@ == appended(old(self)@, k, vs@),
    {
        match self.inner.entry(k) {
            Entry::Occupied(mut entry) => {
                group_extend_from_slice(entry.get_mut(), vs);
            },
            Entry::Vacant(entry) => {
                if vs.len() > 0 {
                    entry.insert(group_from_slice(vs));
                }
            },
        }
        assert(self@ =~= appended(old(self)@, k, vs@));
    }

    /// Whether `k` is present.
    pub fn contains_key(&self, k: &K) -> (r: bool)
        requires
            obeys_key_model::<K>(),
            builds_valid_hashers::<S>(),
        ensures
            r == self@.contains_key(*k),
    {
        self.inner.contains_key(k)
    }

    /// The number of keys.
    pub fn len(&self) -> (n: usize)
        requires
            obeys_key_model::<K>(),
            builds_valid_hashers::<S>(),
        ensures
            n == self@.len(),
            self@.dom().finite(),
    {
        proof {
            self.lemma_finite();
        }
        assert(self@.dom() =~= self.inner@.dom());
        self.inner.len()
    }

    /// Whether no key is present.
    pub fn is_empty(&self) -> (r: bool)
        ensures
            r == (self@ == (Map::<K, Seq<i64>>::empty())),
    {
        assert(self@.dom() =~= self.inner@.dom());
        assert(self.inner@.is_empty() ==> self@ =~= Map::<K, Seq<i64>>::empty());
        self.inner.is_empty()
    }

    /// Removes every key.
    pub fn clear(&mut self)
        ensures
            final(self)@ == (Map::<K, Seq<i64>>::empty()),
    {
        self.inner.clear();
        assert(self@ =~= Map::<K, Seq<i64>>::empty());
    }

    /// Takes `k` out and returns its group, in order; `None` where `k` is absent.
    pub fn remove(&mut self, k: &K) -> (r: Option<Vec<i64>>)
        requires
            obeys_key_model::<K>(),
            builds_valid_hashers::<S>(),
        ensures
            final(self)@ == old(self)@.remove(*k),
            match r {
                Some(vs) => old(self)@.contains_key(*k) && vs@ == old(self)@[*k],
                None => !old(self)@.contains_key(*k),
            },
    {
        let r = match self.inner.remove(k) {
            Some(g) => Some(group_into_vec(g)),
            None => None,
        };
        assert(self@ =~= old(self)@.remove(*k));
        r
    }

    /// The first value of the group of `k`; `None` where `k` is absent or its group
    /// is empty.
    pub fn get(&self, k: &K) -> (r: Option<&i64>)
        requires
            obeys_key_model::<K>(),
            builds_valid_hashers::<S>(),
        ensures
            match r {
                Some(v) => values_of(self@, *k).len() > 0 && *v == values_of(self@, *k)[0],
                None => values_of(self@, *k).len() == 0,
            },
    {
        match self.inner.get(k) {
            Some(g) => {
                let s = group_as_slice(g);
                if s.len() > 0 {
                    Some(&s[0])
                } else {
                    None
                }
            },
            None => None,
        }
    }

    /// The group of `k`, in order; `None` where `k` is absent or its group is empty.
    pub fn get_slice(&self, k: &K) -> (r: Option<&[i64]>)
        requires
            obeys_key_model::<K>(),
            builds_valid_hashers::<S>(),
        ensures
            match r {
                Some(s) => self@.contains_key(*k) && s@ == self@[*k] && s@.len() > 0,
                None => values_of(self@, *k).len() == 0,
            },
    {
        match self.inner.get(k) {
            Some(g) => {
                let s = group_as_slice(g);
                if s.len() > 0 {
                    Some(s)
                } else {
                    None
                }
            },
            None => None,
        }
    }

    /// Whether `k` is present with more than one value.
    pub fn is_vec(&self, k: &K) -> (r: bool)
        requires
            obeys_key_model::<K>(),
            builds_valid_hashers::<S>(),
        ensures
            r == (self@.contains_key(*k) && self@[*k].len() > 1),
    {
        match self.get_slice(k) {
            Some(val) => val.len() > 1,
            None => false,
        }
    }

    /// The keys, each once, in no particular order.
    pub fn keys(&self) -> (ks: Vec<&K>)
        requires
            obeys_key_model::<K>(),
            builds_valid_hashers::<S>(),
        ensures
            ks@.len() == self@.len(),
            ks@.no_duplicates(),
            forall|k: K| self@.contains_key(k) <==> ks@.contains(&k),
    {
        let mut ks: Vec<&K> = Vec::new();
        assert(self@.dom() =~= self.inner@.dom());
        for k in it: self.inner.keys()
            invariant
                it.seq() == spec_keys_iter(&self.inner).remaining(),
                ks@ == it.seq().take(it.index()),
        {
            ks.push(k);
            assert(ks@ =~= it.seq().take(it.index() + 1));
        }
        proof {
            let all = spec_keys_iter(&self.inner).remaining();
            assert(ks@ =~= all);
            assert forall|k: K| self@.contains_key(k) <==> ks@.contains(&k) by {
                if self@.contains_key(k) {
                    assert(all.unref().to_set().contains(k));
                    let i = choose|i: int| 0 <= i < all.unref().len() && all.unref()[i] == k;
                    assert(all[i] == &k);
                }
                if ks@.contains(&k) {
                    let i = choose|i: int| 0 <= i < all.len() && all[i] == &k;
                    assert(all.unref()[i] == k);
                    assert(all.unref().to_set().contains(k));
                }
            }
        }
        ks
    }

    /// Each key with its group, in no particular order. A key whose values were all
    /// popped through its handle comes with an empty group.
    pub fn iter_all(&self) -> (ps: Vec<(&K, &[i64])>)
        requires
            obeys_key_model::<K>(),
            builds_valid_hashers::<S>(),
        ensures
            ps@.len() == self@.len(),
            forall|i: int|
                0 <= i < ps@.len() ==> self@.contains_key(*(#[trigger] ps@[i]).0) && ps@[i].1@
                    == self@[*ps@[i].0],
            forall|i: int, j: int| 0 <= i < j < ps@.len() ==> *ps@[i].0 != *ps@[j].0,
            forall|k: K| #[trigger]
                self@.contains_key(k) ==> exists|i: int| 0 <= i < ps@.len() && *ps@[i].0 == k,
    {
        let mut ps: Vec<(&K, &[i64])> = Vec::new();
        assert(self@.dom() =~= self.inner@.dom());
        for p in it: self.inner.iter()
            invariant
                it.seq() == spec_hash_map_iter(&self.inner).remaining(),
                ps@.len() == it.index(),
                forall|j: int|
                    0 <= j < ps@.len() ==> (#[trigger] ps@[j]).0 == it.seq()[j].0 && ps@[j].1@
                        == group_items(*it.seq()[j].1),
        {
            ps.push((p.0, group_as_slice(p.1)));
        }
        proof {
            let all = spec_hash_map_iter(&self.inner).remaining();
            assert forall|i: int, j: int| 0 <= i < j < ps@.len() implies *ps@[i].0 != *ps@[j].0 by {
                if *ps@[i].0 == *ps@[j].0 {
                    assert(self.inner@.contains_key(*all[i].0));
                    assert(self.inner@.contains_key(*all[j].0));
                    assert(all[i] == all[j]);
                }
            }
            assert forall|k: K| #[trigger] self@.contains_key(k) implies exists|i: int|
                0 <= i < ps@.len() && *ps@[i].0 == k by {
                assert(self.inner@.contains_key(k));
                assert(all.contains((&k, &self.inner@[k])));
                let i = choose|i: int| 0 <= i < all.len() && all[i] == (&k, &self.inner@[k]);
                assert(*ps@[i].0 == k);
            }
            assert forall|i: int| 0 <= i < ps@.len() implies self@.contains_key(
                *(#[trigger] ps@[i]).0,
            ) && ps@[i].1@ == self@[*ps@[i].0] by {
                assert(self.inner@.contains_key(*all[i].0));
            }
        }
        ps
    }

    /// Keeps in each group the values that `f` keeps, in their order, and takes out
    /// each key whose group is empty after that.
    pub fn retain<F: Fn(&K, &i64) -> bool>(&mut self, f: F)
        requires
            obeys_key_model::<K>(),
            builds_valid_hashers::<S>(),
            askable::<K, F>(f),
        ensures
            forall|p: spec_fn(K, i64) -> bool| #[trigger]
                decides(f, p) ==> final(self)@ == retained(old(self)@, p),
            forall|k: K| #[trigger]
                final(self)@.contains_key(k) ==> old(self)@.contains_key(k) && final(self)@[k].len()
                    > 0 && filtered_by(f, k, old(self)@[k], final(self)@[k]),
            forall|k: K| #[trigger]
                old(self)@.contains_key(k) ==> final(self)@.contains_key(k) || filtered_by(
                    f,
                    k,
                    old(self)@[k],
                    Seq::empty(),
                ),
    {
        let ghost before = self@;
        let mut pairs = table_drain(&mut self.inner);
        let ghost all = pairs@;
        while pairs.len() > 0
            invariant
                obeys_key_model::<K>(),
                builds_valid_hashers::<S>(),
                askable::<K, F>(f),
                pairs@ == all.take(pairs@.len() as int),
                pairs@.len() <= all.len(),
                forall|i: int|
                    0 <= i < all.len() ==> before.contains_key(#[trigger] all[i].0)
                        && before[all[i].0] == group_items(all[i].1),
                forall|k: K| #[trigger]
                    self.inner@.contains_key(k) ==> before.contains_key(k) && group_items(
                        self.inner@[k],
                    ).len() > 0 && filtered_by(f, k, before[k], group_items(self.inner@[k])),
                forall|i: int|
                    pairs@.len() <= i < all.len() ==> self.inner@.contains_key(
                        #[trigger] all[i].0,
                    ) || filtered_by(f, all[i].0, before[all[i].0], Seq::empty()),
            decreases pairs@.len(),
        {
            let (k, mut g) = pairs.pop().unwrap();
            group_retain(&mut g, &k, &f);
            if group_as_slice(&g).len() > 0 {
                self.inner.insert(k, g);
            } else {
                assert(group_items(g) =~= Seq::<i64>::empty());
            }
            assert(pairs@ =~= all.take(pairs@.len() as int));
        }
        assert forall|p: spec_fn(K, i64) -> bool| #[trigger] decides(f, p) implies self@
            == retained(before, p) by {
            assert forall|k: K| before.contains_key(k) implies agrees(f, k, at_key(p, k)) by {
                assert forall|v: i64, b: bool| #[trigger]
                    call_ensures(f, (&k, &v), b) implies b == at_key(p, k)(v) by {}
            }
            assert forall|k: K| #[trigger] before.contains_key(k) implies (self.inner@.contains_key(
                k,
            ) || before[k].filter(at_key(p, k)).len() == 0) by {
                let i = choose|i: int| 0 <= i < all.len() && all[i].0 == k;
                assert(self.inner@.contains_key(all[i].0) || filtered_by(
                    f,
                    all[i].0,
                    before[all[i].0],
                    Seq::empty(),
                ));
                assert(agrees(f, k, at_key(p, k)));
            }
            assert forall|k: K| #[trigger] self.inner@.contains_key(k) implies group_items(
                self.inner@[k],
            ) == before[k].filter(at_key(p, k)) by {
                assert(agrees(f, k, at_key(p, k)));
            }
            assert(self@ =~= retained(before, p));
        }
    }

    /// The first value of the group of `k`, which must be present with a value.
    pub fn index(&self, k: &K) -> (v: &i64)
        requires
            obeys_key_model::<K>(),
            builds_valid_hashers::<S>(),
            self@.contains_key(*k),
            self@[*k].len() > 0,
        ensures
            *v == self@[*k][0],
    {
        match self.inner.get(k) {
            Some(g) => &group_as_slice(g)[0],
            None => vstd::pervasive::unreached(),
        }
    }

    /// A handle on the group of `k`, through which the caller may write to its
    /// values, push and pop; `None` where `k` is absent. A group that the caller
    /// empties stays in the table, and its key stays present.
    pub fn get_all_mut(&mut self, k: &K) -> (r: Option<&mut Group>)
        requires
            obeys_key_model::<K>(),
            builds_valid_hashers::<S>(),
        ensures
            match r {
                Some(g) => old(self)@.contains_key(*k) && group_items(*g) == old(self)@[*k]
                    && final(self)@ =~= old(self)@.insert(*k, group_items(*final(g))),
                None => !old(self)@.contains_key(*k) && final(self)@ =~= old(self)@,
            },
    {
        table_get_mut(&mut self.inner, k)
    }

    /// The group of `k` as a slice that can be written to; `None` where `k` is
    /// absent or its group is empty.
    pub fn get_slice_mut(&mut self, k: &K) -> (r: Option<&mut [i64]>)
        requires
            obeys_key_model::<K>(),
            builds_valid_hashers::<S>(),
        ensures
            match r {
                Some(s) => {
                    &&& old(self)@.contains_key(*k)
                    &&& s@ == old(self)@[*k]
                    &&& s@.len() > 0
                    &&& final(self)@ =~= old(self)@.insert(*k, final(s)@)
                },
                None => values_of(old(self)@, *k).len() == 0 && final(self)@ =~= old(self)@,
            },
    {
        match table_get_mut(&mut self.inner, k) {
            Some(g) => {
                let s = group_as_mut_slice(g);
                if s.len() > 0 {
                    Some(s)
                } else {
                    None
                }
            },
            None => None,
        }
    }

    /// The first value of the group of `k`, to be written to; `None` where `k` is
    /// absent or its group is empty.
    pub fn get_mut(&mut self, k: &K) -> (r: Option<&mut i64>)
        requires
            obeys_key_model::<K>(),
            builds_valid_hashers::<S>(),
        ensures
            match r {
                Some(v) => values_of(old(self)@, *k).len() > 0 && *v == old(self)@[*k][0]
                    && final(self)@ =~= old(self)@.insert(*k, old(self)@[*k].update(0, *final(v))),
                None => values_of(old(self)@, *k).len() == 0 && final(self)@ =~= old(self)@,
            },
    {
        match table_get_mut(&mut self.inner, k) {
            Some(g) => {
                let s = group_as_mut_slice(g);
                if s.len() > 0 {
                    Some(&mut s[0])
                } else {
                    None
                }
            },
            None => None,
        }
    }

    /// Inserts each pair of `pairs`, from the first on.
    pub fn extend(&mut self, pairs: Vec<(K, i64)>)
        requires
            obeys_key_model::<K>(),
            builds_valid_hashers::<S>(),
        ensures
            final(self)@ == with_pairs(old(self)@, pairs@),
    {
        let ghost all = pairs@;
        for p in it: pairs
            invariant
                obeys_key_model::<K>(),
                builds_valid_hashers::<S>(),
                it.seq() == all,
                self@ == with_pairs(old(self)@, all.take(it.index())),
        {
            assert(all.take(it.index() + 1).drop_last() =~= all.take(it.index()));
            self.insert(p.0, p.1);
        }
        assert(all.take(all.len() as int) =~= all);
    }

    /// Appends the values of each group of `groups`, from the first on, under that
    /// group's key: what an `insert_many` of each group in turn does. A key that was
    /// absent is present afterwards exactly if one of its groups holds a value.
    pub fn extend_groups(&mut self, groups: Vec<(K, Vec<i64>)>)
        requires
            obeys_key_model::<K>(),
            builds_valid_hashers::<S>(),
        ensures
            final(self)@ == with_groups(old(self)@, groups_view(groups@)),
            forall|k: K| #[trigger]
                final(self)@.contains_key(k) <==> old(self)@.contains_key(k) || exists|i: int|
                    0 <= i < groups@.len() && groups@[i].0 == k && groups@[i].1@.len() > 0,
    {
        let ghost given = groups@;
        let ghost all = groups_view(given);
        for p in it: groups
            invariant
                obeys_key_model::<K>(),
                builds_valid_hashers::<S>(),
                all == groups_view(it.seq()),
                self@ == with_groups(old(self)@, all.take(it.index())),
        {
            assert(all.take(it.index() + 1).drop_last() =~= all.take(it.index()));
            match self.inner.entry(p.0) {
                Entry::Occupied(mut entry) => {
                    group_extend(entry.get_mut(), p.1);
                },
                Entry::Vacant(entry) => {
                    if p.1.len() > 0 {
                        entry.insert(group_from_vec(p.1));
                    }
                },
            }
            assert(self@ =~= with_groups(old(self)@, all.take(it.index() + 1)));
        }
        assert(all.take(all.len() as int) =~= all);
        assert forall|k: K| #[trigger]
            self@.contains_key(k) <==> old(self)@.contains_key(k) || exists|i: int|
                0 <= i < given.len() && given[i].0 == k && given[i].1@.len() > 0 by {
            lemma_groups_keys(old(self)@, all, k);
            if exists|i: int| 0 <= i < all.len() && all[i].0 == k && all[i].1.len() > 0 {
                let i = choose|i: int| 0 <= i < all.len() && all[i].0 == k && all[i].1.len() > 0;
                assert(given[i].0 == k && given[i].1@.len() > 0);
            }
            if exists|i: int| 0 <= i < given.len() && given[i].0 == k && given[i].1@.len() > 0 {
                let i = choose|i: int|
                    0 <= i < given.len() && given[i].0 == k && given[i].1@.len() > 0;
                assert(all[i].0 == k && all[i].1.len() > 0);
            }
        }
    }

    /// Whether the two multimaps have the same keys, each with the same values in the
    /// same order.
    pub fn eq(&self, other: &MultiMap<K, S>) -> (r: bool)
        requires
            obeys_key_model::<K>(),
            builds_valid_hashers::<S>(),
        ensures
            r == (self@ == other@),
    {
        proof {
            self.lemma_finite();
            other.lemma_finite();
        }
        if self.len() != other.len() {
            return false;
        }
        let ps = self.iter_all();
        let mut i: usize = 0;
        while i < ps.len()
            invariant
                obeys_key_model::<K>(),
                builds_valid_hashers::<S>(),
                i <= ps@.len(),
                forall|j: int|
                    0 <= j < ps@.len() ==> self@.contains_key(*(#[trigger] ps@[j]).0) && ps@[j].1@
                        == self@[*ps@[j].0],
                forall|j: int|
                    0 <= j < i ==> other@.contains_key(*(#[trigger] ps@[j]).0) && other@[*ps@[j].0]
                        == self@[*ps@[j].0],
            decreases ps@.len() - i,
        {
            let (k, s) = ps[i];
            match other.get_slice(k) {
                Some(t) => {
                    if !same_values(s, t) {
                        return false;
                    }
                },
                None => {
                    if s.len() > 0 || !other.contains_key(k) {
                        return false;
                    }
                    assert(other@[*k] =~= self@[*k]);
                },
            }
            i = i + 1;
        }
        proof {
            assert forall|k: K| self@.contains_key(k) implies other@.contains_key(k) && other@[k]
                == self@[k] by {
                let j = choose|j: int| 0 <= j < ps@.len() && *ps@[j].0 == k;
                assert(other@.contains_key(*ps@[j].0));
            }
            assert(self@.dom().subset_of(other@.dom()));
            vstd::set_lib::lemma_subset_equality(self@.dom(), other@.dom());
            assert(self@ =~= other@);
        }
        true
    }

    /// The keys that have a value, each with the first value of its group, in no
    /// particular order.
    pub fn iter(&self) -> (it: Iter<'_, K>)
        requires
            obeys_key_model::<K>(),
            builds_valid_hashers::<S>(),
        ensures
            forall|i: int|
                0 <= i < it@.len() ==> values_of(self@, (#[trigger] it@[i]).0).len() > 0 && it@[i].1
                    == self@[it@[i].0][0],
            forall|i: int, j: int| 0 <= i < j < it@.len() ==> it@[i].0 != it@[j].0,
            forall|k: K| #[trigger]
                values_of(self@, k).len() > 0 ==> exists|i: int|
                    0 <= i < it@.len() && it@[i].0 == k,
    {
        let ps = self.iter_all();
        let mut out: Vec<(&K, &i64)> = Vec::new();
        let ghost mut from: Seq<int> = Seq::empty();
        let mut i: usize = 0;
        while i < ps.len()
            invariant
                i <= ps@.len(),
                from.len() == out@.len(),
                forall|j: int|
                    0 <= j < ps@.len() ==> self@.contains_key(*(#[trigger] ps@[j]).0) && ps@[j].1@
                        == self@[*ps@[j].0],
                forall|j: int|
                    0 <= j < out@.len() ==> 0 <= #[trigger] from[j] < i
                        && out@[j].0 == ps@[from[j]].0 && ps@[from[j]].1@.len() > 0
                        && *out@[j].1 == ps@[from[j]].1@[0],
                forall|a: int, b: int| 0 <= a < b < out@.len() ==> from[a] < from[b],
                forall|t: int|
                    0 <= t < i && (#[trigger] ps@[t]).1@.len() > 0 ==> exists|j: int|
                        0 <= j < out@.len() && from[j] == t,
            decreases ps@.len() - i,
        {
            let (k, s) = ps[i];
            if s.len() > 0 {
                let ghost prev = from;
                out.push((k, &s[0]));
                proof {
                    from = from.push(i as int);
                    assert forall|t: int|
                        0 <= t < i + 1 && (#[trigger] ps@[t]).1@.len() > 0 implies exists|j: int|
                        0 <= j < out@.len() && from[j] == t by {
                        if t < i {
                            let j = choose|j: int| 0 <= j < prev.len() && prev[j] == t;
                            assert(from[j] == t);
                        } else {
                            assert(from[out@.len() - 1] == t);
                        }
                    }
                }
            }
            i = i + 1;
        }
        let it = Iter::over(out);
        proof {
            assert forall|k: K| #[trigger] values_of(self@, k).len() > 0 implies exists|i: int|
                0 <= i < it@.len() && it@[i].0 == k by {
                let t = choose|t: int| 0 <= t < ps@.len() && *ps@[t].0 == k;
                assert(ps@[t].1@.len() > 0);
                let j = choose|j: int| 0 <= j < out@.len() && from[j] == t;
                assert(it@[j].0 == k);
            }
            assert forall|a: int, b: int| 0 <= a < b < it@.len() implies it@[a].0 != it@[b].0 by {
                assert(from[a] < from[b]);
            }
            assert forall|i: int| 0 <= i < it@.len() implies values_of(
                self@,
                (#[trigger] it@[i]).0,
            ).len() > 0 && it@[i].1 == self@[it@[i].0][0] by {
                assert(it@[i] == (*out@[i].0, *out@[i].1));
                assert(self@.contains_key(*ps@[from[i]].0));
            }
        }
        it
    }

    /// Each key with its group as a slice that can be written to, in no particular
    /// order.
    pub fn iter_all_mut(&mut self) -> (ps: Vec<(&K, &mut [i64])>)
        requires
            obeys_key_model::<K>(),
            builds_valid_hashers::<S>(),
        ensures
            ps@.len() == old(self)@.len(),
            final(self)@.dom() == old(self)@.dom(),
            forall|i: int|
                0 <= i < ps@.len() ==> ({
                    let k = *(#[trigger] ps@[i]).0;
                    &&& old(self)@.contains_key(k)
                    &&& ps@[i].1@ == old(self)@[k]
                    &&& final(self)@[k] == final(ps@[i].1)@
                }),
            forall|i: int, j: int| 0 <= i < j < ps@.len() ==> *ps@[i].0 != *ps@[j].0,
            forall|k: K| #[trigger]
                old(self)@.contains_key(k) ==> exists|i: int|
                    0 <= i < ps@.len() && *ps@[i].0 == k,
    {
        assert(self@.dom() =~= self.inner@.dom());
        let ghost before = self@;
        let mut pairs = table_iter_mut(&mut self.inner);
        let ghost all = pairs@;
        let mut ps: Vec<(&K, &mut [i64])> = Vec::new();
        while pairs.len() > 0
            invariant
                pairs@ == all.take(pairs@.len() as int),
                pairs@.len() + ps@.len() == all.len(),
                forall|j: int|
                    0 <= j < ps@.len() ==> (#[trigger] ps@[j]).0 == all[all.len() - 1 - j].0
                        && ps@[j].1@ == group_items(*all[all.len() - 1 - j].1) && final(ps@[j].1)@
                        == group_items(*final(all[all.len() - 1 - j].1)),
            decreases pairs@.len(),
        {
            let (k, g) = pairs.pop().unwrap();
            ps.push((k, group_as_mut_slice(g)));
        }
        proof {
            assert forall|k: K| #[trigger] before.contains_key(k) implies exists|i: int|
                0 <= i < ps@.len() && *ps@[i].0 == k by {
                let i = choose|i: int| 0 <= i < all.len() && *all[i].0 == k;
                assert(*ps@[all.len() - 1 - i].0 == k);
            }
        }
        ps
    }

    /// The keys that have a value, each with the first value of its group, to be
    /// written to, in no particular order. Nothing else can be changed through the
    /// walk: the keys stay, and so does every value but the first of each group.
    pub fn iter_mut(&mut self) -> (it: IterMut<'_, K>)
        requires
            obeys_key_model::<K>(),
            builds_valid_hashers::<S>(),
        ensures
            final(self)@.dom() == old(self)@.dom(),
            forall|i: int|
                0 <= i < it.pairs@.len() ==> ({
                    let k = *(#[trigger] it.pairs@[i]).0;
                    &&& values_of(old(self)@, k).len() > 0
                    &&& *it.pairs@[i].1 == old(self)@[k][0]
                    &&& final(self)@[k] == old(self)@[k].update(0, *final(it.pairs@[i].1))
                }),
            forall|i: int, j: int|
                0 <= i < j < it.pairs@.len() ==> *it.pairs@[i].0 != *it.pairs@[j].0,
            forall|k: K| #[trigger]
                values_of(old(self)@, k).len() > 0 ==> exists|i: int|
                    0 <= i < it.pairs@.len() && *it.pairs@[i].0 == k,
            forall|k: K| #[trigger]
                old(self)@.contains_key(k) && old(self)@[k].len() == 0 ==> final(self)@[k] == old(
                    self,
                )@[k],
    {
        let ghost before = self@;
        let mut ps = self.iter_all_mut();
        let ghost all = ps@;
        let mut out: Vec<(&K, &mut i64)> = Vec::new();
        let ghost mut from: Seq<int> = Seq::empty();
        while ps.len() > 0
            invariant
                ps@ == all.take(ps@.len() as int),
                ps@.len() <= all.len(),
                from.len() == out@.len(),
                forall|j: int|
                    0 <= j < out@.len() ==> ps@.len() <= #[trigger] from[j] < all.len() && out@[j].0
                        == all[from[j]].0 && all[from[j]].1@.len() > 0 && *out@[j].1
                        == all[from[j]].1@[0] && final(all[from[j]].1)@ == all[from[j]].1@.update(
                        0,
                        *final(out@[j].1),
                    ),
                forall|a: int, b: int| 0 <= a < b < out@.len() ==> from[a] > from[b],
                forall|t: int|
                    ps@.len() <= t < all.len() && (#[trigger] all[t]).1@.len() > 0 ==> exists|
                        j: int,
                    | 0 <= j < out@.len() && from[j] == t,
                forall|t: int|
                    ps@.len() <= t < all.len() && (#[trigger] all[t]).1@.len() == 0
                        ==> final(all[t].1)@ == all[t].1@,
            decreases ps@.len(),
        {
            let ghost t = ps@.len() - 1;
            let ghost prev = from;
            let (k, s) = ps.pop().unwrap();
            if s.len() > 0 {
                out.push((k, &mut s[0]));
                proof {
                    from = from.push(t);
                    assert forall|u: int|
                        ps@.len() <= u < all.len() && (#[trigger] all[u]).1@.len()
                            > 0 implies exists|j: int| 0 <= j < out@.len() && from[j] == u by {
                        if u > t {
                            let j = choose|j: int| 0 <= j < prev.len() && prev[j] == u;
                            assert(from[j] == u);
                        } else {
                            assert(from[out@.len() - 1] == u);
                        }
                    }
                }
            }
        }
        let it = IterMut { pairs: out };
        proof {
            assert forall|k: K| #[trigger] values_of(before, k).len() > 0 implies exists|i: int|
                0 <= i < it.pairs@.len() && *it.pairs@[i].0 == k by {
                let t = choose|t: int| 0 <= t < all.len() && *all[t].0 == k;
                let j = choose|j: int| 0 <= j < out@.len() && from[j] == t;
                assert(*it.pairs@[j].0 == k);
            }
            assert forall|i: int, j: int| 0 <= i < j < it.pairs@.len() implies *it.pairs@[i].0
                != *it.pairs@[j].0 by {
                assert(from[i] > from[j]);
            }
            assert forall|i: int| 0 <= i < it.pairs@.len() implies values_of(
                before,
                *(#[trigger] it.pairs@[i]).0,
            ).len() > 0 && *it.pairs@[i].1 == before[*it.pairs@[i].0][0] && *all[from[i]].0
                == *it.pairs@[i].0 && final(all[from[i]].1)@ == before[*it.pairs@[i].0].update(
                0,
                *final(it.pairs@[i].1),
            ) by {
                let t = from[i];
                assert(before.contains_key(*all[t].0));
                assert(it.pairs@[i] == out@[i]);
            }
            assert forall|k: K| #[trigger]
                before.contains_key(k) && before[k].len() == 0 implies exists|t: int|
                0 <= t < all.len() && *all[t].0 == k && final(all[t].1)@ == before[k] by {
                let t = choose|t: int| 0 <= t < all.len() && *all[t].0 == k;
                assert(all[t].1@.len() == 0);
            }
        }
        it
    }
}

impl<K: Debug + Eq + Hash, S: BuildHasher> MultiMap<K, S> {
    /// The multimap written as a map from each key to the list of its values: every
    /// key once, in no particular order, and the values of each key in their order.
    /// Where it holds no key the text is `{}`.
    pub fn debug_string(&self) -> (s: String)
        requires
            obeys_key_model::<K>(),
            builds_valid_hashers::<S>(),
        ensures
            renders(self@, s@),
            self@.len() == 0 ==> s@ == seq!['{', '}'],
    {
        let ps = self.iter_all();
        let mut entries: Vec<(String, String)> = Vec::new();
        let mut i: usize = 0;
        while i < ps.len()
            invariant
                i <= ps@.len(),
                entries@.len() == i,
                forall|j: int|
                    0 <= j < i ==> (#[trigger] entries@[j]).1@ == list_text(ps@[j].1@),
            decreases ps@.len() - i,
        {
            let (k, vs) = ps[i];
            entries.push((key_text(k), values_text(vs)));
            i = i + 1;
        }
        let s = map_string(&entries);
        proof {
            let keys = Seq::new(ps@.len(), |j: int| *ps@[j].0);
            let names = Seq::new(ps@.len(), |j: int| entries@[j].0@);
            let shown = Seq::new(keys.len(), |j: int| (names[j], list_text(self@[keys[j]])));
            assert(texts_of(entries@) =~= shown);
            assert(is_rendering(self@, keys, names, s@));
            if self@.len() == 0 {
                assert(s@ =~= seq!['{', '}']);
            }
        }
        s
    }
}

impl<K: Eq + Hash, S: BuildHasher + Default> MultiMap<K, S> {
    /// The multimap that holds, for each key, the values that `pairs` gives it, in
    /// the order in which they stand in `pairs`.
    pub fn from_iter(pairs: Vec<(K, i64)>) -> (m: Self)
        requires
            obeys_key_model::<K>(),
            builds_valid_hashers::<S>(),
        ensures
            m@ == with_pairs(Map::empty(), pairs@),
    {
        let hint = pairs.len();
        let mut multimap = MultiMap::with_capacity_and_hasher(hint, S::default());
        multimap.extend(pairs);
        multimap
    }
}

impl<K: Eq + Hash, S: BuildHasher + Default> Default for MultiMap<K, S> {
    fn default() -> (m: Self)
        ensures
            m@ == (Map::<K, Seq<i64>>::empty()),
    {
        let m = MultiMap { inner: Default::default() };
        assert(m@ =~= Map::<K, Seq<i64>>::empty());
        m
    }
}

impl<K: Clone, S: Clone> Clone for MultiMap<K, S> {
    fn clone(&self) -> (m: Self)
        ensures
            m@ == self@,
    {
        let m = MultiMap { inner: self.inner.clone() };
        assert(m@ =~= self@);
        m
    }
}

/// Whether the two slices hold the same values in the same order.
pub fn same_values(a: &[i64], b: &[i64]) -> (r: bool)
    ensures
        r == (a@ == b@),
{
    if a.len() != b.len() {
        return false;
    }
    let mut i: usize = 0;
    while i < a.len()
        invariant
            a@.len() == b@.len(),
            i <= a@.len(),
            forall|j: int| 0 <= j < i ==> a@[j] == b@[j],
        decreases a@.len() - i,
    {
        if a[i] != b[i] {
            return false;
        }
        i = i + 1;
    }
    assert(a@ =~= b@);
    true
}

} // verus!
