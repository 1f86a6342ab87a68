//! What the multimap needs of `std::collections::HashMap` beyond the operations
//! that vstd specifies. Each function states what one method of the table does.

use crate::group::Group;
use std::collections::HashMap;
use std::hash::{BuildHasher, Hash};
use vstd::prelude::*;
use vstd::std_specs::hash::*;

verus! {

/// `HashMap::with_hasher`: the result holds no key.
#[verifier::external_body]
pub(crate) fn table_with_hasher<K, S>(hash_builder: S) -> (m: HashMap<K, Group, S>)
    ensures
        m@ == (Map::<K, Group>::empty()),
{
    HashMap::with_hasher(hash_builder)
}

/// `HashMap::with_capacity_and_hasher`: the result holds no key.
#[verifier::external_body]
pub(crate) fn table_with_capacity_and_hasher<K, S>(capacity: usize, hash_builder: S) -> (m:
    HashMap<K, Group, S>)
    ensures
        m@ == (Map::<K, Group>::empty()),
{
    HashMap::with_capacity_and_hasher(capacity, hash_builder)
}

/// `HashMap::capacity`: the number of keys that the table has room for. It depends
/// on what the allocator gave, so nothing is stated of it.
#[verifier::external_body]
pub(crate) fn table_capacity<K, S>(m: &HashMap<K, Group, S>) -> (n: usize) {
    m.capacity()
}

/// `HashMap::drain`, collected: the table is left empty, and the result holds each
/// of its entries once, in no particular order.
#[verifier::external_body]
pub(crate) fn table_drain<K: Eq + Hash, S: BuildHasher>(m: &mut HashMap<K, Group, S>) -> (pairs:
    Vec<(K, Group)>)
    requires
        obeys_key_model::<K>(),
        builds_valid_hashers::<S>(),
    ensures
        final(m)@ == (Map::<K, Group>::empty()),
        pairs@.len() == old(m)@.len(),
        forall|i: int|
            0 <= i < pairs@.len() ==> old(m)@.contains_key(#[trigger] pairs@[i].0) && old(
                m,
            )@[pairs@[i].0] == pairs@[i].1,
        forall|i: int, j: int| 0 <= i < j < pairs@.len() ==> pairs@[i].0 != pairs@[j].0,
        forall|k: K| #[trigger]
            old(m)@.contains_key(k) ==> exists|i: int| 0 <= i < pairs@.len() && pairs@[i].0 == k,
{
    m.drain().collect()
}

/// `HashMap::get_mut`: a handle on the group of `k`, through which the caller may
/// change that group and nothing else; `None`, and the table unchanged, where `k`
/// is absent.
#[verifier::external_body]
pub(crate) fn table_get_mut<'a, K: Eq + Hash, S: BuildHasher>(
    m: &'a mut HashMap<K, Group, S>,
    k: &K,
) -> (r: Option<&'a mut Group>)
    requires
        obeys_key_model::<K>(),
        builds_valid_hashers::<S>(),
    ensures
        match r {
            Some(g) => old(m)@.contains_key(*k) && *g == old(m)@[*k] && final(m)@ == old(
                m,
            )@.insert(*k, *final(g)),
            None => !old(m)@.contains_key(*k) && final(m)@ == old(m)@,
        },
{
    m.get_mut(k)
}

/// `HashMap::iter_mut`, collected: each key of the table, once and in no particular
/// order, with a handle on its group. What the caller leaves behind the handles is
/// what the table holds afterwards, under the same keys.
#[verifier::external_body]
pub(crate) fn table_iter_mut<'a, K: Eq + Hash, S: BuildHasher>(
    m: &'a mut HashMap<K, Group, S>,
) -> (pairs: Vec<(&'a K, &'a mut Group)>)
    requires
        obeys_key_model::<K>(),
        builds_valid_hashers::<S>(),
    ensures
        pairs@.len() == old(m)@.len(),
        final(m)@.dom() == old(m)@.dom(),
        forall|i: int|
            0 <= i < pairs@.len() ==> old(m)@.contains_key(*(#[trigger] pairs@[i]).0) && old(
                m,
            )@[*pairs@[i].0] == *pairs@[i].1 && final(m)@[*pairs@[i].0] == *final(pairs@[i].1),
        forall|i: int, j: int| 0 <= i < j < pairs@.len() ==> *pairs@[i].0 != *pairs@[j].0,
        forall|k: K| #[trigger]
            old(m)@.contains_key(k) ==> exists|i: int| 0 <= i < pairs@.len() && *pairs@[i].0 == k,
{
    m.iter_mut().collect()
}

} // verus!
