//! What holds of the multimap's operations taken together, stated over the maps
//! that the operations' contracts speak of.

use crate::multimap::{appended, at_key, retained, values_of, with_groups, with_pairs};
use vstd::prelude::*;

verus! {

/// The values that `pairs` gives to `k`, in the order in which they stand in `pairs`.
pub open spec fn values_for<K>(pairs: Seq<(K, i64)>, k: K) -> Seq<i64>
    decreases pairs.len(),
{
    if pairs.len() == 0 {
        Seq::empty()
    } else if pairs.last().0 == k {
        values_for(pairs.drop_last(), k).push(pairs.last().1)
    } else {
        values_for(pairs.drop_last(), k)
    }
}

/// After any run of inserts, the group of a key is what it was before, followed by
/// the values inserted under that key, in the order of the inserts; and a key is
/// present if it was before or a value was inserted under it.
pub proof fn lemma_inserts_keep_order<K>(m: Map<K, Seq<i64>>, pairs: Seq<(K, i64)>, k: K)
    ensures
        values_of(with_pairs(m, pairs), k) == values_of(m, k) + values_for(pairs, k),
        with_pairs(m, pairs).contains_key(k) <==> m.contains_key(k) || values_for(pairs, k).len()
            > 0,
    decreases pairs.len(),
{
    if pairs.len() == 0 {
        assert(values_of(m, k) + Seq::<i64>::empty() =~= values_of(m, k));
    } else {
        let rest = pairs.drop_last();
        let last = pairs.last();
        lemma_inserts_keep_order(m, rest, k);
        lemma_inserts_keep_order(m, rest, last.0);
        let before = with_pairs(m, rest);
        if last.0 == k {
            assert(values_of(before, k) + seq![last.1] =~= values_of(m, k) + values_for(pairs, k));
        }
    }
}

/// A multimap built from pairs alone holds, for each key, exactly the values that
/// the pairs give it, in their order, and holds no other key.
pub proof fn lemma_built_from_pairs<K>(pairs: Seq<(K, i64)>, k: K)
    ensures
        values_of(with_pairs(Map::empty(), pairs), k) == values_for(pairs, k),
        with_pairs(Map::empty(), pairs).contains_key(k) <==> values_for(pairs, k).len() > 0,
{
    lemma_inserts_keep_order(Map::empty(), pairs, k);
    assert(Seq::<i64>::empty() + values_for(pairs, k) =~= values_for(pairs, k));
}

/// After `insert(k, v)` the group of `k` is what it was, followed by `v`; where `k`
/// had no value before, a `remove(k)` that follows returns exactly `[v]`, and after
/// it `k` is absent and has no first value.
pub proof fn lemma_insert_then_remove<K>(m: Map<K, Seq<i64>>, k: K, v: i64)
    ensures
        appended(m, k, seq![v]).contains_key(k),
        appended(m, k, seq![v])[k] == values_of(m, k).push(v),
        values_of(m, k).len() == 0 ==> appended(m, k, seq![v])[k] == seq![v],
        !appended(m, k, seq![v]).remove(k).contains_key(k),
        values_of(appended(m, k, seq![v]).remove(k), k).len() == 0,
{
    assert(values_of(m, k) + seq![v] =~= values_of(m, k).push(v));
    if values_of(m, k).len() == 0 {
        assert(values_of(m, k).push(v) =~= seq![v]);
    }
}

/// `insert_many` puts the values handed in behind those that the key has, and the key
/// is present afterwards exactly if it was before or a value was handed in. On a key
/// that is absent the group is exactly the values handed in, and a second
/// `insert_many` appends behind the first: the two together are one `insert_many` of
/// the values of both, in order.
pub proof fn lemma_insert_many_appends<K>(m: Map<K, Seq<i64>>, k: K, a: Seq<i64>, b: Seq<i64>)
    ensures
        values_of(appended(m, k, a), k) == values_of(m, k) + a,
        appended(m, k, a).contains_key(k) <==> m.contains_key(k) || a.len() > 0,
        !m.contains_key(k) ==> values_of(appended(m, k, a), k) == a,
        !m.contains_key(k) ==> values_of(appended(appended(m, k, a), k, b), k) == a + b,
        appended(appended(m, k, a), k, b) == appended(m, k, a + b),
{
    assert((values_of(m, k) + a) + b =~= values_of(m, k) + (a + b));
    assert(values_of(m, k) + Seq::<i64>::empty() =~= values_of(m, k));
    assert(values_of(appended(m, k, a), k) =~= values_of(m, k) + a);
    assert(values_of(appended(m, k, a), k) + Seq::<i64>::empty() =~= values_of(
        appended(m, k, a),
        k,
    ));
    if a.len() == 0 {
        assert(a + b =~= b);
    }
    if b.len() == 0 {
        assert(a + b =~= a);
    }
    assert(appended(appended(m, k, a), k, b) =~= appended(m, k, a + b));
    if !m.contains_key(k) {
        assert(Seq::<i64>::empty() + a =~= a);
        assert(Seq::<i64>::empty() + (a + b) =~= a + b);
    }
}

/// The values `vs`, each paired with the key `k`.
pub open spec fn under_key<K>(k: K, vs: Seq<i64>) -> Seq<(K, i64)> {
    Seq::new(vs.len(), |i: int| (k, vs[i]))
}

/// An `insert_many` does what an `insert` of each value in turn does.
pub proof fn lemma_insert_many_is_repeated_insert<K>(m: Map<K, Seq<i64>>, k: K, vs: Seq<i64>)
    ensures
        with_pairs(m, under_key(k, vs)) == appended(m, k, vs),
    decreases vs.len(),
{
    let pairs = under_key(k, vs);
    if vs.len() == 0 {
        assert(values_of(m, k) + vs =~= values_of(m, k));
        assert(appended(m, k, vs) =~= m);
    } else {
        let rest = vs.drop_last();
        lemma_insert_many_is_repeated_insert(m, k, rest);
        assert(pairs.drop_last() =~= under_key(k, rest));
        assert(pairs.last() == (k, vs.last()));
        lemma_insert_many_appends(m, k, rest, seq![vs.last()]);
        assert(rest + seq![vs.last()] =~= vs);
    }
}

/// After the groups of `groups` have been appended, a key is present exactly if it
/// was before or one of its groups holds a value.
pub proof fn lemma_groups_keys<K>(m: Map<K, Seq<i64>>, groups: Seq<(K, Seq<i64>)>, k: K)
    ensures
        with_groups(m, groups).contains_key(k) <==> m.contains_key(k) || exists|i: int|
            0 <= i < groups.len() && groups[i].0 == k && groups[i].1.len() > 0,
    decreases groups.len(),
{
    if groups.len() > 0 {
        let rest = groups.drop_last();
        lemma_groups_keys(m, rest, k);
        if exists|i: int| 0 <= i < rest.len() && rest[i].0 == k && rest[i].1.len() > 0 {
            let i = choose|i: int| 0 <= i < rest.len() && rest[i].0 == k && rest[i].1.len() > 0;
            assert(groups[i].0 == k && groups[i].1.len() > 0);
        }
        if exists|i: int| 0 <= i < groups.len() && groups[i].0 == k && groups[i].1.len() > 0 {
            let i = choose|i: int|
                0 <= i < groups.len() && groups[i].0 == k && groups[i].1.len() > 0;
            if i < rest.len() {
                assert(rest[i].0 == k && rest[i].1.len() > 0);
            }
        }
    }
}

/// No key of `m` has an empty group.
pub open spec fn no_empty_group<K>(m: Map<K, Seq<i64>>) -> bool {
    forall|k: K| #[trigger] m.contains_key(k) ==> m[k].len() > 0
}

/// The inserts and `remove` leave no key with an empty group where there was none
/// before.
pub proof fn lemma_no_empty_group_kept<K>(
    m: Map<K, Seq<i64>>,
    k: K,
    vs: Seq<i64>,
    pairs: Seq<(K, i64)>,
    groups: Seq<(K, Seq<i64>)>,
)
    requires
        no_empty_group(m),
    ensures
        no_empty_group(appended(m, k, vs)),
        no_empty_group(m.remove(k)),
        no_empty_group(with_pairs(m, pairs)),
        no_empty_group(with_groups(m, groups)),
    decreases pairs.len() + groups.len(),
{
    if pairs.len() > 0 {
        lemma_no_empty_group_kept(m, k, vs, pairs.drop_last(), Seq::empty());
        lemma_no_empty_group_kept(
            with_pairs(m, pairs.drop_last()),
            pairs.last().0,
            seq![pairs.last().1],
            Seq::empty(),
            Seq::empty(),
        );
    }
    if groups.len() > 0 {
        lemma_no_empty_group_kept(m, k, vs, Seq::empty(), groups.drop_last());
        lemma_no_empty_group_kept(
            with_groups(m, groups.drop_last()),
            groups.last().0,
            groups.last().1,
            Seq::empty(),
            Seq::empty(),
        );
    }
}

/// What is left when only the pairs of which `p` holds are kept has no key with an
/// empty group, whatever `m` held.
pub proof fn lemma_retained_has_no_empty_group<K>(m: Map<K, Seq<i64>>, p: spec_fn(K, i64) -> bool)
    ensures
        no_empty_group(retained(m, p)),
{
}

/// Inserts under two different keys give the same multimap in either order.
pub proof fn lemma_insert_order_across_keys<K>(
    m: Map<K, Seq<i64>>,
    k1: K,
    v1: i64,
    k2: K,
    v2: i64,
)
    requires
        k1 != k2,
    ensures
        appended(appended(m, k1, seq![v1]), k2, seq![v2]) == appended(
            appended(m, k2, seq![v2]),
            k1,
            seq![v1],
        ),
{
    assert(appended(appended(m, k1, seq![v1]), k2, seq![v2]) =~= appended(
        appended(m, k2, seq![v2]),
        k1,
        seq![v1],
    ));
}

/// Inserts of two different values under one key give different multimaps in the
/// two orders.
pub proof fn lemma_insert_order_within_group<K>(m: Map<K, Seq<i64>>, k: K, v1: i64, v2: i64)
    requires
        v1 != v2,
    ensures
        appended(appended(m, k, seq![v1]), k, seq![v2]) != appended(
            appended(m, k, seq![v2]),
            k,
            seq![v1],
        ),
{
    let n = values_of(m, k).len() as int;
    let one = appended(appended(m, k, seq![v1]), k, seq![v2]);
    let two = appended(appended(m, k, seq![v2]), k, seq![v1]);
    assert(one[k][n] == v1);
    assert(two[k][n] == v2);
}

/// Equality of multimaps is symmetric.
pub proof fn lemma_eq_symmetric<K>(a: Map<K, Seq<i64>>, b: Map<K, Seq<i64>>)
    ensures
        (a == b) == (b == a),
{
}

/// After only the pairs of which `p` holds have been kept, no group is empty, every
/// value that is left is one of which `p` holds and that its group held before, and
/// a key is left exactly if `p` holds of one of its values.
pub proof fn lemma_retained_leaves_kept<K>(m: Map<K, Seq<i64>>, p: spec_fn(K, i64) -> bool, k: K)
    ensures
        retained(m, p).contains_key(k) ==> retained(m, p)[k].len() > 0,
        retained(m, p).contains_key(k) ==> forall|i: int|
            0 <= i < retained(m, p)[k].len() ==> p(k, #[trigger] retained(m, p)[k][i])
                && m[k].contains(retained(m, p)[k][i]),
        retained(m, p).contains_key(k) <==> m.contains_key(k) && exists|i: int|
            0 <= i < m[k].len() && p(k, #[trigger] m[k][i]),
{
    broadcast use {
        Seq::lemma_filter_pred,
        Seq::lemma_filter_contains,
        Seq::lemma_filter_contains_rev,
    };

    if m.contains_key(k) {
        let kept = m[k].filter(at_key(p, k));
        assert forall|i: int| 0 <= i < kept.len() implies p(k, #[trigger] kept[i]) && m[k].contains(
            kept[i],
        ) by {
            assert(kept.contains(kept[i]));
            assert(at_key(p, k)(kept[i]));
        }
        if kept.len() > 0 {
            assert(m[k].contains(kept[0]));
            let i = choose|i: int| 0 <= i < m[k].len() && m[k][i] == kept[0];
            assert(p(k, m[k][i]));
        }
        if exists|i: int| 0 <= i < m[k].len() && p(k, #[trigger] m[k][i]) {
            let i = choose|i: int| 0 <= i < m[k].len() && p(k, #[trigger] m[k][i]);
            assert(at_key(p, k)(m[k][i]));
            assert(kept.contains(m[k][i]));
        }
    }
}

} // verus!
