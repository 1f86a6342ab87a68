//! The storage of one key's values: a small vector that keeps a single value inline
//! and moves to the heap when a second one arrives.
//!
//! Verus does not look inside the vector. What it holds is named by [`group_items`],
//! and each function below states, over that name, what one method of the vector does.

use vstd::prelude::*;

verus! {

/// The storage of one group: a `smallvec::SmallVec` with room for one value inline.
#[verifier::external_body]
pub struct Group {
    items: smallvec::SmallVec<[i64; 1]>,
}

/// The values that a group holds, oldest first.
pub uninterp spec fn group_items(g: Group) -> Seq<i64>;

/// `f` can be asked about every pair of a key and a value.
pub open spec fn askable<K, F: Fn(&K, &i64) -> bool>(f: F) -> bool {
    forall|k: K, v: i64| #[trigger] call_requires(f, (&k, &v))
}

/// Under the key `k`, whatever `f` answers about a value is what `p` says of it.
pub open spec fn agrees<K, F: Fn(&K, &i64) -> bool>(f: F, k: K, p: spec_fn(i64) -> bool) -> bool {
    forall|v: i64, b: bool| #[trigger] call_ensures(f, (&k, &v), b) ==> b == p(v)
}

/// `after` holds the values of `before` that `f` keeps under the key `k`, in their
/// order: it is `before` filtered by any predicate that `f` answers by.
pub open spec fn filtered_by<K, F: Fn(&K, &i64) -> bool>(
    f: F,
    k: K,
    before: Seq<i64>,
    after: Seq<i64>,
) -> bool {
    forall|p: spec_fn(i64) -> bool| #[trigger] agrees(f, k, p) ==> after == before.filter(p)
}

/// `SmallVec::new`: the result holds nothing.
#[verifier::external_body]
pub(crate) fn group_new() -> (g: Group)
    ensures
        group_items(g) == Seq::<i64>::empty(),
{
    Group { items: smallvec::SmallVec::new() }
}

/// `SmallVec::push`: the value is appended behind those that the group holds.
#[verifier::external_body]
pub(crate) fn group_push(g: &mut Group, v: i64)
    ensures
        group_items(*final(g)) == group_items(*old(g)).push(v),
{
    g.items.push(v)
}

/// `SmallVec::pop`: the last value leaves the group and is returned; an empty group
/// stays as it is and gives `None`.
#[verifier::external_body]
pub(crate) fn group_pop(g: &mut Group) -> (r: Option<i64>)
    ensures
        match r {
            Some(v) => group_items(*old(g)).len() > 0 && v == group_items(*old(g)).last()
                && group_items(*final(g)) == group_items(*old(g)).drop_last(),
            None => group_items(*old(g)).len() == 0 && group_items(*final(g)) == group_items(
                *old(g),
            ),
        },
{
    g.items.pop()
}

/// `SmallVec::as_slice`: the slice holds the values of the group, in order.
#[verifier::external_body]
pub(crate) fn group_as_slice(g: &Group) -> (s: &[i64])
    ensures
        s@ == group_items(*g),
{
    g.items.as_slice()
}

/// `SmallVec::extend`: the values of `vs` are appended in order.
#[verifier::external_body]
pub(crate) fn group_extend(g: &mut Group, vs: Vec<i64>)
    ensures
        group_items(*final(g)) == group_items(*old(g)) + vs@,
{
    g.items.extend(vs)
}

/// `SmallVec::from_iter`, reached through `collect`: the result holds the values of `vs`
/// in order.
#[verifier::external_body]
pub(crate) fn group_collect(vs: Vec<i64>) -> (g: Group)
    ensures
        group_items(g) == vs@,
{
    Group { items: vs.into_iter().collect() }
}

/// `SmallVec::from` for a `Vec`: the result holds the values of `vs` in order.
#[verifier::external_body]
pub(crate) fn group_from_vec(vs: Vec<i64>) -> (g: Group)
    ensures
        group_items(g) == vs@,
{
    Group { items: smallvec::SmallVec::from(vs) }
}

/// `SmallVec::from_slice`: the result holds a copy of the values of `vs` in order.
#[verifier::external_body]
pub(crate) fn group_from_slice(vs: &[i64]) -> (g: Group)
    ensures
        group_items(g) == vs@,
{
    Group { items: smallvec::SmallVec::from_slice(vs) }
}

/// `SmallVec::extend_from_slice`: a copy of the values of `vs` is appended in order.
#[verifier::external_body]
pub(crate) fn group_extend_from_slice(g: &mut Group, vs: &[i64])
    ensures
        group_items(*final(g)) == group_items(*old(g)) + vs@,
{
    g.items.extend_from_slice(vs)
}

/// `SmallVec::retain`, with `f` asked about the key `k` and each value in turn: the
/// values that `f` keeps stay, in their order, and the others leave.
#[verifier::external_body]
pub(crate) fn group_retain<K, F: Fn(&K, &i64) -> bool>(g: &mut Group, k: &K, f: &F)
    requires
        askable::<K, F>(*f),
    ensures
        filtered_by(*f, *k, group_items(*old(g)), group_items(*final(g))),
{
    g.items.retain(|v| ask(f, k, v))
}

/// Asks `f` about the value `v` under the key `k`.
pub fn ask<K, F: Fn(&K, &i64) -> bool>(f: &F, k: &K, v: &i64) -> (b: bool)
    requires
        askable::<K, F>(*f),
    ensures
        call_ensures(*f, (k, v), b),
{
    f(k, v)
}

/// `SmallVec::clone`: the result holds the same values in the same order.
#[verifier::external_body]
pub(crate) fn group_clone(g: &Group) -> (r: Group)
    ensures
        group_items(r) == group_items(*g),
{
    Group { items: g.items.clone() }
}

impl Clone for Group {
    fn clone(&self) -> (r: Self)
        ensures
            group_items(r) == group_items(*self),
    {
        group_clone(self)
    }
}

/// `SmallVec::into_iter`, collected: the values of the group, in order.
#[verifier::external_body]
pub(crate) fn group_into_vec(g: Group) -> (vs: Vec<i64>)
    ensures
        vs@ == group_items(g),
{
    g.items.into_iter().collect()
}

/// `SmallVec::as_mut_slice`: the slice holds the values of the group, in order, and
/// what the caller writes into it is what the group holds afterwards.
#[verifier::external_body]
pub(crate) fn group_as_mut_slice(g: &mut Group) -> (s: &mut [i64])
    ensures
        s@ == group_items(*old(g)),
        group_items(*final(g)) == final(s)@,
{
    g.items.as_mut_slice()
}

/// What a handle on one key's group offers: its values as a slice that can be
/// written to, and a push and a pop at its end.
pub trait MultiMapValue {
    type Item;

    /// The values behind the handle, oldest first.
    spec fn values(&self) -> Seq<Self::Item>;

    /// The values as a slice; what is written into it is what the group holds
    /// afterwards.
    fn as_slice(&mut self) -> (s: &mut [Self::Item])
        ensures
            s@ == old(self).values(),
            final(self).values() == final(s)@,
    ;

    /// Appends `value`.
    fn push(&mut self, value: Self::Item)
        ensures
            final(self).values() == old(self).values().push(value),
    ;

    /// Takes the last value out; `None` where there is none.
    fn pop(&mut self) -> (r: Option<Self::Item>)
        ensures
            match r {
                Some(v) => old(self).values().len() > 0 && v == old(self).values().last()
                    && final(self).values() == old(self).values().drop_last(),
                None => old(self).values().len() == 0 && final(self).values() == old(
                    self,
                ).values(),
            },
    ;
}

impl MultiMapValue for Group {
    type Item = i64;

    open spec fn values(&self) -> Seq<i64> {
        group_items(*self)
    }

    fn as_slice(&mut self) -> (s: &mut [i64]) {
        group_as_mut_slice(self)
    }

    fn push(&mut self, value: i64) {
        group_push(self, value)
    }

    fn pop(&mut self) -> (r: Option<i64>) {
        group_pop(self)
    }
}

} // verus!
