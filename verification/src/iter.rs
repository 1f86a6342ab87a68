//! A walk over the keys of a multimap, each with the first value of its group.

use vstd::prelude::*;

verus! {

/// The pairs that a walk has not handed out yet, in the order in which it will.
pub open spec fn pairs_from<K>(pairs: Seq<(&K, &i64)>, from: int) -> Seq<(K, i64)> {
    Seq::new((pairs.len() - from) as nat, |i: int| (*pairs[from + i].0, *pairs[from + i].1))
}

/// A walk over pairs of a key and the first value of its group. Its view is the
/// sequence of pairs that it has not handed out yet.
pub struct Iter<'a, K> {
    pairs: Vec<(&'a K, &'a i64)>,
    pos: usize,
}

impl<'a, K> View for Iter<'a, K> {
    type V = Seq<(K, i64)>;

    closed spec fn view(&self) -> Seq<(K, i64)> {
        pairs_from(self.pairs@, self.pos as int)
    }
}

impl<'a, K> Iter<'a, K> {
    #[verifier::type_invariant]
    spec fn in_range(&self) -> bool {
        self.pos <= self.pairs@.len()
    }

    /// A walk that hands out `pairs` from the first on.
    pub(crate) fn over(pairs: Vec<(&'a K, &'a i64)>) -> (it: Self)
        ensures
            it@ == pairs_from(pairs@, 0),
    {
        Iter { pairs, pos: 0 }
    }

    /// The next pair, or `None` when the walk is over.
    pub fn next(&mut self) -> (r: Option<(&'a K, &'a i64)>)
        ensures
            match r {
                Some(p) => old(self)@.len() > 0 && (*p.0, *p.1) == old(self)@[0] && final(self)@
                    == old(self)@.drop_first(),
                None => old(self)@.len() == 0 && final(self)@ == old(self)@,
            },
    {
        proof {
            use_type_invariant(&*self);
        }
        if self.pos < self.pairs.len() {
            let p = self.pairs[self.pos];
            self.pos = self.pos + 1;
            assert(self@ =~= old(self)@.drop_first());
            Some(p)
        } else {
            None
        }
    }

    /// The number of pairs that are left.
    pub fn len(&self) -> (n: usize)
        ensures
            n == self@.len(),
    {
        proof {
            use_type_invariant(self);
        }
        self.pairs.len() - self.pos
    }

    /// The bounds on the number of pairs that are left: both are that number.
    pub fn size_hint(&self) -> (r: (usize, Option<usize>))
        ensures
            r.0 == self@.len(),
            r.1 == Some(r.0),
    {
        let n = self.len();
        (n, Some(n))
    }
}

/// A walk over pairs of a key and the first value of its group, to be written to.
/// The pairs that are left stand in `pairs`; the walk hands them out from the last
/// one down.
pub struct IterMut<'a, K> {
    pub pairs: Vec<(&'a K, &'a mut i64)>,
}

impl<'a, K> IterMut<'a, K> {
    /// The next pair, or `None` when the walk is over.
    pub fn next(&mut self) -> (r: Option<(&'a K, &'a mut i64)>)
        ensures
            match r {
                Some(p) => {
                    &&& old(self).pairs@.len() > 0
                    &&& p == old(self).pairs@.last()
                    &&& final(self).pairs@ == old(self).pairs@.drop_last()
                },
                None => old(self).pairs@.len() == 0 && final(self).pairs@ == old(self).pairs@,
            },
    {
        self.pairs.pop()
    }

    /// The number of pairs that are left.
    pub fn len(&self) -> (n: usize)
        ensures
            n == self.pairs@.len(),
    {
        self.pairs.len()
    }

    /// The bounds on the number of pairs that are left: both are that number.
    pub fn size_hint(&self) -> (r: (usize, Option<usize>))
        ensures
            r.0 == self.pairs@.len(),
            r.1 == Some(r.0),
    {
        let n = self.pairs.len();
        (n, Some(n))
    }
}

} // verus!
