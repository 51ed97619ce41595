//! Comparison of ternary integers of the same length, from the most
//! significant trit down.
use crate::ternary::bigint::{
    lemma_btrits_less, lemma_btrits_same_at, lemma_utrits_less, lemma_utrits_same_at, TritNum,
};
use crate::ternary::trit::{Btrit, Utrit};
use std::cmp::Ordering;
use vstd::prelude::*;

verus! {

/// The ordering of two numbers.
pub open spec fn ordering_of(x: int, y: int) -> Ordering {
    if x < y {
        Ordering::Less
    } else if x == y {
        Ordering::Equal
    } else {
        Ordering::Greater
    }
}

impl<const N: usize> TritNum<Btrit, N> {
    /// Orders by value: the first trit from the top where the two differ
    /// decides.
    pub fn cmp(&self, other: &Self) -> (order: Ordering)
        ensures
            order == ordering_of(self.value(), other.value()),
            order == Ordering::Equal <==> self@ == other@,
    {
        let a = self.as_trits();
        let b = other.as_trits();
        let mut i: usize = a.len();
        while i > 0
            invariant
                a@ == self@,
                b@ == other@,
                a@.len() == N,
                b@.len() == N,
                i <= N,
                forall|k: int| i <= k < N ==> a@[k] == b@[k],
            decreases i,
        {
            i = i - 1;
            let x = a[i].value();
            let y = b[i].value();
            if x < y {
                proof {
                    lemma_btrits_less(a@, b@, i);
                }
                return Ordering::Less;
            }
            if x > y {
                proof {
                    lemma_btrits_less(b@, a@, i);
                }
                return Ordering::Greater;
            }
            proof {
                lemma_btrits_same_at(a@, b@, i);
            }
        }
        assert(a@ =~= b@);
        Ordering::Equal
    }

    /// The ordering by value, which is total.
    pub fn partial_cmp(&self, other: &Self) -> (order: Option<Ordering>)
        ensures
            order == Some(ordering_of(self.value(), other.value())),
    {
        Some(self.cmp(other))
    }

    /// Whether the two integers have the same trits.
    pub fn eq(&self, other: &Self) -> (equal: bool)
        ensures
            equal == (self@ == other@),
            equal == (self.value() == other.value()),
    {
        match self.cmp(other) {
            Ordering::Equal => true,
            _ => false,
        }
    }
}

impl<const N: usize> TritNum<Utrit, N> {
    /// Orders by value: the first trit from the top where the two differ
    /// decides.
    pub fn cmp(&self, other: &Self) -> (order: Ordering)
        ensures
            order == ordering_of(self.value(), other.value()),
            order == Ordering::Equal <==> self@ == other@,
    {
        let a = self.as_trits();
        let b = other.as_trits();
        let mut i: usize = a.len();
        while i > 0
            invariant
                a@ == self@,
                b@ == other@,
                a@.len() == N,
                b@.len() == N,
                i <= N,
                forall|k: int| i <= k < N ==> a@[k] == b@[k],
            decreases i,
        {
            i = i - 1;
            let x = a[i].value();
            let y = b[i].value();
            if x < y {
                proof {
                    lemma_utrits_less(a@, b@, i);
                }
                return Ordering::Less;
            }
            if x > y {
                proof {
                    lemma_utrits_less(b@, a@, i);
                }
                return Ordering::Greater;
            }
            proof {
                lemma_utrits_same_at(a@, b@, i);
            }
        }
        assert(a@ =~= b@);
        Ordering::Equal
    }

    /// The ordering by value, which is total.
    pub fn partial_cmp(&self, other: &Self) -> (order: Option<Ordering>)
        ensures
            order == Some(ordering_of(self.value(), other.value())),
    {
        Some(self.cmp(other))
    }

    /// Whether the two integers have the same trits.
    pub fn eq(&self, other: &Self) -> (equal: bool)
        ensures
            equal == (self@ == other@),
            equal == (self.value() == other.value()),
    {
        match self.cmp(other) {
            Ordering::Equal => true,
            _ => false,
        }
    }
}

} // verus!
