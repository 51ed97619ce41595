//! Fixed-length little-endian ternary integers: `N` trits, the least
//! significant first, either balanced (`Btrit`) or unbalanced (`Utrit`).
use crate::ternary::trit::{btrit_value, utrit_value, Btrit, Utrit};
use crate::ternary::value::{
    digits_value, lemma_digits_value_constant, lemma_digits_value_mono, lemma_digits_value_shift,
    lemma_digits_value_lexicographic, lemma_digits_value_update, lemma_pow3, pow3, repunit,
};
use vstd::prelude::*;

verus! {

/// The digits of balanced trits, as numbers.
pub open spec fn btrit_digits(t: Seq<Btrit>) -> Seq<int> {
    t.map_values(|x: Btrit| btrit_value(x))
}

/// The digits of unbalanced trits, as numbers.
pub open spec fn utrit_digits(t: Seq<Utrit>) -> Seq<int> {
    t.map_values(|x: Utrit| utrit_value(x))
}

/// The value of balanced trits, the least significant first.
pub open spec fn btrits_value(t: Seq<Btrit>) -> int {
    digits_value(btrit_digits(t), t.len())
}

/// The value of unbalanced trits, the least significant first.
pub open spec fn utrits_value(t: Seq<Utrit>) -> int {
    digits_value(utrit_digits(t), t.len())
}

/// An integer of exactly `N` trits of type `T`, the least significant
/// first.
#[derive(Debug)]
pub struct TritNum<T, const N: usize> {
    pub(crate) trits: Vec<T>,
}

/// A 242-trit integer.
pub type T242<T> = TritNum<T, 242>;

/// A 243-trit integer.
pub type T243<T> = TritNum<T, 243>;

impl<T, const N: usize> View for TritNum<T, N> {
    type V = Seq<T>;

    closed spec fn view(&self) -> Seq<T> {
        self.trits@
    }
}

impl<T: Clone, const N: usize> Clone for TritNum<T, N> {
    /// A copy of the trits.
    fn clone(&self) -> (copy: Self)
        ensures
            copy@.len() == self@.len(),
            forall|i: int| 0 <= i < self@.len() ==> cloned::<T>(self@[i], copy@[i]),
    {
        proof {
            use_type_invariant(self);
        }
        TritNum { trits: self.trits.clone() }
    }
}

impl<T, const N: usize> TritNum<T, N> {
    #[verifier::type_invariant]
    closed spec fn inv(self) -> bool {
        self.trits@.len() == N
    }

    /// Wraps exactly `N` trits.
    pub fn from_trit_buf(trits_buf: Vec<T>) -> (num: Self)
        requires
            trits_buf@.len() == N,
        ensures
            num@ == trits_buf@,
    {
        TritNum { trits: trits_buf }
    }

    /// Gives back the trits.
    pub fn into_inner(self) -> (trits: Vec<T>)
        ensures
            trits@ == self@,
            trits@.len() == N,
    {
        proof {
            use_type_invariant(&self);
        }
        self.trits
    }

    /// The trits.
    pub fn as_trits(&self) -> (trits: &[T])
        ensures
            trits@ == self@,
            trits@.len() == N,
    {
        proof {
            use_type_invariant(self);
        }
        self.trits.as_slice()
    }
}

} // verus!

verus! {

/// The balanced value of `n` trits that are all `t`.
proof fn lemma_btrits_constant(s: Seq<Btrit>, t: Btrit)
    requires
        forall|k: int| 0 <= k < s.len() ==> s[k] == t,
    ensures
        btrits_value(s) == btrit_value(t) * repunit(s.len()),
{
    let d = btrit_digits(s);
    assert forall|k: int| 0 <= k < s.len() implies d[k] == btrit_value(t) by {
        assert(s[k] == t);
    }
    lemma_digits_value_constant(d, btrit_value(t), s.len());
}

/// The unbalanced value of `n` trits that are all `t`.
proof fn lemma_utrits_constant(s: Seq<Utrit>, t: Utrit)
    requires
        forall|k: int| 0 <= k < s.len() ==> s[k] == t,
    ensures
        utrits_value(s) == utrit_value(t) * repunit(s.len()),
{
    let d = utrit_digits(s);
    assert forall|k: int| 0 <= k < s.len() implies d[k] == utrit_value(t) by {
        assert(s[k] == t);
    }
    lemma_digits_value_constant(d, utrit_value(t), s.len());
}

/// Setting balanced trit `i` changes the value by the change of the trit
/// times `3^i`.
proof fn lemma_btrits_update(s: Seq<Btrit>, i: int, t: Btrit)
    requires
        0 <= i < s.len(),
    ensures
        btrits_value(s.update(i, t)) == btrits_value(s) + (btrit_value(t) - btrit_value(s[i])) * pow3(
            i as nat,
        ),
{
    assert(btrit_digits(s.update(i, t)) =~= btrit_digits(s).update(i, btrit_value(t)));
    lemma_digits_value_update(btrit_digits(s), i, btrit_value(t), s.len());
}

/// Setting unbalanced trit `i` changes the value by the change of the trit
/// times `3^i`.
proof fn lemma_utrits_update(s: Seq<Utrit>, i: int, t: Utrit)
    requires
        0 <= i < s.len(),
    ensures
        utrits_value(s.update(i, t)) == utrits_value(s) + (utrit_value(t) - utrit_value(s[i])) * pow3(
            i as nat,
        ),
{
    assert(utrit_digits(s.update(i, t)) =~= utrit_digits(s).update(i, utrit_value(t)));
    lemma_digits_value_update(utrit_digits(s), i, utrit_value(t), s.len());
}

/// `n` trits all equal to `t`.
fn filled_vec<T: Copy>(t: T, n: usize) -> (trits: Vec<T>)
    ensures
        trits@.len() == n,
        forall|k: int| 0 <= k < n ==> trits@[k] == t,
{
    let mut trits: Vec<T> = Vec::new();
    let mut i: usize = 0;
    while i < n
        invariant
            i <= n,
            trits@.len() == i,
            forall|k: int| 0 <= k < i ==> trits@[k] == t,
        decreases n - i,
    {
        trits.push(t);
        i = i + 1;
    }
    trits
}

/// `N` trits all equal to `t`.
fn filled<T: Copy, const N: usize>(t: T) -> (num: TritNum<T, N>)
    ensures
        num@.len() == N,
        forall|k: int| 0 <= k < N ==> num@[k] == t,
{
    TritNum { trits: filled_vec(t, N) }
}

/// Balanced trits are worth at most the repunit, and less when one of
/// them is not `PlusOne`.
proof fn lemma_btrits_below_max(s: Seq<Btrit>, i: int)
    requires
        0 <= i < s.len(),
        s[i] != Btrit::PlusOne,
    ensures
        btrits_value(s) < repunit(s.len()),
{
    let m = s.update(i, Btrit::PlusOne);
    lemma_btrits_update(s, i, Btrit::PlusOne);
    lemma_pow3(i as nat);
    let x = 1 - btrit_value(s[i]);
    let p = pow3(i as nat);
    assert(x * p >= 1) by (nonlinear_arith)
        requires
            x >= 1,
            p >= 1,
    ;
    let dm = btrit_digits(m);
    let ones = Seq::new(s.len(), |k: int| 1int);
    assert forall|k: int| 0 <= k < s.len() implies #[trigger] dm[k] <= ones[k] by {
        assert(dm[k] == btrit_value(m[k]));
    }
    lemma_digits_value_mono(dm, ones, s.len());
    lemma_digits_value_constant(ones, 1, s.len());
}

/// The largest balanced value of `n` trits, all of them `PlusOne`.
pub open spec fn btrits_max_value(n: nat) -> int {
    repunit(n)
}

impl<const N: usize> TritNum<Btrit, N> {
    /// The value of the integer.
    pub open spec fn value(&self) -> int {
        btrits_value(self@)
    }

    /// Zero: all trits `Zero`.
    pub fn zero() -> (num: Self)
        ensures
            num@.len() == N,
            forall|k: int| 0 <= k < N ==> num@[k] == Btrit::Zero,
            num.value() == 0,
    {
        let num = filled(Btrit::Zero);
        proof {
            lemma_btrits_constant(num@, Btrit::Zero);
        }
        num
    }

    /// One.
    pub fn one() -> (num: Self)
        requires
            N > 0,
        ensures
            num@.len() == N,
            num.value() == 1,
    {
        let mut trits = filled_vec(Btrit::Zero, N);
        proof {
            lemma_btrits_constant(trits@, Btrit::Zero);
        }
        let ghost before = trits@;
        trits.set(0, Btrit::PlusOne);
        proof {
            lemma_btrits_update(before, 0, Btrit::PlusOne);
        }
        TritNum { trits }
    }

    /// Minus one.
    pub fn neg_one() -> (num: Self)
        requires
            N > 0,
        ensures
            num@.len() == N,
            num.value() == -1,
    {
        let mut trits = filled_vec(Btrit::Zero, N);
        proof {
            lemma_btrits_constant(trits@, Btrit::Zero);
        }
        let ghost before = trits@;
        trits.set(0, Btrit::NegOne);
        proof {
            lemma_btrits_update(before, 0, Btrit::NegOne);
        }
        TritNum { trits }
    }

    /// The largest value: all trits `PlusOne`.
    pub fn max() -> (num: Self)
        ensures
            num@.len() == N,
            forall|k: int| 0 <= k < N ==> num@[k] == Btrit::PlusOne,
            num.value() == btrits_max_value(N as nat),
    {
        let num = filled(Btrit::PlusOne);
        proof {
            lemma_btrits_constant(num@, Btrit::PlusOne);
        }
        num
    }

    /// The smallest value: all trits `NegOne`.
    pub fn min() -> (num: Self)
        ensures
            num@.len() == N,
            forall|k: int| 0 <= k < N ==> num@[k] == Btrit::NegOne,
            num.value() == -btrits_max_value(N as nat),
    {
        let num = filled(Btrit::NegOne);
        proof {
            lemma_btrits_constant(num@, Btrit::NegOne);
        }
        num
    }

    /// Adds one; at the largest value it wraps around to the smallest and
    /// returns `true` for the overflow.
    pub fn increment_inplace(&mut self) -> (overflow: bool)
        ensures
            final(self)@.len() == N,
            overflow <==> old(self).value() == btrits_max_value(N as nat),
            !overflow ==> final(self).value() == old(self).value() + 1,
            overflow ==> final(self).value() == -btrits_max_value(N as nat),
            overflow ==> forall|k: int| 0 <= k < N ==> final(self)@[k] == Btrit::NegOne,
    {
        let mut current = Self::zero();
        std::mem::swap(&mut *self, &mut current);
        let ghost start = current@;
        assert(start == old(self)@);
        let mut trits = current.into_inner();
        let mut i: usize = 0;
        while i < trits.len()
            invariant
                trits@.len() == N,
                start.len() == N,
                i <= N,
                start == old(self)@,
                forall|k: int| 0 <= k < i ==> #[trigger] start[k] == Btrit::PlusOne,
                forall|k: int| 0 <= k < i ==> #[trigger] trits@[k] == Btrit::NegOne,
                forall|k: int| i <= k < N ==> trits@[k] == start[k],
                btrits_value(trits@) == btrits_value(start) - 2 * repunit(i as nat),
            decreases N - i,
        {
            let ghost before = trits@;
            proof {
                lemma_pow3(i as nat);
            }
            match trits[i].checked_increment() {
                Some(t) => {
                    trits.set(i, t);
                    proof {
                        lemma_btrits_update(before, i as int, t);
                        lemma_btrits_below_max(start, i as int);
                        let d = btrit_value(t) - btrit_value(before[i as int]);
                        let p = pow3(i as nat);
                        assert(d == 1);
                        assert(d * p == p) by (nonlinear_arith)
                            requires
                                d == 1,
                        ;
                    }
                    *self = TritNum { trits };
                    assert(self@ == trits@);
                    return false;
                },
                None => {
                    trits.set(i, Btrit::NegOne);
                    proof {
                        lemma_btrits_update(before, i as int, Btrit::NegOne);
                        let d = btrit_value(Btrit::NegOne) - btrit_value(before[i as int]);
                        let p = pow3(i as nat);
                        assert(d == -2);
                        assert(d * p == -2 * p) by (nonlinear_arith)
                            requires
                                d == -2,
                        ;
                    }
                },
            }
            i = i + 1;
        }
        proof {
            lemma_btrits_constant(start, Btrit::PlusOne);
        }
        *self = TritNum { trits };
        assert(self@ == trits@);
        true
    }
}

} // verus!

verus! {

/// Unbalanced trits are worth at most twice the repunit, and less when one
/// of them is not `Two`.
proof fn lemma_utrits_below_max(s: Seq<Utrit>, i: int)
    requires
        0 <= i < s.len(),
        s[i] != Utrit::Two,
    ensures
        utrits_value(s) < 2 * repunit(s.len()),
{
    let m = s.update(i, Utrit::Two);
    lemma_utrits_update(s, i, Utrit::Two);
    lemma_pow3(i as nat);
    let x = 2 - utrit_value(s[i]);
    let p = pow3(i as nat);
    assert(x * p >= 1) by (nonlinear_arith)
        requires
            x >= 1,
            p >= 1,
    ;
    let dm = utrit_digits(m);
    let twos = Seq::new(s.len(), |k: int| 2int);
    assert forall|k: int| 0 <= k < s.len() implies #[trigger] dm[k] <= twos[k] by {
        assert(dm[k] == utrit_value(m[k]));
    }
    lemma_digits_value_mono(dm, twos, s.len());
    lemma_digits_value_constant(twos, 2, s.len());
}

/// The largest unbalanced value of `n` trits, all of them `Two`: `3^n - 1`.
pub open spec fn utrits_max_value(n: nat) -> int {
    2 * repunit(n)
}

impl<const N: usize> TritNum<Btrit, N> {
    /// The unbalanced integer with every trit one higher; its value is
    /// higher by the repunit of `N` trits.
    pub fn into_shifted(self) -> (shifted: TritNum<Utrit, N>)
        ensures
            shifted@.len() == N,
            forall|k: int| 0 <= k < N ==> utrit_value(#[trigger] shifted@[k]) == btrit_value(self@[k]) + 1,
            shifted.value() == self.value() + repunit(N as nat),
    {
        let trits = self.into_inner();
        let mut out: Vec<Utrit> = Vec::new();
        let mut i: usize = 0;
        while i < trits.len()
            invariant
                trits@.len() == N,
                i <= N,
                out@.len() == i,
                forall|k: int| 0 <= k < i ==> utrit_value(#[trigger] out@[k]) == btrit_value(trits@[k]) + 1,
            decreases N - i,
        {
            out.push(trits[i].shift());
            i = i + 1;
        }
        proof {
            let d = btrit_digits(trits@);
            let e = utrit_digits(out@);
            assert forall|k: int| 0 <= k < N implies #[trigger] e[k] == d[k] + 1 by {
                assert(utrit_value(out@[k]) == btrit_value(trits@[k]) + 1);
            }
            lemma_digits_value_shift(d, e, 1, N as nat);
        }
        TritNum { trits: out }
    }
}

impl<const N: usize> TritNum<Utrit, N> {
    /// The value of the integer.
    pub open spec fn value(&self) -> int {
        utrits_value(self@)
    }

    /// Zero: all trits `Zero`.
    pub fn zero() -> (num: Self)
        ensures
            num@.len() == N,
            forall|k: int| 0 <= k < N ==> num@[k] == Utrit::Zero,
            num.value() == 0,
    {
        let num = filled(Utrit::Zero);
        proof {
            lemma_utrits_constant(num@, Utrit::Zero);
        }
        num
    }

    /// One.
    pub fn one() -> (num: Self)
        requires
            N > 0,
        ensures
            num@.len() == N,
            num.value() == 1,
    {
        let mut trits = filled_vec(Utrit::Zero, N);
        proof {
            lemma_utrits_constant(trits@, Utrit::Zero);
        }
        let ghost before = trits@;
        trits.set(0, Utrit::One);
        proof {
            lemma_utrits_update(before, 0, Utrit::One);
            assert(pow3(0) == 1);
            assert(utrits_value(before) == 0 * repunit(N as nat));
            assert(0 * repunit(N as nat) == 0);
        }
        TritNum { trits }
    }

    /// Two.
    pub fn two() -> (num: Self)
        requires
            N > 0,
        ensures
            num@.len() == N,
            num.value() == 2,
    {
        let mut trits = filled_vec(Utrit::Zero, N);
        proof {
            lemma_utrits_constant(trits@, Utrit::Zero);
        }
        let ghost before = trits@;
        trits.set(0, Utrit::Two);
        proof {
            lemma_utrits_update(before, 0, Utrit::Two);
            assert(pow3(0) == 1);
            assert(utrits_value(before) == 0 * repunit(N as nat));
            assert(0 * repunit(N as nat) == 0);
        }
        TritNum { trits }
    }

    /// Half the largest value: all trits `One`.
    pub fn half_max() -> (num: Self)
        ensures
            num@.len() == N,
            forall|k: int| 0 <= k < N ==> num@[k] == Utrit::One,
            num.value() == repunit(N as nat),
    {
        let num = filled(Utrit::One);
        proof {
            lemma_utrits_constant(num@, Utrit::One);
        }
        num
    }

    /// The largest value: all trits `Two`.
    pub fn max() -> (num: Self)
        ensures
            num@.len() == N,
            forall|k: int| 0 <= k < N ==> num@[k] == Utrit::Two,
            num.value() == utrits_max_value(N as nat),
    {
        let num = filled(Utrit::Two);
        proof {
            lemma_utrits_constant(num@, Utrit::Two);
        }
        num
    }

    /// The smallest value, zero.
    pub fn min() -> (num: Self)
        ensures
            num@.len() == N,
            forall|k: int| 0 <= k < N ==> num@[k] == Utrit::Zero,
            num.value() == 0,
    {
        Self::zero()
    }

    /// Adds one; at the largest value it wraps around to zero and returns
    /// `true` for the overflow.
    pub fn increment_inplace(&mut self) -> (overflow: bool)
        ensures
            final(self)@.len() == N,
            overflow <==> old(self).value() == utrits_max_value(N as nat),
            !overflow ==> final(self).value() == old(self).value() + 1,
            overflow ==> final(self).value() == 0,
            overflow ==> forall|k: int| 0 <= k < N ==> final(self)@[k] == Utrit::Zero,
    {
        let mut current = Self::zero();
        std::mem::swap(&mut *self, &mut current);
        let ghost start = current@;
        let mut trits = current.into_inner();
        let mut i: usize = 0;
        while i < trits.len()
            invariant
                trits@.len() == N,
                start.len() == N,
                i <= N,
                start == old(self)@,
                forall|k: int| 0 <= k < i ==> #[trigger] start[k] == Utrit::Two,
                forall|k: int| 0 <= k < i ==> #[trigger] trits@[k] == Utrit::Zero,
                forall|k: int| i <= k < N ==> trits@[k] == start[k],
                utrits_value(trits@) == utrits_value(start) - 2 * repunit(i as nat),
            decreases N - i,
        {
            let ghost before = trits@;
            proof {
                lemma_pow3(i as nat);
            }
            match trits[i].checked_increment() {
                Some(t) => {
                    trits.set(i, t);
                    proof {
                        lemma_utrits_update(before, i as int, t);
                        lemma_utrits_below_max(start, i as int);
                        let d = utrit_value(t) - utrit_value(before[i as int]);
                        let p = pow3(i as nat);
                        assert(d * p == p) by (nonlinear_arith)
                            requires
                                d == 1,
                        ;
                    }
                    *self = TritNum { trits };
                    return false;
                },
                None => {
                    trits.set(i, Utrit::Zero);
                    proof {
                        lemma_utrits_update(before, i as int, Utrit::Zero);
                        let d = utrit_value(Utrit::Zero) - utrit_value(before[i as int]);
                        let p = pow3(i as nat);
                        assert(d * p == -2 * p) by (nonlinear_arith)
                            requires
                                d == -2,
                        ;
                    }
                },
            }
            i = i + 1;
        }
        proof {
            lemma_utrits_constant(start, Utrit::Two);
        }
        *self = TritNum { trits };
        true
    }

    /// The balanced integer with every trit one lower; its value is lower
    /// by the repunit of `N` trits.
    pub fn into_shifted(self) -> (shifted: TritNum<Btrit, N>)
        ensures
            shifted@.len() == N,
            forall|k: int| 0 <= k < N ==> btrit_value(#[trigger] shifted@[k]) == utrit_value(self@[k]) - 1,
            shifted.value() == self.value() - repunit(N as nat),
    {
        let trits = self.into_inner();
        let mut out: Vec<Btrit> = Vec::new();
        let mut i: usize = 0;
        while i < trits.len()
            invariant
                trits@.len() == N,
                i <= N,
                out@.len() == i,
                forall|k: int| 0 <= k < i ==> btrit_value(#[trigger] out@[k]) == utrit_value(trits@[k]) - 1,
            decreases N - i,
        {
            out.push(trits[i].shift());
            i = i + 1;
        }
        proof {
            let d = utrit_digits(trits@);
            let e = btrit_digits(out@);
            assert forall|k: int| 0 <= k < N implies #[trigger] e[k] == d[k] + (-1) by {
                assert(btrit_value(out@[k]) == utrit_value(trits@[k]) - 1);
            }
            lemma_digits_value_shift(d, e, -1, N as nat);
        }
        TritNum { trits: out }
    }
}

impl<const N: usize> Default for TritNum<Btrit, N> {
    /// Zero.
    fn default() -> (num: Self)
        ensures
            num@.len() == N,
            num.value() == 0,
    {
        Self::zero()
    }
}

impl<const N: usize> Default for TritNum<Utrit, N> {
    /// Zero.
    fn default() -> (num: Self)
        ensures
            num@.len() == N,
            num.value() == 0,
    {
        Self::zero()
    }
}

} // verus!

verus! {

/// Balanced trits that agree above position `j` and are smaller at `j`
/// are worth less.
pub(crate) proof fn lemma_btrits_less(a: Seq<Btrit>, b: Seq<Btrit>, j: usize)
    requires
        a.len() == b.len(),
        j < a.len(),
        forall|k: int| j < k < a.len() ==> a[k] == b[k],
        btrit_value(a[j as int]) < btrit_value(b[j as int]),
    ensures
        btrits_value(a) < btrits_value(b),
{
    let da = btrit_digits(a);
    let db = btrit_digits(b);
    assert forall|k: int| 0 <= k < a.len() implies -2 <= #[trigger] da[k] - db[k] <= 2 by {
        assert(da[k] == btrit_value(a[k]) && db[k] == btrit_value(b[k]));
    }
    assert forall|k: int| j < k < a.len() implies da[k] == db[k] by {
        assert(a[k] == b[k]);
    }
    lemma_digits_value_lexicographic(da, db, j as int, a.len());
}

/// Unbalanced trits that agree above position `j` and are smaller at `j`
/// are worth less.
pub(crate) proof fn lemma_utrits_less(a: Seq<Utrit>, b: Seq<Utrit>, j: usize)
    requires
        a.len() == b.len(),
        j < a.len(),
        forall|k: int| j < k < a.len() ==> a[k] == b[k],
        utrit_value(a[j as int]) < utrit_value(b[j as int]),
    ensures
        utrits_value(a) < utrits_value(b),
{
    let da = utrit_digits(a);
    let db = utrit_digits(b);
    assert forall|k: int| 0 <= k < a.len() implies -2 <= #[trigger] da[k] - db[k] <= 2 by {
        assert(da[k] == utrit_value(a[k]) && db[k] == utrit_value(b[k]));
    }
    assert forall|k: int| j < k < a.len() implies da[k] == db[k] by {
        assert(a[k] == b[k]);
    }
    lemma_digits_value_lexicographic(da, db, j as int, a.len());
}

/// Balanced trits of the same value are the same trit.
pub(crate) proof fn lemma_btrits_same_at(a: Seq<Btrit>, b: Seq<Btrit>, i: usize)
    requires
        i < a.len(),
        i < b.len(),
        btrit_value(a[i as int]) == btrit_value(b[i as int]),
    ensures
        a[i as int] == b[i as int],
{
}

/// Unbalanced trits of the same value are the same trit.
pub(crate) proof fn lemma_utrits_same_at(a: Seq<Utrit>, b: Seq<Utrit>, i: usize)
    requires
        i < a.len(),
        i < b.len(),
        utrit_value(a[i as int]) == utrit_value(b[i as int]),
    ensures
        a[i as int] == b[i as int],
{
}

} // verus!
