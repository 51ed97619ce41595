//! The numeric value of a little-endian sequence of base-3 digits, and the
//! facts about it that the ternary integers rest on.
use vstd::prelude::*;

verus! {

/// Three to the power `n`.
pub open spec fn pow3(n: nat) -> int
    decreases n,
{
    if n == 0 {
        1
    } else {
        3 * pow3((n - 1) as nat)
    }
}

/// The value of the first `n` digits of `d`, least significant first:
/// the sum of `d[k] * 3^k` for `k < n`.
pub open spec fn digits_value(d: Seq<int>, n: nat) -> int
    decreases n,
{
    if n == 0 {
        0
    } else {
        digits_value(d, (n - 1) as nat) + d[n - 1] * pow3((n - 1) as nat)
    }
}

/// `1 + 3 + ... + 3^(n-1)`, the value of `n` digits that are all one.
pub open spec fn repunit(n: nat) -> int
    decreases n,
{
    if n == 0 {
        0
    } else {
        repunit((n - 1) as nat) + pow3((n - 1) as nat)
    }
}

/// Powers of three are positive, and one more than twice the repunit.
pub proof fn lemma_pow3(n: nat)
    ensures
        pow3(n) >= 1,
        pow3(n) == 2 * repunit(n) + 1,
        repunit(n) >= 0,
    decreases n,
{
    if n > 0 {
        lemma_pow3((n - 1) as nat);
    }
}

/// The value depends only on the first `n` digits.
pub proof fn lemma_digits_value_prefix(a: Seq<int>, b: Seq<int>, n: nat)
    requires
        forall|k: int| 0 <= k < n ==> a[k] == b[k],
    ensures
        digits_value(a, n) == digits_value(b, n),
    decreases n,
{
    if n > 0 {
        lemma_digits_value_prefix(a, b, (n - 1) as nat);
    }
}

/// Changing digit `i` changes the value by the change times `3^i`.
pub proof fn lemma_digits_value_update(d: Seq<int>, i: int, v: int, n: nat)
    requires
        0 <= i < n <= d.len(),
    ensures
        digits_value(d.update(i, v), n) == digits_value(d, n) + (v - d[i]) * pow3(i as nat),
    decreases n,
{
    let e = d.update(i, v);
    if n - 1 == i {
        lemma_digits_value_prefix(e, d, (n - 1) as nat);
        assert(v * pow3(i as nat) - d[i] * pow3(i as nat) == (v - d[i]) * pow3(i as nat))
            by (nonlinear_arith);
    } else {
        lemma_digits_value_update(d, i, v, (n - 1) as nat);
    }
}

/// Digits that are all `c` are worth `c` times the repunit.
pub proof fn lemma_digits_value_constant(d: Seq<int>, c: int, n: nat)
    requires
        n <= d.len(),
        forall|k: int| 0 <= k < n ==> d[k] == c,
    ensures
        digits_value(d, n) == c * repunit(n),
    decreases n,
{
    if n > 0 {
        lemma_digits_value_constant(d, c, (n - 1) as nat);
        let p = pow3((n - 1) as nat);
        let r = repunit((n - 1) as nat);
        assert(c * r + c * p == c * (r + p)) by (nonlinear_arith);
    }
}

/// Two digit strings whose digits differ by at most two apart differ in
/// value by less than `3^n`.
pub proof fn lemma_digits_value_gap(a: Seq<int>, b: Seq<int>, n: nat)
    requires
        n <= a.len(),
        n <= b.len(),
        forall|k: int| 0 <= k < n ==> -2 <= #[trigger] a[k] - b[k] <= 2,
    ensures
        -(pow3(n) - 1) <= digits_value(a, n) - digits_value(b, n) <= pow3(n) - 1,
    decreases n,
{
    if n > 0 {
        let m = (n - 1) as nat;
        lemma_digits_value_gap(a, b, m);
        lemma_pow3(m);
        let p = pow3(m);
        let x = a[m as int] - b[m as int];
        let am = a[m as int];
        let bm = b[m as int];
        assert(am * p - bm * p == x * p) by (nonlinear_arith)
            requires
                x == am - bm,
        ;
        assert(-2 * p <= x * p <= 2 * p) by (nonlinear_arith)
            requires
                -2 <= x <= 2,
                p >= 1,
        ;
    }
}

/// When two digit strings agree above digit `j` and digit `j` of `a` is
/// smaller, `a` is worth less: the digits below `j` cannot make up for it.
pub proof fn lemma_digits_value_lexicographic(a: Seq<int>, b: Seq<int>, j: int, n: nat)
    requires
        0 <= j < n,
        n <= a.len(),
        n <= b.len(),
        forall|k: int| 0 <= k < n ==> -2 <= #[trigger] a[k] - b[k] <= 2,
        forall|k: int| j < k < n ==> a[k] == b[k],
        a[j] < b[j],
    ensures
        digits_value(a, n) < digits_value(b, n),
    decreases n,
{
    let m = (n - 1) as nat;
    if m == j {
        lemma_digits_value_gap(a, b, m);
        let p = pow3(m);
        lemma_pow3(m);
        let x = a[j] - b[j];
        let aj = a[j];
        let bj = b[j];
        assert(aj * p - bj * p == x * p) by (nonlinear_arith)
            requires
                x == aj - bj,
        ;
        assert(x * p <= -p) by (nonlinear_arith)
            requires
                x <= -1,
                p >= 1,
        ;
    } else {
        lemma_digits_value_lexicographic(a, b, j, m);
    }
}

/// Digits that are each at most the corresponding digit of another string
/// are worth at most as much.
pub proof fn lemma_digits_value_mono(d: Seq<int>, e: Seq<int>, n: nat)
    requires
        n <= d.len(),
        n <= e.len(),
        forall|k: int| 0 <= k < n ==> #[trigger] d[k] <= e[k],
    ensures
        digits_value(d, n) <= digits_value(e, n),
    decreases n,
{
    if n > 0 {
        let m = (n - 1) as nat;
        lemma_digits_value_mono(d, e, m);
        lemma_pow3(m);
        let p = pow3(m);
        let dm = d[m as int];
        let em = e[m as int];
        assert(dm * p <= em * p) by (nonlinear_arith)
            requires
                dm <= em,
                p >= 1,
        ;
    }
}

/// Adding `c` to every digit adds `c` times the repunit to the value.
pub proof fn lemma_digits_value_shift(d: Seq<int>, e: Seq<int>, c: int, n: nat)
    requires
        n <= d.len(),
        n <= e.len(),
        forall|k: int| 0 <= k < n ==> #[trigger] e[k] == d[k] + c,
    ensures
        digits_value(e, n) == digits_value(d, n) + c * repunit(n),
    decreases n,
{
    if n > 0 {
        let m = (n - 1) as nat;
        lemma_digits_value_shift(d, e, c, m);
        let p = pow3(m);
        let r = repunit(m);
        let dm = d[m as int];
        let em = e[m as int];
        assert(em * p == dm * p + c * p) by (nonlinear_arith)
            requires
                em == dm + c,
        ;
        assert(c * r + c * p == c * (r + p)) by (nonlinear_arith);
    }
}

} // verus!
