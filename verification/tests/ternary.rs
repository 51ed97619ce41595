use bee::ternary::bigint::{TritNum, T242, T243};
use bee::ternary::trit::{Btrit, Utrit};
use std::cmp::Ordering;

fn btrits<const N: usize>(values: &[i8]) -> TritNum<Btrit, N> {
    let mut v = vec![Btrit::Zero; N];
    for (i, x) in values.iter().enumerate() {
        v[i] = match x {
            -1 => Btrit::NegOne,
            0 => Btrit::Zero,
            _ => Btrit::PlusOne,
        };
    }
    TritNum::from_trit_buf(v)
}

#[test]
fn balanced_constants() {
    let one = T243::<Btrit>::one();
    assert_eq!(one.as_trits()[0], Btrit::PlusOne);
    assert!(one.as_trits()[1..].iter().all(|t| *t == Btrit::Zero));
    let neg = T243::<Btrit>::neg_one();
    assert_eq!(neg.as_trits()[0], Btrit::NegOne);
    assert_eq!(T243::<Btrit>::max().as_trits().len(), 243);
    assert!(T242::<Btrit>::min().as_trits().iter().all(|t| *t == Btrit::NegOne));
    assert!(T242::<Btrit>::default().eq(&T242::<Btrit>::zero()));
}

#[test]
fn balanced_increment_counts_up() {
    let mut n = T243::<Btrit>::neg_one();
    assert!(!n.increment_inplace());
    assert!(n.eq(&T243::<Btrit>::zero()));
    assert!(!n.increment_inplace());
    assert!(n.eq(&T243::<Btrit>::one()));
    // 1 + 1 = 2 = 3 - 1: trits [-1, 1, 0, ...]
    assert!(!n.increment_inplace());
    assert_eq!(&n.as_trits()[..3], &[Btrit::NegOne, Btrit::PlusOne, Btrit::Zero]);
}

#[test]
fn balanced_increment_wraps_at_max() {
    let mut n = T242::<Btrit>::max();
    assert!(n.increment_inplace());
    assert!(n.eq(&T242::<Btrit>::min()));
    let mut small: TritNum<Btrit, 2> = btrits(&[1, 1]);
    assert!(small.increment_inplace());
    assert_eq!(small.as_trits(), &[Btrit::NegOne, Btrit::NegOne]);
}

#[test]
fn balanced_compare_from_the_top() {
    let a: TritNum<Btrit, 3> = btrits(&[1, 1, -1]); // 1 + 3 - 9 = -5
    let b: TritNum<Btrit, 3> = btrits(&[-1, -1, 0]); // -1 - 3 = -4
    assert_eq!(a.cmp(&b), Ordering::Less);
    assert_eq!(b.cmp(&a), Ordering::Greater);
    assert_eq!(a.partial_cmp(&a), Some(Ordering::Equal));
    assert!(!a.eq(&b));
    assert_eq!(T243::<Btrit>::min().cmp(&T243::<Btrit>::max()), Ordering::Less);
}

#[test]
fn unbalanced_constants_and_increment() {
    let mut n = T243::<Utrit>::one();
    assert!(!n.increment_inplace());
    assert!(n.eq(&T243::<Utrit>::two()));
    assert!(!n.increment_inplace());
    assert_eq!(&n.as_trits()[..2], &[Utrit::Zero, Utrit::One]);
    let mut m = T243::<Utrit>::max();
    assert!(m.increment_inplace());
    assert!(m.eq(&T243::<Utrit>::min()));
    assert!(T243::<Utrit>::half_max().as_trits().iter().all(|t| *t == Utrit::One));
    assert_eq!(T243::<Utrit>::half_max().cmp(&T243::<Utrit>::max()), Ordering::Less);
    assert!(T243::<Utrit>::default().eq(&T243::<Utrit>::zero()));
}

#[test]
fn shifting_moves_every_trit() {
    let b: TritNum<Btrit, 3> = btrits(&[-1, 0, 1]);
    let u = b.into_shifted();
    assert_eq!(u.as_trits(), &[Utrit::Zero, Utrit::One, Utrit::Two]);
    let back = u.into_shifted();
    assert_eq!(back.as_trits(), &[Btrit::NegOne, Btrit::Zero, Btrit::PlusOne]);
    // The balanced zero shifts to the unbalanced half maximum.
    assert!(T243::<Btrit>::zero().into_shifted().eq(&T243::<Utrit>::half_max()));
    assert!(T243::<Btrit>::min().into_shifted().eq(&T243::<Utrit>::zero()));
}

#[test]
fn into_inner_gives_back_trits() {
    let b: TritNum<Btrit, 2> = btrits(&[1, -1]);
    assert_eq!(b.clone().into_inner(), vec![Btrit::PlusOne, Btrit::NegOne]);
}
