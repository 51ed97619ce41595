//! Balanced trits (-1, 0, 1) and unbalanced trits (0, 1, 2).
use vstd::prelude::*;

verus! {

/// A balanced trit.
#[derive(Clone, Copy, Debug, PartialEq, Eq, Structural)]
pub enum Btrit {
    NegOne,
    Zero,
    PlusOne,
}

/// An unbalanced trit.
#[derive(Clone, Copy, Debug, PartialEq, Eq, Structural)]
pub enum Utrit {
    Zero,
    One,
    Two,
}

/// The number a balanced trit stands for.
pub open spec fn btrit_value(t: Btrit) -> int {
    match t {
        Btrit::NegOne => -1,
        Btrit::Zero => 0,
        Btrit::PlusOne => 1,
    }
}

/// The number an unbalanced trit stands for.
pub open spec fn utrit_value(t: Utrit) -> int {
    match t {
        Utrit::Zero => 0,
        Utrit::One => 1,
        Utrit::Two => 2,
    }
}

impl Btrit {
    /// The number the trit stands for.
    pub fn value(self) -> (v: i8)
        ensures
            v == btrit_value(self),
    {
        match self {
            Btrit::NegOne => -1,
            Btrit::Zero => 0,
            Btrit::PlusOne => 1,
        }
    }

    /// The next trit up, or `None` from `PlusOne`.
    pub fn checked_increment(self) -> (next: Option<Btrit>)
        ensures
            match next {
                Some(t) => btrit_value(t) == btrit_value(self) + 1,
                None => self == Btrit::PlusOne,
            },
    {
        match self {
            Btrit::NegOne => Some(Btrit::Zero),
            Btrit::Zero => Some(Btrit::PlusOne),
            Btrit::PlusOne => None,
        }
    }

    /// The unbalanced trit one above: -1, 0, 1 become 0, 1, 2.
    pub fn shift(self) -> (t: Utrit)
        ensures
            utrit_value(t) == btrit_value(self) + 1,
    {
        match self {
            Btrit::NegOne => Utrit::Zero,
            Btrit::Zero => Utrit::One,
            Btrit::PlusOne => Utrit::Two,
        }
    }
}

impl Utrit {
    /// The number the trit stands for.
    pub fn value(self) -> (v: u8)
        ensures
            v == utrit_value(self),
    {
        match self {
            Utrit::Zero => 0,
            Utrit::One => 1,
            Utrit::Two => 2,
        }
    }

    /// The next trit up, or `None` from `Two`.
    pub fn checked_increment(self) -> (next: Option<Utrit>)
        ensures
            match next {
                Some(t) => utrit_value(t) == utrit_value(self) + 1,
                None => self == Utrit::Two,
            },
    {
        match self {
            Utrit::Zero => Some(Utrit::One),
            Utrit::One => Some(Utrit::Two),
            Utrit::Two => None,
        }
    }

    /// The balanced trit one below: 0, 1, 2 become -1, 0, 1.
    pub fn shift(self) -> (t: Btrit)
        ensures
            btrit_value(t) == utrit_value(self) - 1,
    {
        match self {
            Utrit::Zero => Btrit::NegOne,
            Utrit::One => Btrit::Zero,
            Utrit::Two => Btrit::PlusOne,
        }
    }
}

} // verus!
