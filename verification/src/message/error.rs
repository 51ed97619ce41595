use vstd::prelude::*;

verus! {

/// Why a transaction essence builder refused its contents.
#[derive(Debug, PartialEq, Eq, Structural, Clone, Copy)]
pub enum Error {
    /// A count or an output index is out of its allowed range.
    CountError,
    /// An input or an output address occurs more than once.
    DuplicateError,
    /// An amount is zero, or the amounts add up to more than the supply.
    AmountError,
}

} // verus!
