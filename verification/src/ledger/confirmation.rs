use vstd::prelude::*;

verus! {

/// Worker that confirms ledger entries; it holds no state.
pub struct LedgerConfirmationWorker {}

impl LedgerConfirmationWorker {
    /// Creates the worker.
    pub fn new() -> (worker: Self)
        ensures
            worker == (LedgerConfirmationWorker {}),
    {
        Self {}
    }
}

} // verus!
