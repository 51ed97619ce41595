use bee::ledger::confirmation::LedgerConfirmationWorker;

#[test]
fn ledger_confirmation_worker_new() {
    let _worker = LedgerConfirmationWorker::new();
}
