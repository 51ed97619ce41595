use bee::protocol::milestone::MilestoneIndex;
use bee::protocol::worker::solidifier::milestone::{
    MilestoneSolidifierCoordinator, MilestoneSolidifierCoordinatorEvent, MilestoneSolidifierWorker,
    MilestoneSolidifierWorkerEvent, SolidifyAction,
};
use std::collections::HashMap;

#[test]
fn worker_follows_reassignments() {
    let mut worker = MilestoneSolidifierWorker::new(7);
    assert_eq!(worker.index(), MilestoneIndex(7));
    worker.handle_event(MilestoneSolidifierWorkerEvent::Idle);
    assert_eq!(worker.index(), MilestoneIndex(7));
    worker.handle_event(MilestoneSolidifierWorkerEvent::Reassign(MilestoneIndex(12)));
    assert_eq!(worker.index(), MilestoneIndex(12));
}

#[test]
fn worker_requests_missing_milestone() {
    let worker = MilestoneSolidifierWorker::new(3);
    assert_eq!(worker.request_milestones(false), Some(MilestoneIndex(3)));
    assert_eq!(worker.request_milestones(true), None);
}

#[test]
fn worker_solidify_decisions() {
    let worker = MilestoneSolidifierWorker::new(4);
    assert_eq!(
        worker.solidify_milestone(Some(("hash", false))),
        SolidifyAction::SolidifyTransaction("hash", MilestoneIndex(4))
    );
    assert_eq!(
        worker.solidify_milestone(Some(("hash", true))),
        SolidifyAction::NotifyCoordinator(MilestoneSolidifierCoordinatorEvent::NewSolidMilestone(
            MilestoneIndex(4)
        ))
    );
    assert_eq!(worker.solidify_milestone::<&str>(None), SolidifyAction::Missing(MilestoneIndex(4)));
}

#[test]
fn coordinator_reassigns_past_the_largest_index() {
    let mut senders = HashMap::new();
    senders.insert(10u32, "a");
    senders.insert(11u32, "b");
    senders.insert(14u32, "c");
    let mut coordinator = MilestoneSolidifierCoordinator::new(senders);
    let new_index = coordinator.reassign_worker(MilestoneIndex(10));
    assert_eq!(new_index, MilestoneIndex(15));
    let senders = coordinator.senders_mut();
    assert_eq!(senders.len(), 3);
    assert_eq!(senders.get(&15), Some(&"a"));
    assert_eq!(senders.get(&10), None);
    let again = coordinator.reassign_worker(MilestoneIndex(15));
    assert_eq!(again, MilestoneIndex(16));
    assert_eq!(coordinator.senders_mut().get(&16), Some(&"a"));
}
