//! The decisions of the workers that solidify milestones and of the
//! coordinator that hands out milestone indices to them.
use crate::protocol::milestone::MilestoneIndex;
use std::collections::HashMap;
use vstd::prelude::*;

verus! {

/// How many milestones ahead the solidifier requests.
pub const MILESTONE_REQUEST_RANGE: u32 = 5;

/// An event for a milestone solidifier worker.
#[derive(Clone, Copy, Debug, PartialEq, Eq, Structural)]
pub enum MilestoneSolidifierWorkerEvent {
    /// Work on this milestone from now on.
    Reassign(MilestoneIndex),
    /// Keep working on the current milestone.
    Idle,
}

/// An event for the coordinator of the milestone solidifier workers.
#[derive(Clone, Copy, Debug, PartialEq, Eq, Structural)]
pub enum MilestoneSolidifierCoordinatorEvent {
    /// This milestone became solid.
    NewSolidMilestone(MilestoneIndex),
    /// Nothing happened; the workers should keep going.
    Idle,
}

/// What a worker asks the node to do to solidify its milestone.
#[derive(Debug, PartialEq, Eq)]
pub enum SolidifyAction<H> {
    /// The milestone transaction `H` is not solid yet: solidify the
    /// transactions it approves.
    SolidifyTransaction(H, MilestoneIndex),
    /// The milestone is already solid: tell the coordinator.
    NotifyCoordinator(MilestoneSolidifierCoordinatorEvent),
    /// The milestone is missing: nothing can be done yet.
    Missing(MilestoneIndex),
}

/// A worker that solidifies the milestone with a given index.
pub struct MilestoneSolidifierWorker {
    index: MilestoneIndex,
}

impl View for MilestoneSolidifierWorker {
    /// The index of the milestone the worker is solidifying.
    type V = u32;

    closed spec fn view(&self) -> u32 {
        self.index.0
    }
}

impl MilestoneSolidifierWorker {
    /// Creates a worker for the milestone `index`.
    pub fn new(index: u32) -> (worker: Self)
        ensures
            worker@ == index,
    {
        Self { index: MilestoneIndex(index) }
    }

    /// The milestone the worker is solidifying.
    pub fn index(&self) -> (index: MilestoneIndex)
        ensures
            index.0 == self@,
    {
        self.index
    }

    /// Takes in an event: a reassignment moves the worker to another
    /// milestone, idling keeps it where it is.
    pub fn handle_event(&mut self, event: MilestoneSolidifierWorkerEvent)
        ensures
            final(self)@ == match event {
                MilestoneSolidifierWorkerEvent::Reassign(index) => index.0,
                MilestoneSolidifierWorkerEvent::Idle => old(self)@,
            },
    {
        match event {
            MilestoneSolidifierWorkerEvent::Reassign(index) => {
                self.index = index;
            },
            MilestoneSolidifierWorkerEvent::Idle => {},
        }
    }

    /// The milestone to request from the network: the worker's own, when
    /// the tangle does not hold it yet.
    pub fn request_milestones(&self, tangle_contains_milestone: bool) -> (request: Option<
        MilestoneIndex,
    >)
        ensures
            request == if tangle_contains_milestone {
                None::<MilestoneIndex>
            } else {
                Some(MilestoneIndex(self@))
            },
    {
        if !tangle_contains_milestone {
            Some(self.index)
        } else {
            None
        }
    }

    /// What to do with the worker's milestone, given the hash of its
    /// transaction and whether that transaction is solid, or `None` when
    /// the tangle does not hold the milestone.
    pub fn solidify_milestone<H>(&self, target: Option<(H, bool)>) -> (action: SolidifyAction<H>)
        ensures
            action == match target {
                Some((hash, false)) => SolidifyAction::SolidifyTransaction(hash, MilestoneIndex(self@)),
                Some((_, true)) => SolidifyAction::NotifyCoordinator(
                    MilestoneSolidifierCoordinatorEvent::NewSolidMilestone(MilestoneIndex(self@)),
                ),
                None => SolidifyAction::Missing(MilestoneIndex(self@)),
            },
    {
        match target {
            Some((hash, solid)) => {
                if !solid {
                    SolidifyAction::SolidifyTransaction(hash, self.index)
                } else {
                    SolidifyAction::NotifyCoordinator(
                        MilestoneSolidifierCoordinatorEvent::NewSolidMilestone(self.index),
                    )
                }
            },
            None => SolidifyAction::Missing(self.index),
        }
    }
}

/// Hands out milestone indices to the workers, each reached through a
/// sender of type `S`, keyed by the index of the milestone it works on.
pub struct MilestoneSolidifierCoordinator<S> {
    senders: HashMap<u32, S>,
}

impl<S> View for MilestoneSolidifierCoordinator<S> {
    /// The workers' senders by milestone index.
    type V = Map<u32, S>;

    closed spec fn view(&self) -> Map<u32, S> {
        self.senders@
    }
}

impl<S> MilestoneSolidifierCoordinator<S> {
    /// Creates the coordinator of the workers reached through `senders`.
    pub fn new(senders: HashMap<u32, S>) -> (coordinator: Self)
        ensures
            coordinator@ == senders@,
    {
        Self { senders }
    }

    /// The workers' senders, for the node to send events through.
    pub fn senders_mut(&mut self) -> (senders: &mut HashMap<u32, S>)
        ensures
            senders@ == old(self)@,
            final(self)@ == final(senders)@,
    {
        &mut self.senders
    }

    /// The largest milestone index a worker has.
    fn max_index(&self) -> (max: u32)
        requires
            self@.dom().len() > 0,
        ensures
            self@.dom().contains(max),
            forall|k: u32| #[trigger] self@.dom().contains(k) ==> k <= max,
    {
        let mut max: u32 = 0;
        let mut found = false;
        for k in it: self.senders.keys()
            invariant
                found ==> self@.dom().contains(max),
                found <==> it.index() > 0,
                forall|i: int| 0 <= i < it.index() ==> *#[trigger] it.seq()[i] <= max,
        {
            if !found || *k > max {
                max = *k;
            }
            found = true;
        }
        max
    }

    /// Moves the worker of the milestone `index`, which became solid, to
    /// the milestone after the largest one any worker has; returns the new
    /// index, under which its sender now stands.
    pub fn reassign_worker(&mut self, index: MilestoneIndex) -> (new_index: MilestoneIndex)
        requires
            old(self)@.dom().contains(index.0),
            !old(self)@.dom().contains(u32::MAX),
        ensures
            old(self)@.dom().contains((new_index.0 - 1) as u32),
            forall|k: u32| #[trigger] old(self)@.dom().contains(k) ==> k < new_index.0,
            final(self)@ == old(self)@.remove(index.0).insert(new_index.0, old(self)@[index.0]),
            final(self)@.dom().len() == old(self)@.dom().len(),
    {
        let max = self.max_index();
        let max_index = MilestoneIndex(max + 1);
        let sender = self.senders.remove(&index.0).unwrap();
        self.senders.insert(max_index.0, sender);
        max_index
    }
}

} // verus!
