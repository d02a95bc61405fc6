//! The dispatcher: the queue, the workers' phases and the counter of
//! reports, as one value that producer and workers share under a lock.
//!
//! Every method is one event of the state machine in
//! [`crate::dispatch_model`], and says which.

use std::collections::VecDeque;
use vstd::prelude::*;

use crate::dispatch_model::{
    lemma_initial_state, lemma_running_means_fewer_reports, lemma_step_keeps_consistency,
    lemma_stopped_means_all_reported, DispatchState, Event, WorkerView, MAX_GROUPS,
};
use crate::geometry::Point;

verus! {

/// An item of the queue.
#[derive(Debug)]
pub enum WorkItem {
    /// A group of locations to find a route for.
    Group(Vec<Point>),
    /// The signal that there is no more work.
    Stop,
}

/// What a worker is doing.
#[derive(Clone, Copy, Debug, PartialEq, Eq, Structural)]
pub enum WorkerPhase {
    Idle,
    Running,
    Stopped,
}

/// What became of a group that the producer submitted.
#[derive(Debug)]
pub enum Submission {
    /// It stands in the queue.
    Queued,
    /// It was empty and was passed over.
    Skipped,
    /// There was no room for it; here it is again.
    Full(Vec<Point>),
    /// A stop signal has been published before; here it is again.
    Closed(Vec<Point>),
}

/// What became of a stop signal that the producer wanted to publish.
#[derive(Clone, Copy, Debug, PartialEq, Eq, Structural)]
pub enum StopSignal {
    /// It stands in the queue.
    Queued,
    /// There was no room for it.
    Full,
    /// Every worker has its stop signal already.
    AllPublished,
}

/// What a worker got when it asked for work.
#[derive(Debug)]
pub enum Assignment {
    /// This group, to work on.
    Group(Vec<Point>),
    /// The signal to stop.
    Stop,
    /// Nothing yet: the queue is empty.
    Wait,
    /// Nothing: there is no such worker, or it is not idle.
    NotIdle,
}

/// The phase that stands for a worker's state.
pub open spec fn phase_of(worker: WorkerView) -> WorkerPhase {
    match worker {
        WorkerView::Idle => WorkerPhase::Idle,
        WorkerView::Running(_) => WorkerPhase::Running,
        WorkerView::Stopped => WorkerPhase::Stopped,
    }
}

/// The bounded queue of groups and stop signals, the phase of each worker,
/// and the counter that numbers the reports.
pub struct Dispatcher {
    capacity: usize,
    queue: VecDeque<WorkItem>,
    phases: Vec<WorkerPhase>,
    accepted: u64,
    stops_published: usize,
    next_number: u64,
    state: Ghost<DispatchState>,
}

impl View for Dispatcher {
    type V = DispatchState;

    closed spec fn view(&self) -> DispatchState {
        self.state@
    }
}

impl Dispatcher {
    /// The dispatcher's fields agree with its state, and the state is
    /// consistent.
    pub closed spec fn wf(&self) -> bool {
        let s = self.state@;
        &&& s.consistent()
        &&& self.capacity == s.capacity
        &&& self.phases.len() == s.workers.len()
        &&& forall|w: int|
            0 <= w < self.phases.len() ==> #[trigger] self.phases[w] == phase_of(s.workers[w])
        &&& self.queue@.len() == s.queue_len()
        &&& forall|k: int|
            0 <= k < s.pending_groups() ==> {
                &&& #[trigger] self.queue@[k] is Group
                &&& self.queue@[k]->Group_0@ == s.submitted[s.taken + k]
            }
        &&& forall|k: int|
            s.pending_groups() <= k < s.queue_len() ==> #[trigger] self.queue@[k] is Stop
        &&& self.accepted == s.submitted.len()
        &&& self.stops_published == s.stops_published
        &&& self.next_number == s.reported.len()
    }

    /// A dispatcher for `workers` workers, with a queue of `capacity` items,
    /// provided that both numbers are positive.
    pub fn new(workers: usize, capacity: usize) -> (dispatcher: Option<Dispatcher>)
        ensures
            dispatcher is Some <==> workers > 0 && capacity > 0,
            dispatcher matches Some(d) ==> d.wf() && d@ == DispatchState::initial(
                workers as nat,
                capacity as nat,
            ),
    {
        if workers == 0 || capacity == 0 {
            return None;
        }
        let ghost state = DispatchState::initial(workers as nat, capacity as nat);
        let mut phases: Vec<WorkerPhase> = Vec::new();
        while phases.len() < workers
            invariant
                phases.len() <= workers,
                forall|w: int| 0 <= w < phases.len() ==> phases[w] == WorkerPhase::Idle,
            decreases workers - phases.len(),
        {
            phases.push(WorkerPhase::Idle);
        }
        proof {
            lemma_initial_state(workers as nat, capacity as nat);
        }
        Some(
            Dispatcher {
                capacity,
                queue: VecDeque::new(),
                phases,
                accepted: 0,
                stops_published: 0,
                next_number: 0,
                state: Ghost(state),
            },
        )
    }

    /// The producer submits `group`.
    ///
    /// A group that is not empty goes to the end of the queue, unless a stop
    /// signal was published before, the queue is full, or [`MAX_GROUPS`]
    /// groups came before; it is then handed back.
    pub fn submit(&mut self, group: Vec<Point>) -> (outcome: Submission)
        requires
            old(self).wf(),
        ensures
            final(self).wf(),
            final(self)@ == old(self)@.step(Event::Submit(group@)),
            match outcome {
                Submission::Queued => old(self)@.accepts(group@),
                Submission::Skipped => group@.len() == 0,
                Submission::Closed(back) => group@.len() > 0 && old(self)@.closed() && back
                    == group,
                Submission::Full(back) => group@.len() > 0 && !old(self)@.closed() && !old(
                    self,
                )@.accepts(group@) && back == group,
            },
    {
        if group.len() == 0 {
            return Submission::Skipped;
        }
        if self.stops_published > 0 {
            return Submission::Closed(group);
        }
        if self.queue.len() >= self.capacity || self.accepted == MAX_GROUPS {
            return Submission::Full(group);
        }
        proof {
            lemma_step_keeps_consistency(self.state@, Event::Submit(group@));
            self.state = Ghost(self.state@.submit(group@));
        }
        self.queue.push_back(WorkItem::Group(group));
        self.accepted = self.accepted + 1;
        Submission::Queued
    }

    /// The producer publishes one stop signal. It has to publish one for
    /// each worker, after the last group.
    pub fn publish_stop(&mut self) -> (outcome: StopSignal)
        requires
            old(self).wf(),
        ensures
            final(self).wf(),
            final(self)@ == old(self)@.step(Event::PublishStop),
            match outcome {
                StopSignal::Queued => old(self)@.accepts_stop(),
                StopSignal::AllPublished => old(self)@.stops_published == old(self)@.workers.len(),
                StopSignal::Full => old(self)@.stops_published < old(self)@.workers.len() && old(
                    self,
                )@.queue_len() >= old(self)@.capacity,
            },
    {
        if self.stops_published >= self.phases.len() {
            return StopSignal::AllPublished;
        }
        if self.queue.len() >= self.capacity {
            return StopSignal::Full;
        }
        proof {
            lemma_step_keeps_consistency(self.state@, Event::PublishStop);
            self.state = Ghost(self.state@.publish_stop());
        }
        self.queue.push_back(WorkItem::Stop);
        self.stops_published = self.stops_published + 1;
        StopSignal::Queued
    }

    /// The worker `worker` asks for work.
    ///
    /// An idle worker gets the head of the queue: the group that has waited
    /// longest, or a stop signal once no group is left. With a group it is
    /// running until it calls [`Dispatcher::complete`]; with a stop signal
    /// it has stopped for good.
    pub fn take(&mut self, worker: usize) -> (assignment: Assignment)
        requires
            old(self).wf(),
        ensures
            final(self).wf(),
            final(self)@ == old(self)@.step(Event::Take(worker as int)),
            match assignment {
                Assignment::NotIdle => !old(self)@.is_idle(worker as int),
                Assignment::Wait => old(self)@.is_idle(worker as int) && old(self)@.queue_len()
                    == 0,
                Assignment::Group(group) => {
                    &&& old(self)@.is_idle(worker as int)
                    &&& old(self)@.pending_groups() > 0
                    &&& group@ == old(self)@.submitted[old(self)@.taken as int]
                    &&& final(self)@.workers[worker as int] == WorkerView::Running(
                        old(self)@.taken as int,
                    )
                },
                Assignment::Stop => {
                    &&& old(self)@.is_idle(worker as int)
                    &&& old(self)@.pending_groups() == 0
                    &&& old(self)@.pending_stops() > 0
                },
            },
    {
        if worker >= self.phases.len() {
            return Assignment::NotIdle;
        }
        match self.phases[worker] {
            WorkerPhase::Idle => {},
            _ => {
                return Assignment::NotIdle;
            },
        }
        let ghost before = self.state@;
        let ghost items = self.queue@;
        proof {
            lemma_step_keeps_consistency(before, Event::Take(worker as int));
        }
        match self.queue.pop_front() {
            None => Assignment::Wait,
            Some(WorkItem::Group(group)) => {
                self.phases.set(worker, WorkerPhase::Running);
                proof {
                    assert(items[0] is Group);
                    self.state = Ghost(before.take(worker as int));
                    assert forall|k: int| 0 <= k < self.state@.pending_groups() implies {
                        &&& #[trigger] self.queue@[k] is Group
                        &&& self.queue@[k]->Group_0@ == self.state@.submitted[self.state@.taken + k]
                    } by {
                        assert(self.queue@[k] == items[k + 1]);
                    }
                    assert forall|k: int|
                        self.state@.pending_groups() <= k < self.state@.queue_len() implies (
                    #[trigger] self.queue@[k]) is Stop by {
                        assert(self.queue@[k] == items[k + 1]);
                    }
                }
                Assignment::Group(group)
            },
            Some(WorkItem::Stop) => {
                self.phases.set(worker, WorkerPhase::Stopped);
                proof {
                    assert(items[0] is Stop);
                    self.state = Ghost(before.take(worker as int));
                    assert forall|k: int|
                        self.state@.pending_groups() <= k < self.state@.queue_len() implies (
                    #[trigger] self.queue@[k]) is Stop by {
                        assert(self.queue@[k] == items[k + 1]);
                    }
                }
                Assignment::Stop
            },
        }
    }

    /// The worker `worker` reports the result for its group, and gets the
    /// number of the report: as many reports were made before it.
    ///
    /// A worker that is not running has nothing to report and gets `None`.
    pub fn complete(&mut self, worker: usize) -> (number: Option<u64>)
        requires
            old(self).wf(),
        ensures
            final(self).wf(),
            final(self)@ == old(self)@.step(Event::Complete(worker as int)),
            number is Some <==> old(self)@.is_running(worker as int),
            number matches Some(n) ==> n == old(self)@.reported.len() && final(self)@.reported[n as int]
                == old(self)@.workers[worker as int]->Running_0,
    {
        if worker >= self.phases.len() {
            return None;
        }
        match self.phases[worker] {
            WorkerPhase::Running => {},
            _ => {
                return None;
            },
        }
        let number = self.next_number;
        proof {
            let s = self.state@;
            lemma_step_keeps_consistency(s, Event::Complete(worker as int));
            lemma_running_means_fewer_reports(s, worker as int);
            assert(s.complete(worker as int).reported.len() == s.reported.len() + 1);
            self.state = Ghost(s.complete(worker as int));
        }
        self.phases.set(worker, WorkerPhase::Idle);
        self.next_number = number + 1;
        Some(number)
    }

    /// Tells whether every worker has stopped. From then on nothing changes
    /// any more, and every group that the queue accepted has been reported
    /// exactly once.
    pub fn is_finished(&self) -> (finished: bool)
        requires
            self.wf(),
        ensures
            finished == self@.all_stopped(),
            finished ==> self@.all_reported() && self@.queue_len() == 0,
    {
        let mut w: usize = 0;
        while w < self.phases.len()
            invariant
                self.wf(),
                w <= self.phases.len(),
                forall|v: int| 0 <= v < w ==> #[trigger] self@.workers[v] is Stopped,
            decreases self.phases.len() - w,
        {
            match self.phases[w] {
                WorkerPhase::Stopped => {},
                _ => {
                    assert(!(self@.workers[w as int] is Stopped));
                    return false;
                },
            }
            w += 1;
        }
        proof {
            lemma_stopped_means_all_reported(self@);
        }
        true
    }

    /// How many items wait in the queue.
    pub fn pending(&self) -> (pending: usize)
        requires
            self.wf(),
        ensures
            pending == self@.queue_len(),
    {
        self.queue.len()
    }

    /// How many reports have been made.
    pub fn reports(&self) -> (reports: u64)
        requires
            self.wf(),
        ensures
            reports == self@.reported.len(),
    {
        self.next_number
    }

    /// How many groups the queue has accepted.
    pub fn accepted(&self) -> (accepted: u64)
        requires
            self.wf(),
        ensures
            accepted == self@.submitted.len(),
    {
        self.accepted
    }

    /// The phase of the worker `worker`, if there is such a worker.
    pub fn phase(&self, worker: usize) -> (phase: Option<WorkerPhase>)
        requires
            self.wf(),
        ensures
            phase is Some <==> worker < self@.workers.len(),
            phase matches Some(p) ==> p == phase_of(self@.workers[worker as int]),
    {
        if worker < self.phases.len() {
            Some(self.phases[worker])
        } else {
            None
        }
    }
}

} // verus!
