//! The dispatch of groups to workers, as a state machine.
//!
//! One producer submits groups of locations and, when it has no more,
//! publishes one stop signal for each worker. Groups and stop signals wait in
//! one bounded first-in-first-out queue. A worker that is idle takes the head
//! of the queue: a group, which it then works on until it reports a result,
//! or a stop signal, after which it takes nothing more. Each report gets the
//! next number of a counter, so the numbers follow the order in which the
//! groups were finished, not the order in which they were submitted.
//!
//! A group is named here by its position among the groups submitted.

use vstd::prelude::*;

use crate::geometry::Point;

verus! {

/// How many groups one dispatch can accept in all: what its counter of
/// reports can number.
pub const MAX_GROUPS: u64 = 0xffff_ffff_ffff_ffff;

/// What a worker is doing.
pub enum WorkerView {
    /// It waits for the next item of the queue.
    Idle,
    /// It works on the group submitted at this position.
    Running(int),
    /// It has taken a stop signal.
    Stopped,
}

/// The state of a dispatch.
pub struct DispatchState {
    /// How many items the queue can hold.
    pub capacity: nat,
    /// The workers.
    pub workers: Seq<WorkerView>,
    /// The groups that the queue has accepted, in the order of their coming.
    pub submitted: Seq<Seq<Point>>,
    /// How many of them workers have taken from the queue.
    pub taken: nat,
    /// How many stop signals the queue has accepted.
    pub stops_published: nat,
    /// How many of them workers have taken from the queue.
    pub stops_taken: nat,
    /// The groups reported, by position; the place in this sequence is the
    /// number of the report.
    pub reported: Seq<int>,
}

/// What can happen to a dispatch.
pub enum Event {
    /// The producer submits a group.
    Submit(Seq<Point>),
    /// The producer publishes a stop signal.
    PublishStop,
    /// The worker of this number asks for the head of the queue.
    Take(int),
    /// The worker of this number reports the result for its group.
    Complete(int),
}

/// How many of `workers` have stopped.
pub open spec fn stopped_count(workers: Seq<WorkerView>) -> nat
    decreases workers.len(),
{
    if workers.len() == 0 {
        0
    } else {
        stopped_count(workers.drop_last()) + if workers.last() is Stopped {
            1nat
        } else {
            0nat
        }
    }
}

/// Where one worker has stopped, at least one is counted.
proof fn lemma_stopped_worker_counts(workers: Seq<WorkerView>, w: int)
    requires
        0 <= w < workers.len(),
        workers[w] is Stopped,
    ensures
        stopped_count(workers) > 0,
    decreases workers.len(),
{
    if w < workers.len() - 1 {
        lemma_stopped_worker_counts(workers.drop_last(), w);
    }
}

/// What a change of one worker does to the number of stopped workers.
proof fn lemma_stopped_count_update(workers: Seq<WorkerView>, w: int, now: WorkerView)
    requires
        0 <= w < workers.len(),
    ensures
        stopped_count(workers.update(w, now)) + (if workers[w] is Stopped {
            1nat
        } else {
            0nat
        }) == stopped_count(workers) + (if now is Stopped {
            1nat
        } else {
            0nat
        }),
    decreases workers.len(),
{
    let changed = workers.update(w, now);
    if w < workers.len() - 1 {
        lemma_stopped_count_update(workers.drop_last(), w, now);
        assert(changed.drop_last() == workers.drop_last().update(w, now));
    } else {
        assert(changed.drop_last() == workers.drop_last());
    }
}

impl DispatchState {
    /// The state before anything has happened.
    pub open spec fn initial(workers: nat, capacity: nat) -> DispatchState {
        DispatchState {
            capacity,
            workers: Seq::new(workers, |w: int| WorkerView::Idle),
            submitted: Seq::empty(),
            taken: 0,
            stops_published: 0,
            stops_taken: 0,
            reported: Seq::empty(),
        }
    }

    /// The groups in the queue.
    pub open spec fn pending_groups(self) -> int {
        self.submitted.len() - self.taken
    }

    /// The stop signals in the queue. They stand behind the groups.
    pub open spec fn pending_stops(self) -> int {
        self.stops_published - self.stops_taken
    }

    /// The items in the queue.
    pub open spec fn queue_len(self) -> int {
        self.pending_groups() + self.pending_stops()
    }

    /// The producer has begun to publish stop signals.
    pub open spec fn closed(self) -> bool {
        self.stops_published > 0
    }

    /// The queue accepts `group`: the group is not empty, no stop signal has
    /// been published, there is room, and fewer than [`MAX_GROUPS`] groups
    /// came before.
    pub open spec fn accepts(self, group: Seq<Point>) -> bool {
        &&& group.len() > 0
        &&& !self.closed()
        &&& self.queue_len() < self.capacity
        &&& self.submitted.len() < MAX_GROUPS
    }

    /// The queue accepts one more stop signal: fewer have been published
    /// than there are workers, and there is room.
    pub open spec fn accepts_stop(self) -> bool {
        &&& self.stops_published < self.workers.len()
        &&& self.queue_len() < self.capacity
    }

    /// The worker `w` exists and is idle.
    pub open spec fn is_idle(self, w: int) -> bool {
        0 <= w < self.workers.len() && self.workers[w] is Idle
    }

    /// The worker `w` exists and works on a group.
    pub open spec fn is_running(self, w: int) -> bool {
        0 <= w < self.workers.len() && self.workers[w] is Running
    }

    /// Every worker has taken a stop signal.
    pub open spec fn all_stopped(self) -> bool {
        forall|w: int| 0 <= w < self.workers.len() ==> #[trigger] self.workers[w] is Stopped
    }

    pub open spec fn submit(self, group: Seq<Point>) -> DispatchState {
        if self.accepts(group) {
            DispatchState { submitted: self.submitted.push(group), ..self }
        } else {
            self
        }
    }

    pub open spec fn publish_stop(self) -> DispatchState {
        if self.accepts_stop() {
            DispatchState { stops_published: self.stops_published + 1, ..self }
        } else {
            self
        }
    }

    /// An idle worker takes the head of the queue: the oldest group, or,
    /// where no group is left, a stop signal.
    pub open spec fn take(self, w: int) -> DispatchState {
        if !self.is_idle(w) || self.queue_len() <= 0 {
            self
        } else if self.pending_groups() > 0 {
            DispatchState {
                workers: self.workers.update(w, WorkerView::Running(self.taken as int)),
                taken: self.taken + 1,
                ..self
            }
        } else {
            DispatchState {
                workers: self.workers.update(w, WorkerView::Stopped),
                stops_taken: self.stops_taken + 1,
                ..self
            }
        }
    }

    /// A running worker reports its group and is idle again.
    pub open spec fn complete(self, w: int) -> DispatchState {
        if self.is_running(w) {
            DispatchState {
                workers: self.workers.update(w, WorkerView::Idle),
                reported: self.reported.push(self.workers[w]->Running_0),
                ..self
            }
        } else {
            self
        }
    }

    /// The state after `event`. An event that cannot take place leaves the
    /// state as it is.
    pub open spec fn step(self, event: Event) -> DispatchState {
        match event {
            Event::Submit(group) => self.submit(group),
            Event::PublishStop => self.publish_stop(),
            Event::Take(w) => self.take(w),
            Event::Complete(w) => self.complete(w),
        }
    }

    /// The state after `events`, one after the other.
    pub open spec fn run(self, events: Seq<Event>) -> DispatchState
        decreases events.len(),
    {
        if events.len() == 0 {
            self
        } else {
            self.run(events.drop_last()).step(events.last())
        }
    }

    /// Some worker works on the group at `position`.
    pub open spec fn in_progress(self, position: int) -> bool {
        exists|w: int|
            0 <= w < self.workers.len() && #[trigger] self.workers[w] == WorkerView::Running(
                position,
            )
    }

    /// What holds of every state that a dispatch can reach.
    pub open spec fn consistent(self) -> bool {
        &&& self.capacity > 0
        &&& self.workers.len() > 0
        &&& self.taken <= self.submitted.len() <= MAX_GROUPS
        &&& self.stops_taken <= self.stops_published <= self.workers.len()
        &&& self.queue_len() <= self.capacity
        &&& forall|i: int| 0 <= i < self.submitted.len() ==> (#[trigger] self.submitted[i]).len() > 0
        // A stop signal leaves the queue only when no group stands before it.
        &&& self.stops_taken > 0 ==> self.taken == self.submitted.len()
        // Each stop signal taken has stopped one worker.
        &&& self.stops_taken == stopped_count(self.workers)
        // A group in progress has been taken and not reported.
        &&& forall|w: int|
            0 <= w < self.workers.len() && #[trigger] self.workers[w] is Running ==> {
                &&& 0 <= self.workers[w]->Running_0 < self.taken
                &&& !self.reported.contains(self.workers[w]->Running_0)
            }
        // No two workers have the same group.
        &&& forall|v: int, w: int|
            0 <= v < w < self.workers.len() && #[trigger] self.workers[v] is Running
                && #[trigger] self.workers[w] is Running ==> self.workers[v] != self.workers[w]
        // No group is reported twice, and only groups taken are reported.
        &&& self.reported.no_duplicates()
        &&& forall|n: int|
            0 <= n < self.reported.len() ==> 0 <= #[trigger] self.reported[n] < self.taken
        // A group taken is in progress or reported.
        &&& forall|i: int|
            0 <= i < self.taken ==> self.in_progress(i) || #[trigger] self.reported.contains(i)
    }

    /// The group at each position below `submitted.len()` has been reported
    /// exactly once, and nothing else has.
    pub open spec fn all_reported(self) -> bool {
        &&& self.reported.len() == self.submitted.len()
        &&& self.reported.no_duplicates()
        &&& forall|i: int| 0 <= i < self.submitted.len() ==> #[trigger] self.reported.contains(i)
    }
}

/// A dispatch starts in a state that is consistent.
pub proof fn lemma_initial_state(workers: nat, capacity: nat)
    requires
        workers > 0,
        capacity > 0,
    ensures
        DispatchState::initial(workers, capacity).consistent(),
{
    let s = DispatchState::initial(workers, capacity);
    lemma_none_stopped_count(s.workers);
}

/// No event leads out of the states that are consistent.
pub proof fn lemma_step_keeps_consistency(s: DispatchState, event: Event)
    requires
        s.consistent(),
    ensures
        s.step(event).consistent(),
{
    let t = s.step(event);
    match event {
        Event::Submit(group) => {
            if s.accepts(group) {
                assert forall|i: int| 0 <= i < t.taken implies t.in_progress(i)
                    || t.reported.contains(i) by {
                    lemma_in_progress_same_workers(s, t, i);
                }
            }
        },
        Event::PublishStop => {
            if s.accepts_stop() {
                assert forall|i: int| 0 <= i < t.taken implies t.in_progress(i)
                    || t.reported.contains(i) by {
                    lemma_in_progress_same_workers(s, t, i);
                }
            }
        },
        Event::Take(w) => {
            if s.is_idle(w) && s.queue_len() > 0 {
                lemma_stopped_count_update(s.workers, w, t.workers[w]);
                assert(t.workers == s.workers.update(w, t.workers[w]));
                assert forall|i: int| 0 <= i < t.taken implies t.in_progress(i)
                    || t.reported.contains(i) by {
                    if i == s.taken && s.pending_groups() > 0 {
                        assert(t.workers[w] == WorkerView::Running(i));
                    } else if s.in_progress(i) {
                        let v = choose|v: int|
                            0 <= v < s.workers.len() && #[trigger] s.workers[v]
                                == WorkerView::Running(i);
                        assert(t.workers[v] == WorkerView::Running(i));
                    }
                }
            }
        },
        Event::Complete(w) => {
            if s.is_running(w) {
                lemma_stopped_count_update(s.workers, w, WorkerView::Idle);
                let done = s.workers[w]->Running_0;
                assert(t.reported == s.reported.push(done));
                assert forall|i: int| 0 <= i < t.taken implies t.in_progress(i)
                    || t.reported.contains(i) by {
                    if i == done {
                        assert(t.reported[s.reported.len() as int] == done);
                    } else if s.in_progress(i) {
                        let v = choose|v: int|
                            0 <= v < s.workers.len() && #[trigger] s.workers[v]
                                == WorkerView::Running(i);
                        assert(t.workers[v] == WorkerView::Running(i));
                    } else {
                        assert(s.reported.contains(i));
                        let n = choose|n: int| 0 <= n < s.reported.len() && s.reported[n] == i;
                        assert(t.reported[n] == i);
                    }
                }
                assert forall|v: int|
                    0 <= v < t.workers.len() && #[trigger] t.workers[v] is Running implies {
                    !t.reported.contains(t.workers[v]->Running_0)
                } by {
                    assert(s.workers[v] is Running);
                    assert(v != w);
                    if v < w {
                        assert(s.workers[v] != s.workers[w]);
                    } else {
                        assert(s.workers[w] != s.workers[v]);
                    }
                }
            }
        },
    }
}

/// Where the workers are the same, the same groups are in progress.
proof fn lemma_in_progress_same_workers(s: DispatchState, t: DispatchState, position: int)
    requires
        s.workers == t.workers,
    ensures
        s.in_progress(position) == t.in_progress(position),
{
}

/// Whatever happens, in whatever order, the state stays consistent.
pub proof fn lemma_run_keeps_consistency(s: DispatchState, events: Seq<Event>)
    requires
        s.consistent(),
    ensures
        s.run(events).consistent(),
    decreases events.len(),
{
    if events.len() > 0 {
        lemma_run_keeps_consistency(s, events.drop_last());
        lemma_step_keeps_consistency(s.run(events.drop_last()), events.last());
    }
}

/// A sequence of distinct positions below `bound` is at most `bound` long,
/// and shorter where a position below `bound` is missing from it.
proof fn lemma_distinct_positions(positions: Seq<int>, bound: int)
    requires
        0 <= bound,
        positions.no_duplicates(),
        forall|n: int| 0 <= n < positions.len() ==> 0 <= #[trigger] positions[n] < bound,
    ensures
        positions.len() <= bound,
        (exists|i: int| 0 <= i < bound && !positions.contains(i)) ==> positions.len() < bound,
{
    let range = vstd::set_lib::set_int_range(0, bound);
    vstd::set_lib::lemma_int_range(0, bound);
    positions.unique_seq_to_set();
    assert(positions.to_set().subset_of(range));
    vstd::set_lib::lemma_len_subset(positions.to_set(), range);
    if exists|i: int| 0 <= i < bound && !positions.contains(i) {
        let i = choose|i: int| 0 <= i < bound && !positions.contains(i);
        if positions.len() == bound {
            vstd::set_lib::lemma_subset_equality(positions.to_set(), range);
            assert(range.contains(i));
            assert(positions.to_set().contains(i));
        }
    }
}

/// While a worker is running, fewer groups have been reported than taken.
pub proof fn lemma_running_means_fewer_reports(s: DispatchState, w: int)
    requires
        s.consistent(),
        s.is_running(w),
    ensures
        s.reported.len() < s.taken,
{
    let position = s.workers[w]->Running_0;
    assert(0 <= position < s.taken && !s.reported.contains(position));
    lemma_distinct_positions(s.reported, s.taken as int);
}

/// Once every worker has stopped, every group that the queue accepted has
/// been reported exactly once: none dropped, none reported twice, and as
/// many reports as groups.
pub proof fn lemma_stopped_means_all_reported(s: DispatchState)
    requires
        s.consistent(),
        s.all_stopped(),
    ensures
        s.all_reported(),
        s.queue_len() == 0,
{
    assert(s.workers[0] is Stopped);
    lemma_stopped_worker_counts(s.workers, 0);
    assert(s.taken == s.submitted.len());
    assert forall|i: int| 0 <= i < s.submitted.len() implies #[trigger] s.reported.contains(i) by {
        if s.in_progress(i) {
            let w = choose|w: int|
                0 <= w < s.workers.len() && #[trigger] s.workers[w] == WorkerView::Running(i);
            assert(s.workers[w] is Stopped);
        }
    }
    lemma_distinct_positions(s.reported, s.taken as int);
    if s.reported.len() < s.taken {
        lemma_missing_position(s.reported, s.taken as int);
    }
    lemma_all_stopped_count(s.workers);
}

/// A sequence that holds every position below `bound` is at least `bound`
/// long.
proof fn lemma_missing_position(positions: Seq<int>, bound: int)
    requires
        0 <= bound,
        forall|i: int| 0 <= i < bound ==> #[trigger] positions.contains(i),
    ensures
        positions.len() >= bound,
{
    let range = vstd::set_lib::set_int_range(0, bound);
    vstd::set_lib::lemma_int_range(0, bound);
    assert(range.subset_of(positions.to_set()));
    vstd::seq_lib::seq_to_set_is_finite(positions);
    vstd::set_lib::lemma_len_subset(range, positions.to_set());
    positions.lemma_cardinality_of_set();
}

/// Where no worker has stopped, none is counted.
proof fn lemma_none_stopped_count(workers: Seq<WorkerView>)
    requires
        forall|w: int| 0 <= w < workers.len() ==> !(#[trigger] workers[w] is Stopped),
    ensures
        stopped_count(workers) == 0,
    decreases workers.len(),
{
    if workers.len() > 0 {
        lemma_none_stopped_count(workers.drop_last());
    }
}

/// Once every worker has stopped, as many are stopped as there are.
proof fn lemma_all_stopped_count(workers: Seq<WorkerView>)
    requires
        forall|w: int| 0 <= w < workers.len() ==> #[trigger] workers[w] is Stopped,
    ensures
        stopped_count(workers) == workers.len(),
    decreases workers.len(),
{
    if workers.len() > 0 {
        lemma_all_stopped_count(workers.drop_last());
    }
}

/// However producer and workers take their turns: once every worker has
/// stopped, every group that the queue accepted has been reported exactly
/// once, and the queue is empty.
pub proof fn lemma_every_run_reports_every_group(workers: nat, capacity: nat, events: Seq<Event>)
    requires
        workers > 0,
        capacity > 0,
        DispatchState::initial(workers, capacity).run(events).all_stopped(),
    ensures
        DispatchState::initial(workers, capacity).run(events).all_reported(),
        DispatchState::initial(workers, capacity).run(events).queue_len() == 0,
{
    let start = DispatchState::initial(workers, capacity);
    lemma_initial_state(workers, capacity);
    lemma_run_keeps_consistency(start, events);
    lemma_stopped_means_all_reported(start.run(events));
}

} // verus!
