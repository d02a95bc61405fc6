use genetic_algorithm_rust::dispatcher::{
    Assignment, Dispatcher, StopSignal, Submission, WorkerPhase,
};
use genetic_algorithm_rust::geometry::Point;

fn group(tag: u64) -> Vec<Point> {
    vec![Point { x: tag, y: 0 }, Point { x: tag, y: 1 }]
}

fn take_group(dispatcher: &mut Dispatcher, worker: usize) -> Vec<Point> {
    match dispatcher.take(worker) {
        Assignment::Group(found) => found,
        other => panic!("worker {} got {:?}", worker, other),
    }
}

#[test]
fn dispatcher_needs_workers_and_room() {
    assert!(Dispatcher::new(0, 4).is_none());
    assert!(Dispatcher::new(4, 0).is_none());
    assert!(Dispatcher::new(0, 0).is_none());
    assert!(Dispatcher::new(1, 1).is_some());
}

#[test]
fn new_dispatcher_is_empty_and_idle() {
    let dispatcher = Dispatcher::new(3, 5).unwrap();
    assert_eq!(dispatcher.pending(), 0);
    assert_eq!(dispatcher.accepted(), 0);
    assert_eq!(dispatcher.reports(), 0);
    assert!(!dispatcher.is_finished());
    for worker in 0..3 {
        assert_eq!(dispatcher.phase(worker), Some(WorkerPhase::Idle));
    }
    assert_eq!(dispatcher.phase(3), None);
}

#[test]
fn groups_leave_the_queue_in_the_order_of_their_coming() {
    let mut dispatcher = Dispatcher::new(2, 8).unwrap();
    for tag in 0..5 {
        assert!(matches!(dispatcher.submit(group(tag)), Submission::Queued));
    }
    assert_eq!(dispatcher.pending(), 5);
    for tag in 0..5 {
        assert_eq!(take_group(&mut dispatcher, 0), group(tag));
        assert_eq!(dispatcher.complete(0), Some(tag));
    }
    assert_eq!(dispatcher.pending(), 0);
}

#[test]
fn empty_group_is_passed_over() {
    let mut dispatcher = Dispatcher::new(1, 2).unwrap();
    assert!(matches!(dispatcher.submit(Vec::new()), Submission::Skipped));
    assert_eq!(dispatcher.pending(), 0);
    assert_eq!(dispatcher.accepted(), 0);
}

#[test]
fn full_queue_hands_the_group_back() {
    let mut dispatcher = Dispatcher::new(1, 2).unwrap();
    assert!(matches!(dispatcher.submit(group(1)), Submission::Queued));
    assert!(matches!(dispatcher.submit(group(2)), Submission::Queued));
    match dispatcher.submit(group(3)) {
        Submission::Full(back) => assert_eq!(back, group(3)),
        other => panic!("got {:?}", other),
    }
    assert_eq!(dispatcher.pending(), 2);
    assert_eq!(take_group(&mut dispatcher, 0), group(1));
    assert!(matches!(dispatcher.submit(group(3)), Submission::Queued));
}

#[test]
fn no_group_is_accepted_after_a_stop_signal() {
    let mut dispatcher = Dispatcher::new(2, 4).unwrap();
    assert_eq!(dispatcher.publish_stop(), StopSignal::Queued);
    match dispatcher.submit(group(1)) {
        Submission::Closed(back) => assert_eq!(back, group(1)),
        other => panic!("got {:?}", other),
    }
    assert!(matches!(dispatcher.submit(Vec::new()), Submission::Skipped));
}

#[test]
fn one_stop_signal_for_each_worker() {
    let mut dispatcher = Dispatcher::new(3, 8).unwrap();
    assert_eq!(dispatcher.publish_stop(), StopSignal::Queued);
    assert_eq!(dispatcher.publish_stop(), StopSignal::Queued);
    assert_eq!(dispatcher.publish_stop(), StopSignal::Queued);
    assert_eq!(dispatcher.publish_stop(), StopSignal::AllPublished);
    assert_eq!(dispatcher.pending(), 3);
}

#[test]
fn stop_signal_waits_for_room() {
    let mut dispatcher = Dispatcher::new(2, 1).unwrap();
    assert!(matches!(dispatcher.submit(group(1)), Submission::Queued));
    assert_eq!(dispatcher.publish_stop(), StopSignal::Full);
    assert_eq!(take_group(&mut dispatcher, 0), group(1));
    assert_eq!(dispatcher.publish_stop(), StopSignal::Queued);
    assert_eq!(dispatcher.publish_stop(), StopSignal::Full);
}

#[test]
fn idle_worker_waits_at_an_empty_queue() {
    let mut dispatcher = Dispatcher::new(1, 1).unwrap();
    assert!(matches!(dispatcher.take(0), Assignment::Wait));
    assert_eq!(dispatcher.phase(0), Some(WorkerPhase::Idle));
}

#[test]
fn worker_runs_until_it_reports() {
    let mut dispatcher = Dispatcher::new(1, 4).unwrap();
    dispatcher.submit(group(1));
    dispatcher.submit(group(2));
    assert_eq!(take_group(&mut dispatcher, 0), group(1));
    assert_eq!(dispatcher.phase(0), Some(WorkerPhase::Running));
    assert!(matches!(dispatcher.take(0), Assignment::NotIdle));
    assert_eq!(dispatcher.pending(), 1);
    assert_eq!(dispatcher.complete(0), Some(0));
    assert_eq!(dispatcher.phase(0), Some(WorkerPhase::Idle));
    assert_eq!(take_group(&mut dispatcher, 0), group(2));
}

#[test]
fn only_a_running_worker_reports() {
    let mut dispatcher = Dispatcher::new(2, 4).unwrap();
    assert_eq!(dispatcher.complete(0), None);
    assert_eq!(dispatcher.complete(7), None);
    dispatcher.submit(group(1));
    take_group(&mut dispatcher, 1);
    assert_eq!(dispatcher.complete(0), None);
    assert_eq!(dispatcher.complete(1), Some(0));
    assert_eq!(dispatcher.complete(1), None);
    assert_eq!(dispatcher.reports(), 1);
}

#[test]
fn unknown_worker_gets_nothing() {
    let mut dispatcher = Dispatcher::new(2, 4).unwrap();
    dispatcher.submit(group(1));
    assert!(matches!(dispatcher.take(2), Assignment::NotIdle));
    assert_eq!(dispatcher.pending(), 1);
}

#[test]
fn stopped_worker_takes_nothing_more() {
    let mut dispatcher = Dispatcher::new(2, 4).unwrap();
    dispatcher.publish_stop();
    dispatcher.publish_stop();
    assert!(matches!(dispatcher.take(0), Assignment::Stop));
    assert_eq!(dispatcher.phase(0), Some(WorkerPhase::Stopped));
    assert!(matches!(dispatcher.take(0), Assignment::NotIdle));
    assert_eq!(dispatcher.pending(), 1);
    assert!(!dispatcher.is_finished());
    assert!(matches!(dispatcher.take(1), Assignment::Stop));
    assert!(dispatcher.is_finished());
}

#[test]
fn numbers_follow_the_order_of_the_reports() {
    let mut dispatcher = Dispatcher::new(3, 4).unwrap();
    for tag in 0..3 {
        dispatcher.submit(group(tag));
    }
    assert_eq!(take_group(&mut dispatcher, 0), group(0));
    assert_eq!(take_group(&mut dispatcher, 1), group(1));
    assert_eq!(take_group(&mut dispatcher, 2), group(2));
    // The worker with the last group is done first.
    assert_eq!(dispatcher.complete(2), Some(0));
    assert_eq!(dispatcher.complete(0), Some(1));
    assert_eq!(dispatcher.complete(1), Some(2));
}

/// Runs `groups` groups through `workers` workers. `pick` chooses, from the
/// number of the step, which of the moves that are possible is made.
fn run(workers: usize, capacity: usize, groups: u64, pick: &dyn Fn(usize) -> usize) -> Vec<(u64, Vec<Point>)> {
    let mut dispatcher = Dispatcher::new(workers, capacity).unwrap();
    let mut next_group = 0u64;
    let mut stops = 0usize;
    let mut held: Vec<Option<Vec<Point>>> = vec![None; workers];
    let mut reports = Vec::new();
    let mut step = 0usize;
    while !dispatcher.is_finished() {
        step += 1;
        assert!(step < 100_000);
        let choice = pick(step) % (workers + 1);
        if choice == workers {
            if next_group < groups {
                match dispatcher.submit(group(next_group)) {
                    Submission::Queued => next_group += 1,
                    Submission::Full(back) => assert_eq!(back, group(next_group)),
                    other => panic!("got {:?}", other),
                }
            } else if stops < workers {
                if dispatcher.publish_stop() == StopSignal::Queued {
                    stops += 1;
                }
            }
            continue;
        }
        let worker = choice;
        if let Some(found) = held[worker].take() {
            let number = dispatcher.complete(worker).unwrap();
            reports.push((number, found));
        } else {
            match dispatcher.take(worker) {
                Assignment::Group(found) => held[worker] = Some(found),
                Assignment::Stop | Assignment::Wait | Assignment::NotIdle => {}
            }
        }
    }
    assert_eq!(dispatcher.pending(), 0);
    assert_eq!(dispatcher.accepted(), groups);
    assert_eq!(dispatcher.reports(), groups);
    reports
}

fn check_reports(reports: &[(u64, Vec<Point>)], groups: u64) {
    assert_eq!(reports.len() as u64, groups);
    for (place, (number, _)) in reports.iter().enumerate() {
        assert_eq!(*number, place as u64);
    }
    for tag in 0..groups {
        assert_eq!(reports.iter().filter(|(_, found)| *found == group(tag)).count(), 1);
    }
}

#[test]
fn every_group_is_reported_once_with_fewer_workers_than_groups() {
    let reports = run(3, 4, 10, &|step| step);
    check_reports(&reports, 10);
}

#[test]
fn every_group_is_reported_once_whatever_the_order_of_moves() {
    for workers in 1..5 {
        for capacity in 1..4 {
            for stride in [1usize, 2, 3, 5, 7, 11] {
                let reports = run(workers, capacity, 9, &|step| (step * stride + step / 3) % 97);
                check_reports(&reports, 9);
            }
        }
    }
}

#[test]
fn dispatch_without_groups_only_stops_the_workers() {
    let reports = run(4, 2, 0, &|step| step);
    assert!(reports.is_empty());
}

#[test]
fn one_worker_handles_every_group() {
    let reports = run(1, 1, 6, &|step| step);
    check_reports(&reports, 6);
    for (place, (_, found)) in reports.iter().enumerate() {
        assert_eq!(*found, group(place as u64));
    }
}
