use fourget::scheduler::{Order, Scheduler, Signal, Tally};
use fourget::worker::Outcome;

fn done(outcome: Outcome) -> Signal {
    Signal::Completed { outcome }
}

fn run_phase(total: usize, concurrency: usize, outcomes: &[Outcome]) -> (Vec<usize>, usize, Tally) {
    let (mut scheduler, mut order) = Scheduler::start(total, concurrency);
    let mut dispatched = Vec::new();
    let mut awaited = 0;
    loop {
        order = match order {
            Order::Dispatch { index } => {
                assert_eq!(awaited, 0);
                dispatched.push(index);
                scheduler.step(Signal::Submitted).unwrap()
            }
            Order::Await => {
                let outcome = outcomes[awaited % outcomes.len()];
                awaited += 1;
                scheduler.step(done(outcome)).unwrap()
            }
            Order::Return => {
                assert_eq!(scheduler.dispatched(), total);
                assert_eq!(scheduler.completed(), total);
                return (dispatched, awaited, scheduler.tally());
            }
        };
    }
}

#[test]
fn scheduler_starts_with_the_first_dispatch() {
    let (scheduler, order) = Scheduler::start(3, 2);
    assert_eq!(order, Order::Dispatch { index: 0 });
    assert_eq!(scheduler.order(), Order::Dispatch { index: 0 });
    assert_eq!(scheduler.total(), 3);
    assert_eq!(scheduler.concurrency(), 2);
    assert_eq!(scheduler.dispatched(), 0);
    assert_eq!(scheduler.completed(), 0);
    assert_eq!(
        scheduler.tally(),
        Tally { succeeded: 0, skipped: 0, fetch_failed: 0, io_failed: 0 }
    );
}

#[test]
fn scheduler_without_targets_returns_at_once() {
    let (mut scheduler, order) = Scheduler::start(0, 4);
    assert_eq!(order, Order::Return);
    assert_eq!(scheduler.step(Signal::Submitted), None);
    assert_eq!(scheduler.step(done(Outcome::Success)), None);
    assert_eq!(scheduler.order(), Order::Return);
}

#[test]
fn scheduler_dispatches_all_then_awaits_all() {
    let (mut scheduler, _) = Scheduler::start(2, 1);
    assert_eq!(scheduler.step(Signal::Submitted), Some(Order::Dispatch { index: 1 }));
    assert_eq!(scheduler.step(Signal::Submitted), Some(Order::Await));
    assert_eq!(scheduler.step(done(Outcome::Skipped)), Some(Order::Await));
    assert_eq!(scheduler.completed(), 1);
    assert_eq!(scheduler.step(done(Outcome::FetchFailed)), Some(Order::Return));
    assert_eq!(scheduler.completed(), 2);
    assert_eq!(
        scheduler.tally(),
        Tally { succeeded: 0, skipped: 1, fetch_failed: 1, io_failed: 0 }
    );
}

#[test]
fn scheduler_passes_over_signals_that_answer_nothing() {
    let (mut scheduler, _) = Scheduler::start(1, 1);
    assert_eq!(scheduler.step(done(Outcome::Success)), None);
    assert_eq!(scheduler.dispatched(), 0);
    assert_eq!(scheduler.completed(), 0);
    assert_eq!(scheduler.step(Signal::Submitted), Some(Order::Await));
    assert_eq!(scheduler.step(Signal::Submitted), None);
    assert_eq!(scheduler.dispatched(), 1);
    assert_eq!(scheduler.step(done(Outcome::Success)), Some(Order::Return));
    assert_eq!(scheduler.step(done(Outcome::Success)), None);
    assert_eq!(scheduler.step(Signal::Submitted), None);
    assert_eq!(scheduler.completed(), 1);
    assert_eq!(
        scheduler.tally(),
        Tally { succeeded: 1, skipped: 0, fetch_failed: 0, io_failed: 0 }
    );
}

#[test]
fn join_counts_one_signal_per_target_whatever_the_pool() {
    for total in 0..12 {
        for concurrency in [1, 2, 3, total.max(1), total + 5, usize::MAX] {
            let (dispatched, awaited, tally) = run_phase(total, concurrency, &[Outcome::Success]);
            assert_eq!(dispatched, (0..total).collect::<Vec<usize>>());
            assert_eq!(awaited, total);
            assert_eq!(tally.succeeded, total);
        }
    }
}

#[test]
fn failures_are_counted_and_stop_nothing() {
    let outcomes = [Outcome::Success, Outcome::FetchFailed, Outcome::IoFailed, Outcome::Skipped];
    let (dispatched, awaited, tally) = run_phase(10, 3, &outcomes);
    assert_eq!(dispatched, vec![0, 1, 2, 3, 4, 5, 6, 7, 8, 9]);
    assert_eq!(awaited, 10);
    assert_eq!(tally, Tally { succeeded: 3, skipped: 2, fetch_failed: 3, io_failed: 2 });
    let (all_failed, awaited, tally) = run_phase(4, 2, &[Outcome::FetchFailed]);
    assert_eq!(all_failed, vec![0, 1, 2, 3]);
    assert_eq!(awaited, 4);
    assert_eq!(tally, Tally { succeeded: 0, skipped: 0, fetch_failed: 4, io_failed: 0 });
}
