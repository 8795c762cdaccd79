//! The download scheduler: fan-out of one task per target, then a join that
//! counts one completion signal per task.
//!
//! The scheduler starts no task and waits for none itself. It hands out one
//! [`Order`] at a time; the caller carries it out on its worker pool and
//! reports back with a [`Signal`].

use vstd::prelude::*;
use crate::worker::Outcome;

verus! {

/// What the caller is to do next.
#[derive(Clone, Copy, Debug, PartialEq, Eq, Structural)]
pub enum Order {
    /// Submit the task for the target at `index` to the pool.
    Dispatch { index: usize },
    /// Block until one task signals that it has finished.
    Await,
    /// All tasks were submitted and all have finished: return.
    Return,
}

/// What the caller reports.
#[derive(Clone, Copy, Debug, PartialEq, Eq, Structural)]
pub enum Signal {
    /// The task of the pending `Dispatch` order was submitted.
    Submitted,
    /// One task has finished, with `outcome`.
    Completed { outcome: Outcome },
}

/// How many tasks ended in each way.
#[derive(Clone, Copy, Debug, PartialEq, Eq, Structural)]
pub struct Tally {
    pub succeeded: usize,
    pub skipped: usize,
    pub fetch_failed: usize,
    pub io_failed: usize,
}

/// The mathematical value of a [`Tally`].
pub ghost struct TallyView {
    pub succeeded: nat,
    pub skipped: nat,
    pub fetch_failed: nat,
    pub io_failed: nat,
}

impl TallyView {
    /// The tally of no tasks.
    pub open spec fn zero() -> TallyView {
        TallyView { succeeded: 0, skipped: 0, fetch_failed: 0, io_failed: 0 }
    }

    /// The number of tasks counted.
    pub open spec fn sum(self) -> nat {
        self.succeeded + self.skipped + self.fetch_failed + self.io_failed
    }

    /// The tally with one more task that ended with `outcome`.
    pub open spec fn count(self, outcome: Outcome) -> TallyView {
        match outcome {
            Outcome::Success => TallyView { succeeded: self.succeeded + 1, ..self },
            Outcome::Skipped => TallyView { skipped: self.skipped + 1, ..self },
            Outcome::FetchFailed => TallyView { fetch_failed: self.fetch_failed + 1, ..self },
            Outcome::IoFailed => TallyView { io_failed: self.io_failed + 1, ..self },
        }
    }
}

impl View for Tally {
    type V = TallyView;

    open spec fn view(&self) -> TallyView {
        TallyView {
            succeeded: self.succeeded as nat,
            skipped: self.skipped as nat,
            fetch_failed: self.fetch_failed as nat,
            io_failed: self.io_failed as nat,
        }
    }
}

impl Tally {
    /// The tally with one more task that ended with `outcome`.
    fn count(self, outcome: Outcome) -> (tally: Tally)
        requires
            self@.sum() < usize::MAX,
        ensures
            tally@ == self@.count(outcome),
    {
        match outcome {
            Outcome::Success => Tally { succeeded: self.succeeded + 1, ..self },
            Outcome::Skipped => Tally { skipped: self.skipped + 1, ..self },
            Outcome::FetchFailed => Tally { fetch_failed: self.fetch_failed + 1, ..self },
            Outcome::IoFailed => Tally { io_failed: self.io_failed + 1, ..self },
        }
    }
}

/// The scheduler of one download phase.
#[derive(Debug)]
pub struct Scheduler {
    total: usize,
    concurrency: usize,
    dispatched: usize,
    completed: usize,
    tally: Tally,
}

/// The mathematical value of a [`Scheduler`].
pub ghost struct SchedulerView {
    /// The number of targets of the phase.
    pub total: nat,
    /// The number of tasks that the pool runs at a time.
    pub concurrency: nat,
    /// The number of tasks submitted so far.
    pub dispatched: nat,
    /// The number of completion signals received so far.
    pub completed: nat,
    /// How the tasks that have signalled ended.
    pub tally: TallyView,
}

impl SchedulerView {
    /// What holds of every scheduler: the pool has at least one worker, no
    /// more tasks were submitted than there are targets, no more have
    /// signalled than were submitted, and each signal was counted once.
    pub open spec fn well_formed(self) -> bool {
        &&& self.concurrency >= 1
        &&& self.completed <= self.dispatched <= self.total
        &&& self.tally.sum() == self.completed
    }

    /// The scheduler at the start of a phase over `total` targets.
    pub open spec fn initial(total: nat, concurrency: nat) -> SchedulerView {
        SchedulerView { total, concurrency, dispatched: 0, completed: 0, tally: TallyView::zero() }
    }

    /// The pending order. All tasks are submitted, in the order of the
    /// targets, before the first signal is awaited; the phase returns when
    /// as many signals were received as there are targets.
    pub open spec fn order(self) -> Order {
        if self.dispatched < self.total {
            Order::Dispatch { index: self.dispatched as usize }
        } else if self.completed < self.total {
            Order::Await
        } else {
            Order::Return
        }
    }

    /// The scheduler after a signal, or `None` where the signal does not
    /// answer the pending order.
    pub open spec fn signal(self, signal: Signal) -> Option<SchedulerView> {
        match (self.order(), signal) {
            (Order::Dispatch { index }, Signal::Submitted) => Some(
                SchedulerView { dispatched: self.dispatched + 1, ..self },
            ),
            (Order::Await, Signal::Completed { outcome }) => Some(
                SchedulerView {
                    completed: self.completed + 1,
                    tally: self.tally.count(outcome),
                    ..self
                },
            ),
            _ => None,
        }
    }

    /// The scheduler after a sequence of signals; those that do not answer
    /// the order pending at their turn are passed over.
    pub open spec fn run(self, signals: Seq<Signal>) -> SchedulerView
        decreases signals.len(),
    {
        if signals.len() == 0 {
            self
        } else {
            let earlier = self.run(signals.drop_last());
            match earlier.signal(signals.last()) {
                Some(next) => next,
                None => earlier,
            }
        }
    }

    /// The number of completion signals that were received in the course
    /// of a sequence of signals.
    pub open spec fn received(self, signals: Seq<Signal>) -> nat
        decreases signals.len(),
    {
        if signals.len() == 0 {
            0
        } else {
            let earlier = self.run(signals.drop_last());
            let before = self.received(signals.drop_last());
            if signals.last() is Completed && earlier.signal(signals.last()) is Some {
                before + 1
            } else {
                before
            }
        }
    }
}

impl View for Scheduler {
    type V = SchedulerView;

    closed spec fn view(&self) -> SchedulerView {
        SchedulerView {
            total: self.total as nat,
            concurrency: self.concurrency as nat,
            dispatched: self.dispatched as nat,
            completed: self.completed as nat,
            tally: self.tally@,
        }
    }
}

impl Scheduler {
    #[verifier::type_invariant]
    spec fn holds(self) -> bool {
        self@.well_formed()
    }

    /// The scheduler for a phase over `total` targets on a pool of
    /// `concurrency` workers, with its first order.
    pub fn start(total: usize, concurrency: usize) -> (begun: (Scheduler, Order))
        requires
            concurrency >= 1,
        ensures
            begun.0@ == SchedulerView::initial(total as nat, concurrency as nat),
            begun.1 == begun.0@.order(),
    {
        let scheduler = Scheduler {
            total,
            concurrency,
            dispatched: 0,
            completed: 0,
            tally: Tally { succeeded: 0, skipped: 0, fetch_failed: 0, io_failed: 0 },
        };
        let order = scheduler.order();
        (scheduler, order)
    }

    /// The pending order.
    pub fn order(&self) -> (order: Order)
        ensures
            order == self@.order(),
            self@.well_formed(),
    {
        proof {
            use_type_invariant(self);
        }
        if self.dispatched < self.total {
            Order::Dispatch { index: self.dispatched }
        } else if self.completed < self.total {
            Order::Await
        } else {
            Order::Return
        }
    }

    /// Takes note of `signal` and hands out the next order. A signal that
    /// does not answer the pending order changes nothing and gets `None`.
    pub fn step(&mut self, signal: Signal) -> (order: Option<Order>)
        ensures
            final(self)@.well_formed(),
            match old(self)@.signal(signal) {
                Some(next) => final(self)@ == next && order == Some(next.order()),
                None => final(self)@ == old(self)@ && order is None,
            },
    {
        proof {
            use_type_invariant(&*self);
        }
        match (self.order(), signal) {
            (Order::Dispatch { index }, Signal::Submitted) => {
                self.dispatched = self.dispatched + 1;
            },
            (Order::Await, Signal::Completed { outcome }) => {
                *self = Scheduler {
                    total: self.total,
                    concurrency: self.concurrency,
                    dispatched: self.dispatched,
                    completed: self.completed + 1,
                    tally: self.tally.count(outcome),
                };
            },
            _ => {
                return None;
            },
        }
        Some(self.order())
    }

    /// The number of targets of the phase.
    pub fn total(&self) -> (total: usize)
        ensures
            total == self@.total,
    {
        self.total
    }

    /// The number of tasks that the pool is to run at a time; at least one.
    pub fn concurrency(&self) -> (concurrency: usize)
        ensures
            concurrency == self@.concurrency,
            concurrency >= 1,
    {
        proof {
            use_type_invariant(self);
        }
        self.concurrency
    }

    /// The number of tasks submitted so far.
    pub fn dispatched(&self) -> (dispatched: usize)
        ensures
            dispatched == self@.dispatched,
    {
        self.dispatched
    }

    /// The number of completion signals received so far.
    pub fn completed(&self) -> (completed: usize)
        ensures
            completed == self@.completed,
    {
        self.completed
    }

    /// How the tasks that have signalled ended.
    pub fn tally(&self) -> (tally: Tally)
        ensures
            tally@ == self@.tally,
            tally@.sum() == self@.completed,
    {
        proof {
            use_type_invariant(self);
        }
        self.tally
    }
}

/// Every scheduler that a sequence of signals leads to is well formed.
pub proof fn lemma_run_is_well_formed(start: SchedulerView, signals: Seq<Signal>)
    requires
        start.well_formed(),
    ensures
        start.run(signals).well_formed(),
        start.run(signals).total == start.total,
        start.run(signals).concurrency == start.concurrency,
    decreases signals.len(),
{
    if signals.len() > 0 {
        lemma_run_is_well_formed(start, signals.drop_last());
    }
}

/// The join is count-matched, whatever the size of the pool: after any
/// sequence of signals, the phase over `total` targets returns exactly when
/// `total` tasks were submitted and `total` completion signals were
/// received. Until then the scheduler keeps dispatching or waiting.
pub proof fn lemma_returns_after_all_signals(total: nat, concurrency: nat, signals: Seq<Signal>)
    requires
        concurrency >= 1,
    ensures
        ({
            let start = SchedulerView::initial(total, concurrency);
            let end = start.run(signals);
            &&& end.completed == start.received(signals)
            &&& end.order() == Order::Return <==> start.received(signals) == total
            &&& end.order() == Order::Return ==> end.dispatched == total
            &&& start.received(signals) <= total
        }),
    decreases signals.len(),
{
    let start = SchedulerView::initial(total, concurrency);
    lemma_run_is_well_formed(start, signals);
    if signals.len() > 0 {
        lemma_returns_after_all_signals(total, concurrency, signals.drop_last());
        lemma_run_is_well_formed(start, signals.drop_last());
    }
}

/// The size of the pool has no bearing on the orders: two schedulers over
/// the same number of targets that get the same signals hand out the same
/// orders and count alike.
pub proof fn lemma_pool_size_does_not_steer(
    total: nat,
    one: nat,
    other: nat,
    signals: Seq<Signal>,
)
    ensures
        ({
            let a = SchedulerView::initial(total, one).run(signals);
            let b = SchedulerView::initial(total, other).run(signals);
            &&& a.order() == b.order()
            &&& a.total == b.total
            &&& a.dispatched == b.dispatched
            &&& a.completed == b.completed
            &&& a.tally == b.tally
        }),
    decreases signals.len(),
{
    if signals.len() > 0 {
        lemma_pool_size_does_not_steer(total, one, other, signals.drop_last());
    }
}

/// The signals with every outcome replaced by `Success`.
pub open spec fn without_outcomes(signals: Seq<Signal>) -> Seq<Signal> {
    signals.map_values(
        |signal: Signal|
            match signal {
                Signal::Submitted => Signal::Submitted,
                Signal::Completed { outcome } => Signal::Completed { outcome: Outcome::Success },
            },
    )
}

/// How tasks end has no bearing on the orders: a failure is counted and
/// nothing else. The scheduler hands out the same orders, and so submits and
/// awaits the same tasks, as if every task had succeeded.
pub proof fn lemma_outcomes_do_not_steer(start: SchedulerView, signals: Seq<Signal>)
    ensures
        ({
            let a = start.run(signals);
            let b = start.run(without_outcomes(signals));
            &&& a.order() == b.order()
            &&& a.dispatched == b.dispatched
            &&& a.completed == b.completed
            &&& a.total == b.total
        }),
    decreases signals.len(),
{
    if signals.len() > 0 {
        lemma_outcomes_do_not_steer(start, signals.drop_last());
        assert(without_outcomes(signals).drop_last() =~= without_outcomes(signals.drop_last()));
    }
}

/// The tasks are submitted in the order of the targets, each once: as long
/// as fewer than `total` `Submitted` signals have come, whatever else came,
/// the pending order is the dispatch of the next target.
pub proof fn lemma_dispatch_in_order(total: nat, concurrency: nat, signals: Seq<Signal>)
    requires
        concurrency >= 1,
        total <= usize::MAX,
    ensures
        ({
            let end = SchedulerView::initial(total, concurrency).run(signals);
            let submitted = signals.filter(|signal: Signal| signal is Submitted).len();
            &&& end.dispatched == if submitted <= total {
                submitted
            } else {
                total
            }
            &&& submitted < total ==> end.order() == Order::Dispatch { index: submitted as usize }
        }),
    decreases signals.len(),
{
    reveal(Seq::filter);
    let start = SchedulerView::initial(total, concurrency);
    lemma_run_is_well_formed(start, signals);
    if signals.len() > 0 {
        lemma_dispatch_in_order(total, concurrency, signals.drop_last());
        lemma_run_is_well_formed(start, signals.drop_last());
    }
}

} // verus!
