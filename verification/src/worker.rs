//! The download worker: what to do next for one target, after each answer of
//! the file system or the network.
//!
//! The worker performs no action itself. It hands out one [`Action`] at a
//! time; the caller carries it out and reports what came of it as an
//! [`Event`]. No failure leaves the worker: each ends in an [`Outcome`].

use vstd::prelude::*;
use vstd::string::StringExecFns;
use crate::path::{is_plain, is_plain_name};
use crate::target::{DownloadTarget, DownloadTargetView};

verus! {

/// How the work on one target ended.
#[derive(Clone, Copy, Debug, PartialEq, Eq, Structural)]
pub enum Outcome {
    /// The resource was fetched and stored.
    Success,
    /// A file of that name was there already; nothing was fetched.
    Skipped,
    /// The file was created, but the resource could not be fetched.
    FetchFailed,
    /// The name was refused, or the file could not be created or written.
    IoFailed,
}

/// Where a worker stands.
#[derive(Clone, Copy, Debug, PartialEq, Eq, Structural)]
pub enum Phase {
    /// Waiting to learn whether the file exists.
    Probing,
    /// Waiting to learn whether the file could be created.
    Opening,
    /// Waiting for the resource.
    Fetching,
    /// Waiting to learn whether the payload was written.
    Writing,
    /// Finished; no event is answered any more.
    Done,
}

/// What the caller is to do next.
#[derive(Debug, PartialEq, Eq)]
pub enum Action {
    /// Test whether a file exists at `path`.
    Probe { path: String },
    /// Create the file at `path` and open it for writing.
    Open { path: String },
    /// Show `notice` to the operator, then fetch the resource at `url`.
    Fetch { notice: String, url: String },
    /// Write all of `body` to the file opened at `path`, then close it.
    Write { path: String, body: Vec<u8> },
    /// Nothing more: the work on this target ended with `outcome`.
    Finish { outcome: Outcome },
}

/// The mathematical value of an [`Action`].
pub ghost enum ActionView {
    Probe { path: Seq<char> },
    Open { path: Seq<char> },
    Fetch { notice: Seq<char>, url: Seq<char> },
    Write { path: Seq<char>, body: Seq<u8> },
    Finish { outcome: Outcome },
}

impl View for Action {
    type V = ActionView;

    open spec fn view(&self) -> ActionView {
        match self {
            Action::Probe { path } => ActionView::Probe { path: path@ },
            Action::Open { path } => ActionView::Open { path: path@ },
            Action::Fetch { notice, url } => ActionView::Fetch { notice: notice@, url: url@ },
            Action::Write { path, body } => ActionView::Write { path: path@, body: body@ },
            Action::Finish { outcome } => ActionView::Finish { outcome: *outcome },
        }
    }
}

/// What came of the action that was handed out last.
#[derive(Debug, PartialEq, Eq)]
pub enum Event {
    /// The answer to [`Action::Probe`].
    Probed { exists: bool },
    /// The answer to [`Action::Open`].
    Opened { ok: bool },
    /// The answer to [`Action::Fetch`]: the whole payload, or `None` where
    /// the fetch failed.
    Fetched { body: Option<Vec<u8>> },
    /// The answer to [`Action::Write`].
    Written { ok: bool },
}

/// The mathematical value of an [`Event`].
pub ghost enum EventView {
    Probed { exists: bool },
    Opened { ok: bool },
    Fetched { body: Option<Seq<u8>> },
    Written { ok: bool },
}

impl View for Event {
    type V = EventView;

    open spec fn view(&self) -> EventView {
        match self {
            Event::Probed { exists } => EventView::Probed { exists: *exists },
            Event::Opened { ok } => EventView::Opened { ok: *ok },
            Event::Fetched { body } => EventView::Fetched {
                body: match body {
                    Some(bytes) => Some(bytes@),
                    None => None,
                },
            },
            Event::Written { ok } => EventView::Written { ok: *ok },
        }
    }
}

/// The event for what the transport delivered on a fetch: the payload where
/// the answer was a success and the body was read to its end, else a failed
/// fetch. A payload is there in full or not at all.
pub fn fetched_event(status_ok: bool, complete: bool, body: Vec<u8>) -> (event: Event)
    ensures
        event@ == (EventView::Fetched {
            body: if status_ok && complete {
                Some(body@)
            } else {
                None
            },
        }),
{
    if status_ok && complete {
        Event::Fetched { body: Some(body) }
    } else {
        Event::Fetched { body: None }
    }
}

/// The worker for one target.
#[derive(Debug)]
pub struct Worker {
    target: DownloadTarget,
    phase: Phase,
}

/// The mathematical value of a [`Worker`].
pub ghost struct WorkerView {
    pub target: DownloadTargetView,
    pub phase: Phase,
}

impl View for Worker {
    type V = WorkerView;

    closed spec fn view(&self) -> WorkerView {
        WorkerView { target: self.target@, phase: self.phase }
    }
}

/// The notice shown to the operator before the fetch for `filename`.
pub open spec fn progress_notice(filename: Seq<char>) -> Seq<char> {
    "Downloading "@ + filename + "..."@
}

/// A worker that has finished, with the action that says how.
pub open spec fn finished(target: DownloadTargetView, outcome: Outcome) -> (WorkerView, ActionView) {
    (WorkerView { target, phase: Phase::Done }, ActionView::Finish { outcome })
}

/// The start of the work on a target. A name that is no plain name is
/// refused before anything is touched; else the worker asks whether the file
/// is there.
pub open spec fn spec_start(target: DownloadTargetView) -> (WorkerView, ActionView) {
    if is_plain_name(target.filename) {
        (
            WorkerView { target, phase: Phase::Probing },
            ActionView::Probe { path: target.filename },
        )
    } else {
        finished(target, Outcome::IoFailed)
    }
}

/// The worker's move on an event: the next state and the next action, or
/// `None` where the event does not answer the action that is pending.
///
/// A file that exists is skipped. A file that cannot be created, or not
/// written, ends the work, and so does a fetch that fails; else the payload
/// that was fetched is written as it came.
pub open spec fn spec_step(worker: WorkerView, event: EventView) -> Option<
    (WorkerView, ActionView),
> {
    let target = worker.target;
    match (worker.phase, event) {
        (Phase::Probing, EventView::Probed { exists }) => Some(
            if exists {
                finished(target, Outcome::Skipped)
            } else {
                (
                    WorkerView { target, phase: Phase::Opening },
                    ActionView::Open { path: target.filename },
                )
            },
        ),
        (Phase::Opening, EventView::Opened { ok }) => Some(
            if ok {
                (
                    WorkerView { target, phase: Phase::Fetching },
                    ActionView::Fetch {
                        notice: progress_notice(target.filename),
                        url: target.url,
                    },
                )
            } else {
                finished(target, Outcome::IoFailed)
            },
        ),
        (Phase::Fetching, EventView::Fetched { body }) => Some(
            match body {
                Some(bytes) => (
                    WorkerView { target, phase: Phase::Writing },
                    ActionView::Write { path: target.filename, body: bytes },
                ),
                None => finished(target, Outcome::FetchFailed),
            },
        ),
        (Phase::Writing, EventView::Written { ok }) => Some(
            finished(
                target,
                if ok {
                    Outcome::Success
                } else {
                    Outcome::IoFailed
                },
            ),
        ),
        _ => None,
    }
}

impl Worker {
    /// Takes up the work on `target` and hands out the first action.
    pub fn start(target: DownloadTarget) -> (begun: (Worker, Action))
        ensures
            (begun.0@, begun.1@) == spec_start(target@),
    {
        if is_plain(target.filename.as_str()) {
            let path = target.filename.clone();
            (Worker { target, phase: Phase::Probing }, Action::Probe { path })
        } else {
            (Worker { target, phase: Phase::Done }, Action::Finish { outcome: Outcome::IoFailed })
        }
    }

    /// The target that this worker works on.
    pub fn target(&self) -> (target: &DownloadTarget)
        ensures
            target@ == self@.target,
    {
        &self.target
    }

    /// Where this worker stands.
    pub fn phase(&self) -> (phase: Phase)
        ensures
            phase == self@.phase,
    {
        self.phase
    }

    /// Takes note of `event` and hands out the next action. An event that
    /// does not answer the pending action changes nothing and gets `None`.
    pub fn step(&mut self, event: Event) -> (action: Option<Action>)
        ensures
            final(self)@.target == old(self)@.target,
            match spec_step(old(self)@, event@) {
                Some((next, act)) => final(self)@ == next && action is Some && action->0@ == act,
                None => final(self)@ == old(self)@ && action is None,
            },
    {
        match (self.phase, event) {
            (Phase::Probing, Event::Probed { exists }) => {
                if exists {
                    Some(self.finish(Outcome::Skipped))
                } else {
                    self.phase = Phase::Opening;
                    Some(Action::Open { path: self.target.filename.clone() })
                }
            },
            (Phase::Opening, Event::Opened { ok }) => {
                if ok {
                    self.phase = Phase::Fetching;
                    let notice = String::from_str("Downloading ").concat(
                        self.target.filename.as_str(),
                    ).concat("...");
                    Some(Action::Fetch { notice, url: self.target.url.clone() })
                } else {
                    Some(self.finish(Outcome::IoFailed))
                }
            },
            (Phase::Fetching, Event::Fetched { body }) => {
                match body {
                    Some(bytes) => {
                        self.phase = Phase::Writing;
                        Some(Action::Write { path: self.target.filename.clone(), body: bytes })
                    },
                    None => Some(self.finish(Outcome::FetchFailed)),
                }
            },
            (Phase::Writing, Event::Written { ok }) => {
                Some(
                    self.finish(
                        if ok {
                            Outcome::Success
                        } else {
                            Outcome::IoFailed
                        },
                    ),
                )
            },
            _ => None,
        }
    }

    /// Ends the work with `outcome`.
    fn finish(&mut self, outcome: Outcome) -> (action: Action)
        ensures
            (final(self)@, action@) == finished(old(self)@.target, outcome),
    {
        self.phase = Phase::Done;
        Action::Finish { outcome }
    }
}

} // verus!
