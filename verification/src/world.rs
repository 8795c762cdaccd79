//! A model of the surroundings of a worker, and what follows for whole runs.
//!
//! The worker of [`crate::worker`] only decides; the file system and the
//! network answer. Here they are a value, [`World`], that answers every
//! action in one fixed way, so that whole runs can be reasoned about: what a
//! download leaves behind, what it fetches, and how downloads bear on each
//! other, one after the other or side by side.

use vstd::prelude::*;
use crate::path::is_plain_name;
use crate::target::DownloadTargetView;
use crate::worker::{ActionView, EventView, Outcome, Phase, WorkerView, spec_start, spec_step};

verus! {

/// The file system and the network, as far as a worker meets them.
pub ghost struct World {
    /// The files of the destination directory, by name, with their contents.
    pub files: Map<Seq<char>, Seq<u8>>,
    /// The names under which a file can be created or opened for writing.
    pub creatable: Set<Seq<char>>,
    /// The names of the files to which a payload can be written in full.
    pub writable: Set<Seq<char>>,
    /// The resources that the network delivers, by address.
    pub served: Map<Seq<char>, Seq<u8>>,
}

/// The world's answer to an action; none to `Finish`, which asks nothing.
pub open spec fn answer(world: World, action: ActionView) -> Option<EventView> {
    match action {
        ActionView::Probe { path } => Some(
            EventView::Probed { exists: world.files.dom().contains(path) },
        ),
        ActionView::Open { path } => Some(EventView::Opened { ok: world.creatable.contains(path) }),
        ActionView::Fetch { notice, url } => Some(
            EventView::Fetched {
                body: if world.served.dom().contains(url) {
                    Some(world.served[url])
                } else {
                    None
                },
            },
        ),
        ActionView::Write { path, body } => Some(
            EventView::Written { ok: world.writable.contains(path) },
        ),
        ActionView::Finish { outcome } => None,
    }
}

/// The world after an action. Opening creates an empty file where none was
/// and keeps the contents of one that was there; writing replaces the
/// contents; nothing else changes anything.
pub open spec fn effect(world: World, action: ActionView) -> World {
    match action {
        ActionView::Open { path } => if world.creatable.contains(path) && !world.files.dom().contains(
            path,
        ) {
            World { files: world.files.insert(path, Seq::empty()), ..world }
        } else {
            world
        },
        ActionView::Write { path, body } => if world.writable.contains(path) {
            World { files: world.files.insert(path, body), ..world }
        } else {
            world
        },
        _ => world,
    }
}

/// The addresses that an action fetches.
pub open spec fn fetches(action: ActionView) -> Seq<Seq<char>> {
    match action {
        ActionView::Fetch { notice, url } => seq![url],
        _ => Seq::empty(),
    }
}

/// The work on one target as far as it has come.
pub ghost struct Job {
    /// The worker.
    pub worker: WorkerView,
    /// The action that the worker has handed out and that is not answered
    /// yet.
    pub pending: ActionView,
    /// The addresses that were fetched for this target, in order.
    pub fetched: Seq<Seq<char>>,
}

/// The work on a target before its first action is answered.
pub open spec fn spec_begin(target: DownloadTargetView) -> Job {
    let (worker, pending) = spec_start(target);
    Job { worker, pending, fetched: Seq::empty() }
}

/// One move: the world answers the pending action, the action takes its
/// effect, and the worker hands out the next one. A job that has finished
/// moves no more.
pub open spec fn spec_move(job: Job, world: World) -> (Job, World) {
    match answer(world, job.pending) {
        Some(event) => match spec_step(job.worker, event) {
            Some((worker, pending)) => (
                Job { worker, pending, fetched: job.fetched + fetches(job.pending) },
                effect(world, job.pending),
            ),
            None => (job, world),
        },
        None => (job, world),
    }
}

/// The work on a target after `moves` moves, with no other work going on.
pub open spec fn spec_solo(target: DownloadTargetView, world: World, moves: nat) -> (Job, World)
    decreases moves,
{
    if moves == 0 {
        (spec_begin(target), world)
    } else {
        let (job, before) = spec_solo(target, world, (moves - 1) as nat);
        spec_move(job, before)
    }
}

/// How a job ended; `None` where it has not ended.
pub open spec fn outcome_of(job: Job) -> Option<Outcome> {
    match job.pending {
        ActionView::Finish { outcome } => Some(outcome),
        _ => None,
    }
}

/// What came of the work on one target.
pub ghost struct Run {
    /// The world that the work left behind.
    pub world: World,
    /// How the work ended; `None` where it did not end.
    pub outcome: Option<Outcome>,
    /// The addresses that were fetched, in order.
    pub fetched: Seq<Seq<char>>,
}

/// The work on one target, from its start to its end, with no other work
/// going on. Four moves are the most that a worker makes.
pub open spec fn spec_download(target: DownloadTargetView, world: World) -> Run {
    let (job, after) = spec_solo(target, world, 4);
    Run { world: after, outcome: outcome_of(job), fetched: job.fetched }
}

/// The outcome of the work on a target, said directly.
pub open spec fn expected_outcome(target: DownloadTargetView, world: World) -> Outcome {
    if !is_plain_name(target.filename) {
        Outcome::IoFailed
    } else if world.files.dom().contains(target.filename) {
        Outcome::Skipped
    } else if !world.creatable.contains(target.filename) {
        Outcome::IoFailed
    } else if !world.served.dom().contains(target.url) {
        Outcome::FetchFailed
    } else if !world.writable.contains(target.filename) {
        Outcome::IoFailed
    } else {
        Outcome::Success
    }
}

/// The work on a target reaches the point at which the file is created.
pub open spec fn creates_file(target: DownloadTargetView, world: World) -> bool {
    &&& is_plain_name(target.filename)
    &&& !world.files.dom().contains(target.filename)
    &&& world.creatable.contains(target.filename)
}

/// The files after the work on a target, said directly.
pub open spec fn expected_files(target: DownloadTargetView, world: World) -> Map<
    Seq<char>,
    Seq<u8>,
> {
    if !creates_file(target, world) {
        world.files
    } else if expected_outcome(target, world) == Outcome::Success {
        world.files.insert(target.filename, world.served[target.url])
    } else {
        world.files.insert(target.filename, Seq::empty())
    }
}

/// The work on a target always ends, and it ends as said directly: the
/// outcome is the expected one, the files are the expected ones, nothing else
/// of the world changes, and the address is fetched once if the file was
/// created and never otherwise.
pub proof fn lemma_download(target: DownloadTargetView, world: World)
    ensures
        spec_download(target, world).outcome == Some(expected_outcome(target, world)),
        spec_download(target, world).world == (World {
            files: expected_files(target, world),
            ..world
        }),
        spec_download(target, world).fetched == if creates_file(target, world) {
            seq![target.url]
        } else {
            Seq::<Seq<char>>::empty()
        },
{
    reveal_with_fuel(spec_solo, 5);
    let run = spec_download(target, world);
    let files = expected_files(target, world);
    if creates_file(target, world) {
        let created = world.files.insert(target.filename, Seq::empty());
        if expected_outcome(target, world) == Outcome::Success {
            assert(created.insert(target.filename, world.served[target.url]) =~= files);
        }
        assert(run.world.files =~= files);
        assert(run.fetched =~= seq![target.url]);
    } else {
        assert(run.fetched =~= Seq::<Seq<char>>::empty());
    }
}

/// A file that is there is not touched: the work on a target of that name
/// fetches nothing and leaves the world as it was.
pub proof fn lemma_present_file_is_kept(target: DownloadTargetView, world: World)
    requires
        world.files.dom().contains(target.filename),
    ensures
        spec_download(target, world).world == world,
        spec_download(target, world).fetched == Seq::<Seq<char>>::empty(),
        spec_download(target, world).outcome == Some(
            if is_plain_name(target.filename) {
                Outcome::Skipped
            } else {
                Outcome::IoFailed
            },
        ),
{
    lemma_download(target, world);
}

/// After a success the file holds the payload as the network delivered it.
pub proof fn lemma_success_stores_payload(target: DownloadTargetView, world: World)
    requires
        spec_download(target, world).outcome == Some(Outcome::Success),
    ensures
        world.served.dom().contains(target.url),
        spec_download(target, world).world.files.dom().contains(target.filename),
        spec_download(target, world).world.files[target.filename] == world.served[target.url],
{
    lemma_download(target, world);
}

/// The work on a target changes no file but its own, removes none, and
/// leaves the rest of the world alone.
pub proof fn lemma_download_is_local(target: DownloadTargetView, world: World, name: Seq<char>)
    ensures
        spec_download(target, world).world.creatable == world.creatable,
        spec_download(target, world).world.writable == world.writable,
        spec_download(target, world).world.served == world.served,
        world.files.dom().contains(name) ==> spec_download(target, world).world.files.dom().contains(
            name,
        ),
        name != target.filename ==> (spec_download(target, world).world.files.dom().contains(name)
            <==> world.files.dom().contains(name)),
        name != target.filename && world.files.dom().contains(name) ==> spec_download(
            target,
            world,
        ).world.files[name] == world.files[name],
{
    lemma_download(target, world);
}

/// Whatever comes of one target, be it a failure, a target of another name
/// fares as it would have without it.
pub proof fn lemma_failure_is_contained(
    first: DownloadTargetView,
    second: DownloadTargetView,
    world: World,
)
    requires
        first.filename != second.filename,
    ensures
        spec_download(second, spec_download(first, world).world).outcome == spec_download(
            second,
            world,
        ).outcome,
        spec_download(second, spec_download(first, world).world).fetched == spec_download(
            second,
            world,
        ).fetched,
{
    let between = spec_download(first, world).world;
    lemma_download(first, world);
    lemma_download(second, world);
    lemma_download(second, between);
}

/// What came of a download phase.
pub ghost struct PhaseRun {
    /// The world that the phase left behind.
    pub world: World,
    /// How the work on each target ended, in the order of the targets.
    pub outcomes: Seq<Option<Outcome>>,
    /// The addresses that were fetched, in order.
    pub fetched: Seq<Seq<char>>,
}

/// A download phase: the work on each target, one after the other.
pub open spec fn spec_phase(targets: Seq<DownloadTargetView>, world: World) -> PhaseRun
    decreases targets.len(),
{
    if targets.len() == 0 {
        PhaseRun { world, outcomes: Seq::empty(), fetched: Seq::empty() }
    } else {
        let earlier = spec_phase(targets.drop_last(), world);
        let run = spec_download(targets.last(), earlier.world);
        PhaseRun {
            world: run.world,
            outcomes: earlier.outcomes.push(run.outcome),
            fetched: earlier.fetched + run.fetched,
        }
    }
}

/// No fetch will be made for a target: its name is refused, its file is
/// there, or its file cannot be created.
pub open spec fn is_settled(target: DownloadTargetView, world: World) -> bool {
    !creates_file(target, world)
}

/// Every target of a phase is worked on to its end, whatever came of the
/// others.
pub proof fn lemma_phase_attempts_all(targets: Seq<DownloadTargetView>, world: World)
    ensures
        spec_phase(targets, world).outcomes.len() == targets.len(),
        forall|i: int|
            0 <= i < targets.len() ==> (#[trigger] spec_phase(targets, world).outcomes[i]) is Some,
    decreases targets.len(),
{
    if targets.len() > 0 {
        let earlier = spec_phase(targets.drop_last(), world);
        lemma_phase_attempts_all(targets.drop_last(), world);
        lemma_download(targets.last(), earlier.world);
    }
}

/// A phase removes no file and changes nothing else of the world; after it,
/// every one of its targets is settled.
pub proof fn lemma_phase_settles(targets: Seq<DownloadTargetView>, world: World)
    ensures
        spec_phase(targets, world).world.creatable == world.creatable,
        spec_phase(targets, world).world.writable == world.writable,
        spec_phase(targets, world).world.served == world.served,
        forall|name: Seq<char>| #[trigger]
            world.files.dom().contains(name) ==> spec_phase(targets, world).world.files.dom().contains(
                name,
            ),
        forall|i: int|
            0 <= i < targets.len() ==> is_settled(
                #[trigger] targets[i],
                spec_phase(targets, world).world,
            ),
    decreases targets.len(),
{
    if targets.len() > 0 {
        let shorter = targets.drop_last();
        let earlier = spec_phase(shorter, world);
        lemma_phase_settles(shorter, world);
        lemma_download(targets.last(), earlier.world);
        let after = spec_phase(targets, world).world;
        assert forall|i: int| 0 <= i < targets.len() implies is_settled(
            #[trigger] targets[i],
            after,
        ) by {
            if i < shorter.len() {
                assert(is_settled(shorter[i], earlier.world));
            }
        }
    }
}

/// A phase over targets that are all settled fetches nothing and leaves the
/// world as it was.
pub proof fn lemma_settled_phase_is_idle(targets: Seq<DownloadTargetView>, world: World)
    requires
        forall|i: int| 0 <= i < targets.len() ==> is_settled(#[trigger] targets[i], world),
    ensures
        spec_phase(targets, world).world == world,
        spec_phase(targets, world).fetched == Seq::<Seq<char>>::empty(),
    decreases targets.len(),
{
    if targets.len() > 0 {
        let shorter = targets.drop_last();
        assert forall|i: int| 0 <= i < shorter.len() implies is_settled(
            #[trigger] shorter[i],
            world,
        ) by {
            assert(shorter[i] == targets[i]);
        }
        lemma_settled_phase_is_idle(shorter, world);
        assert(is_settled(targets[targets.len() - 1], world));
        lemma_download(targets.last(), world);
        assert(spec_phase(targets, world).world.files =~= world.files);
        assert(spec_phase(targets, world).fetched =~= Seq::<Seq<char>>::empty());
    }
}

/// Running a phase a second time over what the first left behind fetches
/// nothing and changes nothing, as long as the world answers as before.
pub proof fn lemma_second_phase_fetches_nothing(targets: Seq<DownloadTargetView>, world: World)
    ensures
        spec_phase(targets, spec_phase(targets, world).world).fetched == Seq::<Seq<char>>::empty(),
        spec_phase(targets, spec_phase(targets, world).world).world == spec_phase(
            targets,
            world,
        ).world,
{
    lemma_phase_settles(targets, world);
    lemma_settled_phase_is_idle(targets, spec_phase(targets, world).world);
}

/// No two of the targets are stored under the same name.
pub open spec fn distinct_names(targets: Seq<DownloadTargetView>) -> bool {
    forall|i: int, j: int|
        0 <= i < j < targets.len() ==> (#[trigger] targets[i]).filename != (
        #[trigger] targets[j]).filename
}

/// None of the targets is stored under `name`.
pub open spec fn is_foreign(targets: Seq<DownloadTargetView>, name: Seq<char>) -> bool {
    forall|i: int| 0 <= i < targets.len() ==> (#[trigger] targets[i]).filename != name
}

/// Two worlds hold the same under `name`: a file with the same contents, or
/// none.
pub open spec fn agree_at(one: World, other: World, name: Seq<char>) -> bool {
    &&& one.files.dom().contains(name) == other.files.dom().contains(name)
    &&& one.files.dom().contains(name) ==> one.files[name] == other.files[name]
}

/// Two worlds answer alike to whatever is not a question about a file that
/// is there: what can be created, what can be written, what is served.
pub open spec fn same_surroundings(one: World, other: World) -> bool {
    &&& one.creatable == other.creatable
    &&& one.writable == other.writable
    &&& one.served == other.served
}

/// The pending action of a job is one of its own worker, in the worker's
/// phase and on the worker's own file.
pub open spec fn is_coherent(job: Job) -> bool {
    let name = job.worker.target.filename;
    match job.pending {
        ActionView::Probe { path } => path == name && job.worker.phase == Phase::Probing,
        ActionView::Open { path } => path == name && job.worker.phase == Phase::Opening,
        ActionView::Fetch { notice, url } => job.worker.phase == Phase::Fetching,
        ActionView::Write { path, body } => path == name && job.worker.phase == Phase::Writing,
        ActionView::Finish { outcome } => job.worker.phase == Phase::Done,
    }
}

/// A move looks at the world only under the job's own name, and changes it
/// only there: in two worlds that agree under that name and have the same
/// surroundings, the job moves alike.
pub proof fn lemma_move_is_local(job: Job, one: World, other: World)
    requires
        is_coherent(job),
        same_surroundings(one, other),
        agree_at(one, other, job.worker.target.filename),
    ensures
        spec_move(job, one).0 == spec_move(job, other).0,
        is_coherent(spec_move(job, one).0),
        spec_move(job, one).0.worker.target == job.worker.target,
        same_surroundings(spec_move(job, one).1, one),
        agree_at(spec_move(job, one).1, spec_move(job, other).1, job.worker.target.filename),
        forall|name: Seq<char>|
            name != job.worker.target.filename ==> #[trigger] agree_at(
                spec_move(job, one).1,
                one,
                name,
            ),
{
}

/// Work that goes on alone stays coherent, keeps the surroundings, and
/// changes the world under its own name only.
pub proof fn lemma_solo_is_local(target: DownloadTargetView, world: World, moves: nat)
    ensures
        is_coherent(spec_solo(target, world, moves).0),
        spec_solo(target, world, moves).0.worker.target == target,
        same_surroundings(spec_solo(target, world, moves).1, world),
        forall|name: Seq<char>|
            name != target.filename ==> #[trigger] agree_at(
                spec_solo(target, world, moves).1,
                world,
                name,
            ),
    decreases moves,
{
    if moves > 0 {
        let (job, before) = spec_solo(target, world, (moves - 1) as nat);
        lemma_solo_is_local(target, world, (moves - 1) as nat);
        lemma_move_is_local(job, before, before);
        assert forall|name: Seq<char>| name != target.filename implies #[trigger] agree_at(
            spec_solo(target, world, moves).1,
            world,
            name,
        ) by {
            assert(agree_at(spec_move(job, before).1, before, name));
            assert(agree_at(before, world, name));
        }
    }
}

/// Work that has ended stays as it is, and all work has ended after four
/// moves: a job that has ended is the job of the whole download.
pub proof fn lemma_ended_solo(target: DownloadTargetView, world: World, moves: nat)
    requires
        outcome_of(spec_solo(target, world, moves).0) is Some,
    ensures
        spec_solo(target, world, moves) == spec_solo(target, world, 4),
{
    reveal_with_fuel(spec_solo, 5);
    if moves > 4 {
        lemma_download(target, world);
        lemma_solo_rests(target, world, 4, moves);
    } else {
        lemma_solo_rests(target, world, moves, 4);
    }
}

/// Work that has ended after `from` moves is the same after any more.
pub proof fn lemma_solo_rests(target: DownloadTargetView, world: World, from: nat, to: nat)
    requires
        from <= to,
        outcome_of(spec_solo(target, world, from).0) is Some,
    ensures
        spec_solo(target, world, to) == spec_solo(target, world, from),
    decreases to,
{
    if from < to {
        lemma_solo_rests(target, world, from, (to - 1) as nat);
    }
}

/// In a phase over targets of different names every target fares as it
/// would alone in the world that the phase began in: a failure, or any other
/// outcome, of one target changes nothing for another. The phase changes the
/// world only under the names of its targets.
pub proof fn lemma_targets_fare_alone(targets: Seq<DownloadTargetView>, world: World)
    requires
        distinct_names(targets),
    ensures
        spec_phase(targets, world).outcomes.len() == targets.len(),
        same_surroundings(spec_phase(targets, world).world, world),
        forall|i: int|
            0 <= i < targets.len() ==> {
                &&& spec_phase(targets, world).outcomes[i] == Some(
                    expected_outcome(#[trigger] targets[i], world),
                )
                &&& agree_at(
                    spec_phase(targets, world).world,
                    spec_download(targets[i], world).world,
                    targets[i].filename,
                )
            },
        forall|name: Seq<char>|
            is_foreign(targets, name) ==> #[trigger] agree_at(
                spec_phase(targets, world).world,
                world,
                name,
            ),
    decreases targets.len(),
{
    if targets.len() > 0 {
        let shorter = targets.drop_last();
        let last = targets.last();
        let earlier = spec_phase(shorter, world);
        let after = spec_phase(targets, world).world;
        assert(distinct_names(shorter)) by {
            assert forall|i: int, j: int| 0 <= i < j < shorter.len() implies (
            #[trigger] shorter[i]).filename != (#[trigger] shorter[j]).filename by {
                assert(shorter[i] == targets[i] && shorter[j] == targets[j]);
            }
        }
        lemma_targets_fare_alone(shorter, world);
        assert(is_foreign(shorter, last.filename)) by {
            assert forall|i: int| 0 <= i < shorter.len() implies (
            #[trigger] shorter[i]).filename != last.filename by {
                assert(shorter[i] == targets[i] && last == targets[targets.len() - 1]);
            }
        }
        assert(agree_at(earlier.world, world, last.filename));
        lemma_download(last, earlier.world);
        lemma_download(last, world);
        assert forall|i: int| 0 <= i < targets.len() implies {
            &&& spec_phase(targets, world).outcomes[i] == Some(
                expected_outcome(#[trigger] targets[i], world),
            )
            &&& agree_at(after, spec_download(targets[i], world).world, targets[i].filename)
        } by {
            if i < shorter.len() {
                assert(shorter[i] == targets[i]);
                assert(targets[i].filename != last.filename);
                lemma_download(targets[i], world);
            }
        }
        assert forall|name: Seq<char>| is_foreign(targets, name) implies #[trigger] agree_at(
            after,
            world,
            name,
        ) by {
            assert(targets[targets.len() - 1].filename != name);
            assert(is_foreign(shorter, name)) by {
                assert forall|i: int| 0 <= i < shorter.len() implies (
                #[trigger] shorter[i]).filename != name by {
                    assert(shorter[i] == targets[i]);
                }
            }
            assert(agree_at(earlier.world, world, name));
        }
    }
}

/// A target that would be stored alone is stored in any phase over targets
/// of different names, whatever comes of the others: its address is
/// fetched, and its file holds the payload as the network delivers it.
pub proof fn lemma_failures_stop_nothing(targets: Seq<DownloadTargetView>, world: World, i: int)
    requires
        distinct_names(targets),
        0 <= i < targets.len(),
        expected_outcome(targets[i], world) == Outcome::Success,
    ensures
        spec_phase(targets, world).outcomes[i] == Some(Outcome::Success),
        spec_phase(targets, world).world.files.dom().contains(targets[i].filename),
        spec_phase(targets, world).world.files[targets[i].filename] == world.served[targets[i].url],
        spec_phase(targets, world).fetched.contains(targets[i].url),
{
    lemma_targets_fare_alone(targets, world);
    lemma_download(targets[i], world);
    lemma_phase_fetches(targets, world, i);
}

/// The address of every target whose file the phase creates is among the
/// addresses that the phase fetches.
pub proof fn lemma_phase_fetches(targets: Seq<DownloadTargetView>, world: World, i: int)
    requires
        distinct_names(targets),
        0 <= i < targets.len(),
        creates_file(targets[i], world),
    ensures
        spec_phase(targets, world).fetched.contains(targets[i].url),
    decreases targets.len(),
{
    let shorter = targets.drop_last();
    let earlier = spec_phase(shorter, world);
    let run = spec_download(targets.last(), earlier.world);
    assert(distinct_names(shorter)) by {
        assert forall|a: int, b: int| 0 <= a < b < shorter.len() implies (
        #[trigger] shorter[a]).filename != (#[trigger] shorter[b]).filename by {
            assert(shorter[a] == targets[a] && shorter[b] == targets[b]);
        }
    }
    if i < shorter.len() {
        assert(shorter[i] == targets[i]);
        lemma_phase_fetches(shorter, world, i);
        let k = choose|k: int| 0 <= k < earlier.fetched.len() && earlier.fetched[k] == targets[i].url;
        assert((earlier.fetched + run.fetched)[k] == targets[i].url);
    } else {
        lemma_targets_fare_alone(shorter, world);
        assert(is_foreign(shorter, targets[i].filename)) by {
            assert forall|a: int| 0 <= a < shorter.len() implies (
            #[trigger] shorter[a]).filename != targets[i].filename by {
                assert(shorter[a] == targets[a]);
            }
        }
        assert(agree_at(earlier.world, world, targets[i].filename));
        lemma_download(targets.last(), earlier.world);
        assert(run.fetched == seq![targets[i].url]);
        assert((earlier.fetched + run.fetched)[earlier.fetched.len() as int] == targets[i].url);
    }
}

/// The number of moves that a schedule gives to the job at `index`.
pub open spec fn moves_of(schedule: Seq<int>, index: int) -> nat
    decreases schedule.len(),
{
    if schedule.len() == 0 {
        0
    } else {
        moves_of(schedule.drop_last(), index) + if schedule.last() == index {
            1nat
        } else {
            0nat
        }
    }
}

/// A phase in which the work on the targets goes on side by side. All jobs
/// are begun; then, for each entry of the schedule in turn, the job at that
/// index makes one move. An entry that is no index of a job is passed over.
///
/// A schedule says which job moves when, and so also how many jobs are under
/// way at a time: a pool of one worker allows only the schedules that take
/// one job to its end before the next moves, a larger pool allows more.
pub open spec fn spec_interleaved(
    targets: Seq<DownloadTargetView>,
    world: World,
    schedule: Seq<int>,
) -> (Seq<Job>, World)
    decreases schedule.len(),
{
    if schedule.len() == 0 {
        (Seq::new(targets.len(), |i: int| spec_begin(targets[i])), world)
    } else {
        let (jobs, before) = spec_interleaved(targets, world, schedule.drop_last());
        let index = schedule.last();
        if 0 <= index < jobs.len() {
            let (job, after) = spec_move(jobs[index], before);
            (jobs.update(index, job), after)
        } else {
            (jobs, before)
        }
    }
}

/// Side by side, every job over targets of different names stands where it
/// would stand alone after as many moves, and the world holds under each
/// target's name what it would hold then.
pub proof fn lemma_interleaved_jobs_go_alone(
    targets: Seq<DownloadTargetView>,
    world: World,
    schedule: Seq<int>,
)
    requires
        distinct_names(targets),
    ensures
        spec_interleaved(targets, world, schedule).0.len() == targets.len(),
        same_surroundings(spec_interleaved(targets, world, schedule).1, world),
        forall|i: int|
            0 <= i < targets.len() ==> {
                &&& (#[trigger] spec_interleaved(targets, world, schedule).0[i]) == spec_solo(
                    targets[i],
                    world,
                    moves_of(schedule, i),
                ).0
                &&& agree_at(
                    spec_interleaved(targets, world, schedule).1,
                    spec_solo(targets[i], world, moves_of(schedule, i)).1,
                    targets[i].filename,
                )
            },
        forall|name: Seq<char>|
            is_foreign(targets, name) ==> #[trigger] agree_at(
                spec_interleaved(targets, world, schedule).1,
                world,
                name,
            ),
    decreases schedule.len(),
{
    let (jobs, after) = spec_interleaved(targets, world, schedule);
    if schedule.len() > 0 {
        let shorter = schedule.drop_last();
        let index = schedule.last();
        let (earlier, before) = spec_interleaved(targets, world, shorter);
        lemma_interleaved_jobs_go_alone(targets, world, shorter);
        if 0 <= index < targets.len() {
            let mover = targets[index];
            let moves = moves_of(shorter, index);
            let (alone, alone_world) = spec_solo(mover, world, moves);
            assert(earlier[index] == alone);
            lemma_solo_is_local(mover, world, moves);
            lemma_move_is_local(alone, before, alone_world);
            assert forall|i: int| 0 <= i < targets.len() implies {
                &&& (#[trigger] jobs[i]) == spec_solo(targets[i], world, moves_of(schedule, i)).0
                &&& agree_at(
                    after,
                    spec_solo(targets[i], world, moves_of(schedule, i)).1,
                    targets[i].filename,
                )
            } by {
                if i != index {
                    assert(earlier[i] == spec_solo(targets[i], world, moves_of(shorter, i)).0);
                    assert(targets[i].filename != mover.filename);
                    assert(agree_at(after, before, targets[i].filename));
                }
            }
            assert forall|name: Seq<char>| is_foreign(targets, name) implies #[trigger] agree_at(
                after,
                world,
                name,
            ) by {
                assert(targets[index].filename != name);
                assert(agree_at(after, before, name));
                assert(agree_at(before, world, name));
            }
        } else {
            assert forall|i: int| 0 <= i < targets.len() implies {
                &&& (#[trigger] jobs[i]) == spec_solo(targets[i], world, moves_of(schedule, i)).0
                &&& agree_at(
                    after,
                    spec_solo(targets[i], world, moves_of(schedule, i)).1,
                    targets[i].filename,
                )
            } by {
                assert(earlier[i] == spec_solo(targets[i], world, moves_of(shorter, i)).0);
            }
        }
    }
}

/// A schedule that gives every job four moves or more ends every job.
pub proof fn lemma_four_moves_end_every_job(
    targets: Seq<DownloadTargetView>,
    world: World,
    schedule: Seq<int>,
)
    requires
        distinct_names(targets),
        forall|i: int| 0 <= i < targets.len() ==> #[trigger] moves_of(schedule, i) >= 4,
    ensures
        forall|i: int|
            0 <= i < targets.len() ==> outcome_of(
                #[trigger] spec_interleaved(targets, world, schedule).0[i],
            ) is Some,
{
    lemma_interleaved_jobs_go_alone(targets, world, schedule);
    assert forall|i: int| 0 <= i < targets.len() implies outcome_of(
        #[trigger] spec_interleaved(targets, world, schedule).0[i],
    ) is Some by {
        lemma_download(targets[i], world);
        assert(moves_of(schedule, i) >= 4);
        lemma_solo_rests(targets[i], world, 4, moves_of(schedule, i));
    }
}

/// How the work is interleaved does not matter, and so neither does the
/// size of the pool: where the targets have different names, a phase in
/// which the jobs move side by side in any order, and in which every job
/// has ended, leaves the world that the phase leaves in which the targets
/// are worked on one after the other. Every job ends as it does there, and
/// fetches what it fetches there.
pub proof fn lemma_interleaving_does_not_matter(
    targets: Seq<DownloadTargetView>,
    world: World,
    schedule: Seq<int>,
)
    requires
        distinct_names(targets),
        forall|i: int|
            0 <= i < targets.len() ==> outcome_of(
                #[trigger] spec_interleaved(targets, world, schedule).0[i],
            ) is Some,
    ensures
        spec_interleaved(targets, world, schedule).0.len() == targets.len(),
        spec_interleaved(targets, world, schedule).1 == spec_phase(targets, world).world,
        forall|i: int|
            0 <= i < targets.len() ==> {
                &&& outcome_of(#[trigger] spec_interleaved(targets, world, schedule).0[i])
                    == spec_phase(targets, world).outcomes[i]
                &&& spec_interleaved(targets, world, schedule).0[i].fetched == spec_download(
                    targets[i],
                    world,
                ).fetched
            },
{
    let (jobs, after) = spec_interleaved(targets, world, schedule);
    let serial = spec_phase(targets, world);
    lemma_interleaved_jobs_go_alone(targets, world, schedule);
    lemma_targets_fare_alone(targets, world);
    assert forall|i: int| 0 <= i < targets.len() implies {
        &&& outcome_of(#[trigger] jobs[i]) == serial.outcomes[i]
        &&& jobs[i].fetched == spec_download(targets[i], world).fetched
        &&& agree_at(after, serial.world, targets[i].filename)
    } by {
        lemma_ended_solo(targets[i], world, moves_of(schedule, i));
        lemma_download(targets[i], world);
    }
    assert forall|name: Seq<char>| agree_at(after, serial.world, name) by {
        if is_foreign(targets, name) {
            assert(agree_at(after, world, name));
            assert(agree_at(serial.world, world, name));
        } else {
            let i = choose|i: int| 0 <= i < targets.len() && (#[trigger] targets[i]).filename == name;
            assert(outcome_of(jobs[i]) == serial.outcomes[i]);
        }
    }
    assert(after.files =~= serial.world.files) by {
        assert forall|name: Seq<char>|
            after.files.dom().contains(name) == serial.world.files.dom().contains(name) by {
            assert(agree_at(after, serial.world, name));
        }
        assert forall|name: Seq<char>| after.files.dom().contains(name) implies after.files[name]
            == serial.world.files[name] by {
            assert(agree_at(after, serial.world, name));
        }
    }
}

} // verus!
