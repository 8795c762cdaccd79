use fourget::target::DownloadTarget;
use fourget::worker::{fetched_event, Action, Event, Outcome, Phase, Worker};
use std::collections::{BTreeMap, BTreeSet};

fn target(url: &str, filename: &str) -> DownloadTarget {
    DownloadTarget { url: String::from(url), filename: String::from(filename) }
}

fn photo() -> DownloadTarget {
    target("https://example/img/abc123.png", "abc123.png")
}

struct Disk {
    files: BTreeMap<String, Vec<u8>>,
    locked: BTreeSet<String>,
    served: BTreeMap<String, Vec<u8>>,
    fetched: Vec<String>,
    notices: Vec<String>,
}

fn disk() -> Disk {
    Disk {
        files: BTreeMap::new(),
        locked: BTreeSet::new(),
        served: BTreeMap::new(),
        fetched: Vec::new(),
        notices: Vec::new(),
    }
}

fn download(disk: &mut Disk, target: DownloadTarget) -> Outcome {
    let (mut worker, mut action) = Worker::start(target);
    loop {
        let event = match action {
            Action::Probe { path } => Event::Probed { exists: disk.files.contains_key(&path) },
            Action::Open { path } => {
                let ok = !disk.locked.contains(&path);
                if ok {
                    disk.files.entry(path).or_insert_with(Vec::new);
                }
                Event::Opened { ok }
            }
            Action::Fetch { notice, url } => {
                disk.notices.push(notice);
                disk.fetched.push(url.clone());
                Event::Fetched { body: disk.served.get(&url).cloned() }
            }
            Action::Write { path, body } => {
                disk.files.insert(path, body);
                Event::Written { ok: true }
            }
            Action::Finish { outcome } => {
                assert_eq!(worker.phase(), Phase::Done);
                return outcome;
            }
        };
        action = worker.step(event).unwrap();
    }
}

#[test]
fn fetched_event_is_whole_or_failed() {
    assert_eq!(fetched_event(true, true, vec![1, 2]), Event::Fetched { body: Some(vec![1, 2]) });
    assert_eq!(fetched_event(true, true, Vec::new()), Event::Fetched { body: Some(Vec::new()) });
    assert_eq!(fetched_event(false, true, vec![1, 2]), Event::Fetched { body: None });
    assert_eq!(fetched_event(true, false, vec![1, 2]), Event::Fetched { body: None });
    assert_eq!(fetched_event(false, false, vec![1, 2]), Event::Fetched { body: None });
}

#[test]
fn worker_starts_by_probing_the_file() {
    let (worker, action) = Worker::start(photo());
    assert_eq!(action, Action::Probe { path: String::from("abc123.png") });
    assert_eq!(worker.phase(), Phase::Probing);
    assert_eq!(worker.target(), &photo());
}

#[test]
fn worker_skips_a_file_that_exists() {
    let (mut worker, _) = Worker::start(photo());
    let action = worker.step(Event::Probed { exists: true });
    assert_eq!(action, Some(Action::Finish { outcome: Outcome::Skipped }));
    assert_eq!(worker.phase(), Phase::Done);
    assert_eq!(worker.step(Event::Probed { exists: false }), None);
    assert_eq!(worker.step(Event::Opened { ok: true }), None);
    assert_eq!(worker.step(Event::Fetched { body: Some(vec![1]) }), None);
    assert_eq!(worker.step(Event::Written { ok: true }), None);
    assert_eq!(worker.phase(), Phase::Done);
}

#[test]
fn worker_walks_through_a_download() {
    let (mut worker, _) = Worker::start(photo());
    assert_eq!(
        worker.step(Event::Probed { exists: false }),
        Some(Action::Open { path: String::from("abc123.png") })
    );
    assert_eq!(worker.phase(), Phase::Opening);
    assert_eq!(
        worker.step(Event::Opened { ok: true }),
        Some(Action::Fetch {
            notice: String::from("Downloading abc123.png..."),
            url: String::from("https://example/img/abc123.png"),
        })
    );
    assert_eq!(worker.phase(), Phase::Fetching);
    assert_eq!(
        worker.step(Event::Fetched { body: Some(vec![9, 8, 7]) }),
        Some(Action::Write { path: String::from("abc123.png"), body: vec![9, 8, 7] })
    );
    assert_eq!(worker.phase(), Phase::Writing);
    assert_eq!(
        worker.step(Event::Written { ok: true }),
        Some(Action::Finish { outcome: Outcome::Success })
    );
    assert_eq!(worker.phase(), Phase::Done);
    assert_eq!(worker.target(), &photo());
}

#[test]
fn worker_gives_up_where_the_file_cannot_be_created() {
    let (mut worker, _) = Worker::start(photo());
    worker.step(Event::Probed { exists: false });
    assert_eq!(
        worker.step(Event::Opened { ok: false }),
        Some(Action::Finish { outcome: Outcome::IoFailed })
    );
    assert_eq!(worker.step(Event::Fetched { body: Some(vec![1]) }), None);
}

#[test]
fn worker_gives_up_where_the_fetch_fails() {
    let (mut worker, _) = Worker::start(photo());
    worker.step(Event::Probed { exists: false });
    worker.step(Event::Opened { ok: true });
    assert_eq!(
        worker.step(Event::Fetched { body: None }),
        Some(Action::Finish { outcome: Outcome::FetchFailed })
    );
    assert_eq!(worker.step(Event::Written { ok: true }), None);
}

#[test]
fn worker_reports_a_failed_write() {
    let (mut worker, _) = Worker::start(photo());
    worker.step(Event::Probed { exists: false });
    worker.step(Event::Opened { ok: true });
    worker.step(Event::Fetched { body: Some(Vec::new()) });
    assert_eq!(
        worker.step(Event::Written { ok: false }),
        Some(Action::Finish { outcome: Outcome::IoFailed })
    );
}

#[test]
fn worker_passes_over_events_that_answer_nothing() {
    let (mut worker, _) = Worker::start(photo());
    assert_eq!(worker.step(Event::Opened { ok: true }), None);
    assert_eq!(worker.step(Event::Fetched { body: None }), None);
    assert_eq!(worker.step(Event::Written { ok: true }), None);
    assert_eq!(worker.phase(), Phase::Probing);
    worker.step(Event::Probed { exists: false });
    assert_eq!(worker.step(Event::Probed { exists: true }), None);
    assert_eq!(worker.step(Event::Written { ok: true }), None);
    assert_eq!(worker.phase(), Phase::Opening);
    worker.step(Event::Opened { ok: true });
    assert_eq!(worker.step(Event::Opened { ok: false }), None);
    assert_eq!(worker.phase(), Phase::Fetching);
    worker.step(Event::Fetched { body: Some(vec![1]) });
    assert_eq!(worker.step(Event::Fetched { body: None }), None);
    assert_eq!(worker.phase(), Phase::Writing);
}

#[test]
fn worker_refuses_names_that_leave_the_directory() {
    let names = ["", ".", "..", "../x.png", "a/b.png", "/etc/passwd", "x/"];
    for name in names.iter() {
        let (mut worker, action) = Worker::start(target("https://h/x.png", name));
        assert_eq!(action, Action::Finish { outcome: Outcome::IoFailed }, "name {:?}", name);
        assert_eq!(worker.phase(), Phase::Done);
        assert_eq!(worker.step(Event::Probed { exists: false }), None);
    }
}

#[test]
fn worker_accepts_titles_as_names() {
    let (_, action) = Worker::start(target("https://h/x.png", "My Photo.png"));
    assert_eq!(action, Action::Probe { path: String::from("My Photo.png") });
}

#[test]
fn existing_file_is_neither_fetched_nor_overwritten() {
    let mut disk = disk();
    disk.files.insert(String::from("abc123.png"), vec![1, 2, 3]);
    disk.served.insert(String::from("https://example/img/abc123.png"), vec![4, 5, 6]);
    assert_eq!(download(&mut disk, photo()), Outcome::Skipped);
    assert_eq!(disk.fetched, Vec::<String>::new());
    assert_eq!(disk.notices, Vec::<String>::new());
    assert_eq!(disk.files.get("abc123.png"), Some(&vec![1, 2, 3]));
    assert_eq!(disk.files.len(), 1);
}

#[test]
fn download_stores_the_payload_as_fetched() {
    let mut disk = disk();
    disk.served.insert(String::from("https://example/img/abc123.png"), vec![4, 5, 6]);
    assert_eq!(download(&mut disk, photo()), Outcome::Success);
    assert_eq!(disk.fetched, vec![String::from("https://example/img/abc123.png")]);
    assert_eq!(disk.notices, vec![String::from("Downloading abc123.png...")]);
    assert_eq!(disk.files.get("abc123.png"), Some(&vec![4, 5, 6]));
}

#[test]
fn failed_fetch_leaves_an_empty_file() {
    let mut disk = disk();
    assert_eq!(download(&mut disk, photo()), Outcome::FetchFailed);
    assert_eq!(disk.fetched, vec![String::from("https://example/img/abc123.png")]);
    assert_eq!(disk.files.get("abc123.png"), Some(&Vec::new()));
    assert_eq!(download(&mut disk, photo()), Outcome::Skipped);
    assert_eq!(disk.fetched.len(), 1);
}

#[test]
fn second_phase_fetches_nothing() {
    let mut disk = disk();
    disk.locked.insert(String::from("locked.png"));
    disk.served.insert(String::from("https://h/a.png"), vec![1]);
    disk.served.insert(String::from("https://h/b.png"), vec![2]);
    disk.served.insert(String::from("https://h/locked.png"), vec![3]);
    let targets = vec![
        target("https://h/a.png", "a.png"),
        target("https://h/missing.png", "missing.png"),
        target("https://h/b.png", "b.png"),
        target("https://h/a.png", "a.png"),
        target("https://h/locked.png", "locked.png"),
        target("https://h/c.png", "../c.png"),
    ];
    let first: Vec<Outcome> = targets.iter().map(|t| download(&mut disk, t.clone())).collect();
    assert_eq!(
        first,
        vec![
            Outcome::Success,
            Outcome::FetchFailed,
            Outcome::Success,
            Outcome::Skipped,
            Outcome::IoFailed,
            Outcome::IoFailed,
        ]
    );
    assert_eq!(disk.fetched.len(), 3);
    let files = disk.files.clone();
    let second: Vec<Outcome> = targets.iter().map(|t| download(&mut disk, t.clone())).collect();
    assert_eq!(
        second,
        vec![
            Outcome::Skipped,
            Outcome::Skipped,
            Outcome::Skipped,
            Outcome::Skipped,
            Outcome::IoFailed,
            Outcome::IoFailed,
        ]
    );
    assert_eq!(disk.fetched.len(), 3);
    assert_eq!(disk.files, files);
}

fn answer(disk: &mut Disk, action: Action) -> Event {
    match action {
        Action::Probe { path } => Event::Probed { exists: disk.files.contains_key(&path) },
        Action::Open { path } => {
            let ok = !disk.locked.contains(&path);
            if ok {
                disk.files.entry(path).or_insert_with(Vec::new);
            }
            Event::Opened { ok }
        }
        Action::Fetch { notice, url } => {
            disk.notices.push(notice);
            disk.fetched.push(url.clone());
            Event::Fetched { body: disk.served.get(&url).cloned() }
        }
        Action::Write { path, body } => {
            disk.files.insert(path, body);
            Event::Written { ok: true }
        }
        Action::Finish { .. } => unreachable!(),
    }
}

fn interleaved(disk: &mut Disk, targets: &[DownloadTarget], schedule: &[usize]) -> Vec<Option<Outcome>> {
    let mut jobs: Vec<(Worker, Option<Action>)> = Vec::new();
    let mut outcomes: Vec<Option<Outcome>> = Vec::new();
    for target in targets.iter() {
        let (worker, action) = Worker::start(target.clone());
        jobs.push((worker, Some(action)));
        outcomes.push(None);
    }
    for &index in schedule.iter() {
        match jobs[index].1.take() {
            Some(Action::Finish { outcome }) => {
                outcomes[index] = Some(outcome);
                jobs[index].1 = Some(Action::Finish { outcome });
            }
            Some(action) => {
                let event = answer(disk, action);
                jobs[index].1 = jobs[index].0.step(event);
            }
            None => {}
        }
    }
    outcomes
}

#[test]
fn interleaved_downloads_end_like_serial_ones() {
    let targets = vec![
        target("https://h/a.png", "a.png"),
        target("https://h/broken.png", "broken.png"),
        target("https://h/b.png", "b.png"),
        target("https://h/locked.png", "locked.png"),
        target("https://h/old.png", "old.png"),
    ];
    let fresh = || {
        let mut disk = disk();
        disk.locked.insert(String::from("locked.png"));
        disk.files.insert(String::from("old.png"), vec![7]);
        disk.served.insert(String::from("https://h/a.png"), vec![1]);
        disk.served.insert(String::from("https://h/b.png"), vec![2]);
        disk.served.insert(String::from("https://h/old.png"), vec![3]);
        disk
    };
    let mut serial = fresh();
    let expected: Vec<Option<Outcome>> =
        targets.iter().map(|t| Some(download(&mut serial, t.clone()))).collect();
    assert_eq!(
        expected,
        vec![
            Some(Outcome::Success),
            Some(Outcome::FetchFailed),
            Some(Outcome::Success),
            Some(Outcome::IoFailed),
            Some(Outcome::Skipped),
        ]
    );
    let round_robin: Vec<usize> = (0..25).map(|k| k % 5).collect();
    let backwards: Vec<usize> = (0..25).map(|k| 4 - k % 5).collect();
    let in_pairs: Vec<usize> =
        vec![0, 1, 1, 0, 0, 1, 1, 0, 0, 1, 2, 3, 3, 2, 2, 3, 3, 2, 2, 3, 4, 4, 4, 4, 4];
    let one_by_one: Vec<usize> = (0..25).map(|k| k / 5).collect();
    for schedule in [round_robin, backwards, in_pairs, one_by_one].iter() {
        let mut disk = fresh();
        assert_eq!(interleaved(&mut disk, &targets, schedule), expected);
        assert_eq!(disk.files, serial.files);
        let mut fetched = disk.fetched.clone();
        let mut serially = serial.fetched.clone();
        fetched.sort();
        serially.sort();
        assert_eq!(fetched, serially);
    }
}

#[test]
fn failure_of_one_target_leaves_its_neighbours_alone() {
    let mut disk = disk();
    disk.served.insert(String::from("https://h/before.png"), vec![1]);
    disk.served.insert(String::from("https://h/after.png"), vec![2]);
    let targets = vec![
        target("https://h/before.png", "before.png"),
        target("https://h/broken.png", "broken.png"),
        target("https://h/after.png", "after.png"),
    ];
    let outcomes: Vec<Outcome> = targets.iter().map(|t| download(&mut disk, t.clone())).collect();
    assert_eq!(outcomes, vec![Outcome::Success, Outcome::FetchFailed, Outcome::Success]);
    assert_eq!(disk.files.get("before.png"), Some(&vec![1]));
    assert_eq!(disk.files.get("after.png"), Some(&vec![2]));
    assert_eq!(
        disk.fetched,
        vec![
            String::from("https://h/before.png"),
            String::from("https://h/broken.png"),
            String::from("https://h/after.png"),
        ]
    );
}
