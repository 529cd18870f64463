use asound_conf_wizard::audio::{Direction, SampleFormat};
use asound_conf_wizard::backend::{Backend, PcmInfo};
use asound_conf_wizard::hint::Hint;
use asound_conf_wizard::manager::{get_pcms, merge, ThreadManager};
use asound_conf_wizard::pcm::AlsaPcm;
use asound_conf_wizard::policy::ProbePolicy;
use asound_conf_wizard::session::{BoundsQuery, Trial};
use asound_conf_wizard::worker::{CardWorker, ThreadWorker, Threads, WorkerJob};
use std::cell::RefCell;

fn policy() -> ProbePolicy {
    ProbePolicy::new(
        vec![SampleFormat::S16],
        4,
        (40, 50),
        (40, 50),
        vec![44],
        (1, 2),
        (1, 2),
        vec![2],
    )
    .unwrap()
}

/// Probes an endpoint against a backend that takes S16 at 44 and 48 Hz in
/// stereo; endpoints whose name ends in `!` cannot be opened.
fn probe(name: &str, card: &str, direction: Direction) -> Option<AlsaPcm> {
    let backend = Backend {
        describe: |name: &str, _: Direction| {
            if name.ends_with('!') {
                None
            } else {
                Some(PcmInfo {
                    description: format!("about {name}"),
                    device_number: 0,
                    sub_device_number: 0,
                    software_mixable: true,
                    has_builtin_mixer: false,
                })
            }
        },
        bounds: |_: &str, _: Direction, _: BoundsQuery| None,
        trial: |_: &str, _: Direction, t: Trial| {
            t.rate.map_or(true, |r| r == 44 || r == 48) && t.channels.map_or(true, |c| c == 2)
        },
    };
    AlsaPcm::new(name, card, direction, &policy(), &backend)
}

/// A worker that is not run on a thread: its jobs wait in a queue and are
/// done when the worker is joined.
struct Queue {
    card: String,
    alive: bool,
    jobs: Vec<WorkerJob>,
}

fn run(queue: &Queue) -> Option<(Vec<AlsaPcm>, Vec<AlsaPcm>)> {
    if !queue.alive {
        return None;
    }
    let backend = Backend {
        describe: |name: &str, _: Direction| {
            if name.ends_with('!') {
                None
            } else {
                Some(PcmInfo {
                    description: format!("about {name}"),
                    device_number: 0,
                    sub_device_number: 0,
                    software_mixable: true,
                    has_builtin_mixer: false,
                })
            }
        },
        bounds: |_: &str, _: Direction, _: BoundsQuery| None,
        trial: |_: &str, _: Direction, t: Trial| {
            t.rate.map_or(true, |r| r == 44 || r == 48) && t.channels.map_or(true, |c| c == 2)
        },
    };
    let policy = policy();
    let mut worker = CardWorker::new();
    for job in queue.jobs.iter().cloned() {
        assert!(worker.handle(job, &policy, &backend).is_none());
    }
    worker.handle(WorkerJob::Done, &policy, &backend)
}

fn names(pcms: &[AlsaPcm]) -> Vec<String> {
    pcms.iter().map(|p| p.identity().name.clone()).collect()
}

fn job_names(queue: &Queue) -> Vec<String> {
    queue
        .jobs
        .iter()
        .map(|j| match j {
            WorkerJob::GetPcm { name, card_name, .. } => {
                assert_eq!(card_name, &queue.card);
                name.clone()
            }
            WorkerJob::Done => String::from("done"),
        })
        .collect()
}

#[test]
fn a_worker_keeps_endpoints_by_direction() {
    let backend = Backend {
        describe: |_: &str, _: Direction| {
            Some(PcmInfo {
                description: String::new(),
                device_number: 0,
                sub_device_number: 0,
                software_mixable: false,
                has_builtin_mixer: false,
            })
        },
        bounds: |_: &str, _: Direction, _: BoundsQuery| None,
        trial: |name: &str, _: Direction, _: Trial| name != "hw:dead",
    };
    let policy = policy();
    let mut worker = CardWorker::new();
    let job = |name: &str, direction: Direction| WorkerJob::GetPcm {
        name: String::from(name),
        card_name: String::from("A"),
        direction,
    };
    assert!(worker.handle(job("hw:1", Direction::Capture), &policy, &backend).is_none());
    assert!(worker.handle(job("hw:2", Direction::Playback), &policy, &backend).is_none());
    assert!(worker.handle(job("hw:dead", Direction::Playback), &policy, &backend).is_none());
    assert!(worker.handle(job("hw:3", Direction::Playback), &policy, &backend).is_none());
    let (playback, capture) = worker.handle(WorkerJob::Done, &policy, &backend).unwrap();
    assert_eq!(names(&playback), vec!["hw:2", "hw:3"]);
    assert_eq!(names(&capture), vec!["hw:1"]);
    assert_eq!(playback[0].identity().card_name, "A");
    // Once it has handed over, the worker holds nothing.
    let (playback, capture) = worker.handle(WorkerJob::Done, &policy, &backend).unwrap();
    assert!(playback.is_empty() && capture.is_empty());
}

#[test]
fn merging_follows_the_order_of_the_workers() {
    let first = (
        vec![probe("hw:a", "A", Direction::Playback).unwrap()],
        vec![probe("hw:b", "A", Direction::Capture).unwrap()],
    );
    let second = (
        vec![
            probe("hw:c", "B", Direction::Playback).unwrap(),
            probe("hw:d", "B", Direction::Playback).unwrap(),
        ],
        vec![],
    );
    let (playback, capture) = merge(vec![Some(first), None, Some(second), None]);
    assert_eq!(names(&playback), vec!["hw:a", "hw:c", "hw:d"]);
    assert_eq!(names(&capture), vec!["hw:b"]);
    let (playback, capture) = merge(vec![None]);
    assert!(playback.is_empty() && capture.is_empty());
    let (playback, capture) = merge(Vec::new());
    assert!(playback.is_empty() && capture.is_empty());
}

#[test]
fn a_handle_sends_and_joins_through_its_link() {
    let sent: RefCell<Vec<(u32, String, String, Direction)>> = RefCell::new(Vec::new());
    let threads = Threads {
        spawn: |card: &str| -> u32 { card.len() as u32 },
        send: |worker: &u32, job: WorkerJob| match job {
            WorkerJob::GetPcm { name, card_name, direction } => {
                sent.borrow_mut().push((*worker, name, card_name, direction));
                *worker != 4
            }
            WorkerJob::Done => false,
        },
        join: |worker: u32| {
            if worker == 3 {
                Some((vec![probe("hw:x", "abc", Direction::Playback).unwrap()], vec![]))
            } else {
                None
            }
        },
    };
    let mut worker = ThreadWorker::new(String::from("abc"), &threads);
    assert_eq!(worker.card_name, "abc");
    assert_eq!(worker.link, Some(3));
    assert!(worker.add_job("hw:CARD=abc,DEV=0", "abc", Direction::Capture, &threads));
    assert_eq!(
        *sent.borrow(),
        vec![(3, String::from("hw:CARD=abc,DEV=0"), String::from("abc"), Direction::Capture)]
    );
    let (playback, capture) = worker.get_pcms(&threads).unwrap();
    assert_eq!(names(&playback), vec!["hw:x"]);
    assert!(capture.is_empty());
    // Brought home, the worker takes no job and gives nothing.
    assert_eq!(worker.link, None);
    assert!(!worker.add_job("hw:CARD=abc,DEV=1", "abc", Direction::Capture, &threads));
    assert_eq!(sent.borrow().len(), 1);
    assert!(worker.get_pcms(&threads).is_none());
    // A worker that refuses.
    let refusing = ThreadWorker::new(String::from("four"), &threads);
    assert!(!refusing.add_job("hw:4", "four", Direction::Playback, &threads));
}

#[test]
fn jobs_for_one_card_go_to_one_worker() {
    let queues: RefCell<Vec<Queue>> = RefCell::new(Vec::new());
    let threads = Threads {
        spawn: |card: &str| -> usize {
            queues.borrow_mut().push(Queue { card: String::from(card), alive: true, jobs: Vec::new() });
            queues.borrow().len() - 1
        },
        send: |worker: &usize, job: WorkerJob| {
            let queue = &mut queues.borrow_mut()[*worker];
            if queue.alive {
                queue.jobs.push(job);
            }
            queue.alive
        },
        join: |worker: usize| run(&queues.borrow()[worker]),
    };
    let mut manager: ThreadManager<usize> = ThreadManager::new();
    manager.add_job("hw:CARD=A,DEV=0", Direction::Playback, &threads);
    manager.add_job("hw:CARD=B,DEV=0", Direction::Playback, &threads);
    manager.add_job("hw:CARD=A,DEV=0", Direction::Capture, &threads);
    manager.add_job("hw:CARD=A,DEV=1", Direction::Playback, &threads);
    manager.add_job("hw:CARD=B,DEV=1!", Direction::Capture, &threads);
    {
        let queues = queues.borrow();
        assert_eq!(queues.len(), 2);
        assert_eq!(queues[0].card, "A");
        assert_eq!(
            job_names(&queues[0]),
            vec!["hw:CARD=A,DEV=0", "hw:CARD=A,DEV=0", "hw:CARD=A,DEV=1"]
        );
        assert_eq!(queues[1].card, "B");
        assert_eq!(job_names(&queues[1]), vec!["hw:CARD=B,DEV=0", "hw:CARD=B,DEV=1!"]);
    }
    let (playback, capture) = manager.get_pcms(&threads);
    assert_eq!(names(&playback), vec!["hw:CARD=A,DEV=0", "hw:CARD=A,DEV=1", "hw:CARD=B,DEV=0"]);
    assert_eq!(names(&capture), vec!["hw:CARD=A,DEV=0"]);
    assert_eq!(playback[1].identity().card_name, "A");
    assert_eq!(playback[2].identity().card_name, "B");
}

#[test]
fn no_two_live_workers_share_a_card() {
    let queues: RefCell<Vec<Queue>> = RefCell::new(Vec::new());
    let threads = Threads {
        spawn: |card: &str| -> usize {
            // A card is never given a second worker while its first lives.
            assert!(queues.borrow().iter().all(|q| !q.alive || q.card != card));
            queues.borrow_mut().push(Queue { card: String::from(card), alive: true, jobs: Vec::new() });
            queues.borrow().len() - 1
        },
        send: |worker: &usize, job: WorkerJob| {
            let queue = &mut queues.borrow_mut()[*worker];
            if let WorkerJob::GetPcm { name, card_name, .. } = &job {
                // Every job reaches the worker of its own card.
                assert_eq!(card_name, &queue.card);
                assert_eq!(asound_conf_wizard::card::card_key(name), queue.card);
            }
            if queue.alive {
                queue.jobs.push(job);
            }
            queue.alive
        },
        join: |worker: usize| run(&queues.borrow()[worker]),
    };
    let mut manager: ThreadManager<usize> = ThreadManager::new();
    let cards = ["A", "B", "C", "A", "C", "B", "B", "A"];
    for (round, card) in cards.iter().enumerate() {
        if round == 4 {
            // The worker of card A dies on the way.
            queues.borrow_mut()[0].alive = false;
        }
        manager.add_job(&format!("hw:CARD={card},DEV={round}"), Direction::Playback, &threads);
    }
    let queues_now: Vec<(String, bool, usize)> =
        queues.borrow().iter().map(|q| (q.card.clone(), q.alive, q.jobs.len())).collect();
    assert_eq!(
        queues_now,
        vec![
            (String::from("A"), false, 2),
            (String::from("B"), true, 3),
            (String::from("C"), true, 2),
            (String::from("A"), true, 1),
        ]
    );
    let (playback, _) = manager.get_pcms(&threads);
    assert_eq!(
        names(&playback),
        vec![
            "hw:CARD=B,DEV=1",
            "hw:CARD=B,DEV=5",
            "hw:CARD=B,DEV=6",
            "hw:CARD=C,DEV=2",
            "hw:CARD=C,DEV=4",
            "hw:CARD=A,DEV=7",
        ]
    );
}

#[test]
fn a_dead_worker_is_replaced() {
    let queues: RefCell<Vec<Queue>> = RefCell::new(Vec::new());
    let threads = Threads {
        spawn: |card: &str| -> usize {
            queues.borrow_mut().push(Queue { card: String::from(card), alive: true, jobs: Vec::new() });
            queues.borrow().len() - 1
        },
        send: |worker: &usize, job: WorkerJob| {
            let queue = &mut queues.borrow_mut()[*worker];
            if queue.alive {
                queue.jobs.push(job);
            }
            queue.alive
        },
        join: |worker: usize| run(&queues.borrow()[worker]),
    };
    let mut manager: ThreadManager<usize> = ThreadManager::new();
    manager.add_job("hw:CARD=A,DEV=0", Direction::Playback, &threads);
    manager.add_job("hw:CARD=B,DEV=0", Direction::Playback, &threads);
    queues.borrow_mut()[0].alive = false;
    manager.add_job("hw:CARD=A,DEV=1", Direction::Playback, &threads);
    manager.add_job("hw:CARD=A,DEV=2", Direction::Capture, &threads);
    {
        let queues = queues.borrow();
        assert_eq!(queues.len(), 3);
        assert_eq!(job_names(&queues[0]), vec!["hw:CARD=A,DEV=0"]);
        assert_eq!(queues[2].card, "A");
        assert_eq!(job_names(&queues[2]), vec!["hw:CARD=A,DEV=1", "hw:CARD=A,DEV=2"]);
    }
    // The card of the lost worker has only what its new worker found; the
    // new worker stands behind the others.
    let (playback, capture) = manager.get_pcms(&threads);
    assert_eq!(names(&playback), vec!["hw:CARD=B,DEV=0", "hw:CARD=A,DEV=1"]);
    assert_eq!(names(&capture), vec!["hw:CARD=A,DEV=2"]);
}

#[test]
fn a_worker_that_never_takes_a_job_is_dropped() {
    let spawned: RefCell<Vec<String>> = RefCell::new(Vec::new());
    let joined: RefCell<Vec<usize>> = RefCell::new(Vec::new());
    let threads = Threads {
        spawn: |card: &str| -> usize {
            spawned.borrow_mut().push(String::from(card));
            spawned.borrow().len() - 1
        },
        send: |_: &usize, _: WorkerJob| false,
        join: |worker: usize| {
            joined.borrow_mut().push(worker);
            None
        },
    };
    let mut manager: ThreadManager<usize> = ThreadManager::new();
    manager.add_job("hw:CARD=A,DEV=0", Direction::Playback, &threads);
    manager.add_job("hw:CARD=A,DEV=1", Direction::Playback, &threads);
    assert_eq!(*spawned.borrow(), vec!["A", "A"]);
    let (playback, capture) = manager.get_pcms(&threads);
    assert!(playback.is_empty() && capture.is_empty());
    assert!(joined.borrow().is_empty());
}

#[test]
fn workers_are_brought_home_once() {
    let queues: RefCell<Vec<Queue>> = RefCell::new(Vec::new());
    let joined: RefCell<Vec<usize>> = RefCell::new(Vec::new());
    let threads = Threads {
        spawn: |card: &str| -> usize {
            queues.borrow_mut().push(Queue { card: String::from(card), alive: true, jobs: Vec::new() });
            queues.borrow().len() - 1
        },
        send: |worker: &usize, job: WorkerJob| {
            queues.borrow_mut()[*worker].jobs.push(job);
            true
        },
        join: |worker: usize| {
            joined.borrow_mut().push(worker);
            run(&queues.borrow()[worker])
        },
    };
    let mut manager: ThreadManager<usize> = ThreadManager::new();
    manager.add_job("hw:CARD=A,DEV=0", Direction::Playback, &threads);
    manager.add_job("hw:CARD=B,DEV=0", Direction::Capture, &threads);
    let (playback, capture) = manager.get_pcms(&threads);
    assert_eq!(names(&playback), vec!["hw:CARD=A,DEV=0"]);
    assert_eq!(names(&capture), vec!["hw:CARD=B,DEV=0"]);
    let (playback, capture) = manager.get_pcms(&threads);
    assert!(playback.is_empty() && capture.is_empty());
    assert_eq!(*joined.borrow(), vec![0, 1]);
    // A job for a card whose worker was brought home starts a new worker.
    manager.add_job("hw:CARD=A,DEV=1", Direction::Playback, &threads);
    assert_eq!(queues.borrow().len(), 3);
    let (playback, _) = manager.get_pcms(&threads);
    assert_eq!(names(&playback), vec!["hw:CARD=A,DEV=1"]);
}

#[test]
fn a_discovery_pass_over_hints() {
    let queues: RefCell<Vec<Queue>> = RefCell::new(Vec::new());
    let threads = Threads {
        spawn: |card: &str| -> usize {
            queues.borrow_mut().push(Queue { card: String::from(card), alive: true, jobs: Vec::new() });
            queues.borrow().len() - 1
        },
        send: |worker: &usize, job: WorkerJob| {
            queues.borrow_mut()[*worker].jobs.push(job);
            true
        },
        join: |worker: usize| run(&queues.borrow()[worker]),
    };
    let hint = |name: &str, direction: Option<Direction>| Hint {
        name: Some(String::from(name)),
        description: None,
        direction,
    };
    let hints = vec![
        hint("default", Some(Direction::Playback)),
        hint("hw:CARD=PCH,DEV=0", Some(Direction::Playback)),
        hint("hw:CARD=USB,DEV=0", Some(Direction::Capture)),
        hint("hw:CARD=PCH,DEV=0", Some(Direction::Capture)),
        hint("hw:CARD=PCH,DEV=3!", Some(Direction::Playback)),
        hint("hw:CARD=USB,DEV=0", None),
        hint("hdmi:CARD=PCH,DEV=1", Some(Direction::Playback)),
    ];
    let (playback, capture) = get_pcms(Some(hints.clone()), &threads);
    assert_eq!(queues.borrow().len(), 2);
    assert_eq!(names(&playback), vec!["hw:CARD=PCH,DEV=0", "hdmi:CARD=PCH,DEV=1"]);
    assert_eq!(names(&capture), vec!["hw:CARD=PCH,DEV=0", "hw:CARD=USB,DEV=0"]);
    // A second pass over the same hints finds the same.
    let (again_playback, again_capture) = get_pcms(Some(hints), &threads);
    assert_eq!(names(&again_playback), names(&playback));
    assert_eq!(names(&again_capture), names(&capture));
    for (a, b) in playback.iter().zip(again_playback.iter()) {
        assert_eq!(a.formats(), b.formats());
        assert_eq!(a.rates(), b.rates());
        assert_eq!(a.channels(), b.channels());
        assert_eq!(a.valid_configurations().len(), b.valid_configurations().len());
    }
    // Without a discovery source nothing is found and no worker started.
    let before = queues.borrow().len();
    let (playback, capture) = get_pcms(None, &threads);
    assert!(playback.is_empty() && capture.is_empty());
    assert_eq!(queues.borrow().len(), before);
}
