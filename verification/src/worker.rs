//! The worker of one card: what it does with each job, and the handle by
//! which the dispatcher holds it.
//!
//! All endpoints of a card are probed by the card's worker, one after the
//! other, so that no card is ever opened twice at once. The worker itself
//! runs where the caller puts it, typically on a thread of its own, and
//! takes its jobs from a queue; how jobs reach it and how its results come
//! back is handed in by the caller as three functions.

use vstd::prelude::*;
use crate::audio::Direction;
use crate::backend::{Backend, PcmInfo};
use crate::pcm::{lemma_probing_repeatable, pcm_view, probed, AlsaPcm, PcmView};
use crate::policy::{PolicyView, ProbePolicy};
use crate::session::{BoundsQuery, Trial};

verus! {

/// What a worker is asked to do.
#[derive(Clone, Debug)]
pub enum WorkerJob {
    /// Probe the endpoint opened under `name`, which belongs to the card
    /// `card_name`.
    GetPcm { name: String, card_name: String, direction: Direction },
    /// Hand over what was found and stop.
    Done,
}

/// A job with its texts as sequences of characters.
pub enum JobView {
    GetPcm { name: Seq<char>, card_name: Seq<char>, direction: Direction },
    Done,
}

impl View for WorkerJob {
    type V = JobView;

    open spec fn view(&self) -> JobView {
        match *self {
            WorkerJob::GetPcm { name, card_name, direction } => JobView::GetPcm {
                name: name@,
                card_name: card_name@,
                direction,
            },
            WorkerJob::Done => JobView::Done,
        }
    }
}

/// The views of a list of endpoints.
pub open spec fn pcm_views(pcms: Seq<AlsaPcm>) -> Seq<PcmView> {
    Seq::new(pcms.len(), |i: int| pcms[i]@)
}

/// What a worker hands over, as plain values: the playback endpoints and
/// the capture endpoints; nothing from a worker that was lost.
pub open spec fn results_view(results: Option<(Vec<AlsaPcm>, Vec<AlsaPcm>)>) -> Option<
    (Seq<PcmView>, Seq<PcmView>),
> {
    match results {
        Some((playback, capture)) => Some((pcm_views(playback@), pcm_views(capture@))),
        None => None,
    }
}

/// The two lists with the result of one probing put behind the list of its
/// direction, if it is an endpoint.
pub open spec fn shelved(
    before: (Seq<PcmView>, Seq<PcmView>),
    direction: Direction,
    result: Option<PcmView>,
) -> (Seq<PcmView>, Seq<PcmView>) {
    match result {
        None => before,
        Some(e) => match direction {
            Direction::Playback => (before.0.push(e), before.1),
            Direction::Capture => (before.0, before.1.push(e)),
        },
    }
}

/// A job done twice comes to the same: against a backend with one answer
/// to each question, probing an endpoint leaves a worker's lists in one
/// state only.
pub proof fn lemma_job_repeatable<D, B, T>(
    policy: PolicyView,
    backend: &Backend<D, B, T>,
    name: Seq<char>,
    card_name: Seq<char>,
    direction: Direction,
    before: (Seq<PcmView>, Seq<PcmView>),
    first: Option<PcmView>,
    second: Option<PcmView>,
) where
    D: Fn(&str, Direction) -> Option<PcmInfo>,
    B: Fn(&str, Direction, BoundsQuery) -> Option<(u32, u32)>,
    T: Fn(&str, Direction, Trial) -> bool,

    requires
        backend.deterministic(),
        probed(policy, backend, name, card_name, direction, first),
        probed(policy, backend, name, card_name, direction, second),
    ensures
        shelved(before, direction, first) == shelved(before, direction, second),
{
    lemma_probing_repeatable(policy, backend, name, card_name, direction, first, second);
}

/// The worker of one card: the endpoints found so far, by direction.
pub struct CardWorker {
    playback: Vec<AlsaPcm>,
    capture: Vec<AlsaPcm>,
}

impl View for CardWorker {
    type V = (Seq<PcmView>, Seq<PcmView>);

    closed spec fn view(&self) -> (Seq<PcmView>, Seq<PcmView>) {
        (pcm_views(self.playback@), pcm_views(self.capture@))
    }
}

impl CardWorker {
    /// A worker that has found nothing yet.
    pub fn new() -> (worker: CardWorker)
        ensures
            worker@ == (Seq::<PcmView>::empty(), Seq::<PcmView>::empty()),
    {
        let worker = CardWorker { playback: Vec::new(), capture: Vec::new() };
        assert(worker@.0 =~= Seq::<PcmView>::empty());
        assert(worker@.1 =~= Seq::<PcmView>::empty());
        worker
    }

    /// Does one job. Asked to probe an endpoint, the worker probes it and
    /// keeps it, if it has a verified configuration, behind the endpoints of
    /// the same direction; the worker goes on. Asked to stop, it hands over
    /// what it has found and is left with nothing.
    pub fn handle<D, B, T>(
        &mut self,
        job: WorkerJob,
        policy: &ProbePolicy,
        backend: &Backend<D, B, T>,
    ) -> (finished: Option<(Vec<AlsaPcm>, Vec<AlsaPcm>)>) where
        D: Fn(&str, Direction) -> Option<PcmInfo>,
        B: Fn(&str, Direction, BoundsQuery) -> Option<(u32, u32)>,
        T: Fn(&str, Direction, Trial) -> bool,

        requires
            backend.ready(),
        ensures
            match job@ {
                JobView::Done => {
                    &&& results_view(finished) == Some(old(self)@)
                    &&& final(self)@ == (Seq::<PcmView>::empty(), Seq::<PcmView>::empty())
                },
                JobView::GetPcm { name, card_name, direction } => {
                    &&& finished is None
                    &&& exists|result: Option<PcmView>| #[trigger]
                        probed(policy@, backend, name, card_name, direction, result)
                            && final(self)@ == shelved(old(self)@, direction, result)
                },
            },
    {
        match job {
            WorkerJob::Done => {
                let mut playback: Vec<AlsaPcm> = Vec::new();
                let mut capture: Vec<AlsaPcm> = Vec::new();
                core::mem::swap(&mut self.playback, &mut playback);
                core::mem::swap(&mut self.capture, &mut capture);
                assert(self@.0 =~= Seq::<PcmView>::empty());
                assert(self@.1 =~= Seq::<PcmView>::empty());
                Some((playback, capture))
            },
            WorkerJob::GetPcm { name, card_name, direction } => {
                let ghost before = self@;
                let pcm = AlsaPcm::new(
                    name.as_str(),
                    card_name.as_str(),
                    direction,
                    policy,
                    backend,
                );
                let ghost result = pcm_view(pcm);
                match pcm {
                    None => {},
                    Some(pcm) => match direction {
                        Direction::Playback => {
                            self.playback.push(pcm);
                            assert(self@.0 =~= before.0.push(pcm@));
                        },
                        Direction::Capture => {
                            self.capture.push(pcm);
                            assert(self@.1 =~= before.1.push(pcm@));
                        },
                    },
                }
                assert(probed(
                    policy@,
                    backend,
                    job@->name,
                    job@->card_name,
                    job@->direction,
                    result,
                ));
                assert(self@ == shelved(before, job@->direction, result));
                None
            },
        }
    }
}

/// How workers are started, fed and brought home; `H` is whatever the
/// caller holds a running worker by. `spawn` starts the worker of a card,
/// `send` puts a job into a worker's queue and says whether the worker was
/// still there to take it, `join` tells a worker to stop, waits for it and
/// takes what it hands over.
pub struct Threads<S, Q, J> {
    pub spawn: S,
    pub send: Q,
    pub join: J,
}

impl<H, S, Q, J> Threads<S, Q, J> where
    S: Fn(&str) -> H,
    Q: Fn(&H, WorkerJob) -> bool,
    J: Fn(H) -> Option<(Vec<AlsaPcm>, Vec<AlsaPcm>)>,
 {
    /// Each of the three functions may be called with any arguments.
    pub open spec fn ready(&self) -> bool {
        &&& forall|card: &str| call_requires(self.spawn, (card,))
        &&& forall|worker: &H, job: WorkerJob| call_requires(self.send, (worker, job))
        &&& forall|worker: H| call_requires(self.join, (worker,))
    }

    /// `worker` is what starting the worker of the card may give.
    pub open spec fn spawns(&self, card: Seq<char>, worker: H) -> bool {
        exists|c: &str| c@ == card && #[trigger] call_ensures(self.spawn, (c,), worker)
    }

    /// `taken` is what sending the job to the worker may answer.
    pub open spec fn delivers(&self, worker: H, job: JobView, taken: bool) -> bool {
        exists|j: WorkerJob| j@ == job && #[trigger] call_ensures(self.send, (&worker, j), taken)
    }

    /// `results` is what bringing the worker home may give.
    pub open spec fn yields(
        &self,
        worker: H,
        results: Option<(Seq<PcmView>, Seq<PcmView>)>,
    ) -> bool {
        exists|r: Option<(Vec<AlsaPcm>, Vec<AlsaPcm>)>|
            results_view(r) == results && #[trigger] call_ensures(self.join, (worker,), r)
    }
}

/// The dispatcher's handle on the worker of one card. The link is gone
/// once the worker was brought home.
pub struct ThreadWorker<H> {
    pub card_name: String,
    pub link: Option<H>,
}

/// A handle with the card's key as a sequence of characters.
pub struct WorkerView<H> {
    pub card_name: Seq<char>,
    pub link: Option<H>,
}

impl<H> View for ThreadWorker<H> {
    type V = WorkerView<H>;

    open spec fn view(&self) -> WorkerView<H> {
        WorkerView { card_name: self.card_name@, link: self.link }
    }
}

/// The job that asks for an endpoint to be probed.
pub open spec fn probe_job(name: Seq<char>, card_name: Seq<char>, direction: Direction) -> JobView {
    JobView::GetPcm { name, card_name, direction }
}

impl<H> ThreadWorker<H> {
    /// Starts the worker of a card.
    pub fn new<S, Q, J>(card_name: String, threads: &Threads<S, Q, J>) -> (worker: ThreadWorker<
        H,
    >) where
        S: Fn(&str) -> H,
        Q: Fn(&H, WorkerJob) -> bool,
        J: Fn(H) -> Option<(Vec<AlsaPcm>, Vec<AlsaPcm>)>,

        requires
            threads.ready(),
        ensures
            worker@.card_name == card_name@,
            worker@.link matches Some(h) && threads.spawns(card_name@, h),
    {
        let link = (threads.spawn)(card_name.as_str());
        ThreadWorker { card_name, link: Some(link) }
    }

    /// Sends the worker the job to probe an endpoint. The answer is
    /// whether the worker took the job; one that was brought home takes
    /// none.
    pub fn add_job<S, Q, J>(
        &self,
        name: &str,
        card_name: &str,
        direction: Direction,
        threads: &Threads<S, Q, J>,
    ) -> (taken: bool) where
        S: Fn(&str) -> H,
        Q: Fn(&H, WorkerJob) -> bool,
        J: Fn(H) -> Option<(Vec<AlsaPcm>, Vec<AlsaPcm>)>,

        requires
            threads.ready(),
        ensures
            match self@.link {
                None => !taken,
                Some(h) => threads.delivers(h, probe_job(name@, card_name@, direction), taken),
            },
    {
        match &self.link {
            None => false,
            Some(link) => {
                let job = WorkerJob::GetPcm {
                    name: String::from_str(name),
                    card_name: String::from_str(card_name),
                    direction,
                };
                assert(job@ == probe_job(name@, card_name@, direction));
                (threads.send)(link, job)
            },
        }
    }

    /// Brings the worker home: tells it to stop, waits for it and takes
    /// what it hands over. A worker that was lost, or brought home before,
    /// gives nothing.
    pub fn get_pcms<S, Q, J>(&mut self, threads: &Threads<S, Q, J>) -> (results: Option<
        (Vec<AlsaPcm>, Vec<AlsaPcm>),
    >) where
        S: Fn(&str) -> H,
        Q: Fn(&H, WorkerJob) -> bool,
        J: Fn(H) -> Option<(Vec<AlsaPcm>, Vec<AlsaPcm>)>,

        requires
            threads.ready(),
        ensures
            final(self)@.card_name == old(self)@.card_name,
            final(self)@.link is None,
            match old(self)@.link {
                None => results is None,
                Some(h) => threads.yields(h, results_view(results)),
            },
    {
        match self.link.take() {
            None => None,
            Some(link) => (threads.join)(link),
        }
    }
}

} // verus!
