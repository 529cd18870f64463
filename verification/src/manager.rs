//! The dispatcher: one worker for each card, started when the card is first
//! met, replaced when it is found dead, and brought home at the end.

use vstd::prelude::*;
use crate::audio::Direction;
use crate::card::{card_key, card_key_of};
use crate::hint::{
    candidate_views, candidates, candidates_of, source_view, CandidateView, Hint,
};
use crate::pcm::{AlsaPcm, PcmView};
use crate::worker::{
    pcm_views, probe_job, results_view, JobView, ThreadWorker, Threads, WorkerJob, WorkerView,
};

verus! {

/// The views of a list of handles.
pub open spec fn worker_views<H>(workers: Seq<ThreadWorker<H>>) -> Seq<WorkerView<H>> {
    Seq::new(workers.len(), |i: int| workers[i]@)
}

/// No two handles are for the same card.
pub open spec fn distinct_cards<H>(workers: Seq<WorkerView<H>>) -> bool {
    forall|i: int, j: int|
        0 <= i < j < workers.len() ==> (#[trigger] workers[i]).card_name
            != (#[trigger] workers[j]).card_name
}

/// Whether a handle is for another card than `key`; as a predicate on
/// handles.
pub open spec fn other_card<H>(key: Seq<char>) -> spec_fn(WorkerView<H>) -> bool {
    |w: WorkerView<H>| w.card_name != key
}

/// The handles without the one for the card `key`.
pub open spec fn without<H>(workers: Seq<WorkerView<H>>, key: Seq<char>) -> Seq<WorkerView<H>> {
    workers.filter(other_card(key))
}

/// The card's worker is there and took the job.
pub open spec fn taken<H, S, Q, J>(
    threads: &Threads<S, Q, J>,
    workers: Seq<WorkerView<H>>,
    key: Seq<char>,
    job: JobView,
) -> bool where
    S: Fn(&str) -> H,
    Q: Fn(&H, WorkerJob) -> bool,
    J: Fn(H) -> Option<(Vec<AlsaPcm>, Vec<AlsaPcm>)>,
 {
    exists|i: int|
        0 <= i < workers.len() && (#[trigger] workers[i]).card_name == key && workers[i].link
            is Some && threads.delivers(workers[i].link->0, job, true)
}

/// The card has no worker that could take the job: none at all, one that
/// was brought home, or one that did not take it.
pub open spec fn refused<H, S, Q, J>(
    threads: &Threads<S, Q, J>,
    workers: Seq<WorkerView<H>>,
    key: Seq<char>,
    job: JobView,
) -> bool where
    S: Fn(&str) -> H,
    Q: Fn(&H, WorkerJob) -> bool,
    J: Fn(H) -> Option<(Vec<AlsaPcm>, Vec<AlsaPcm>)>,
 {
    forall|i: int|
        0 <= i < workers.len() && (#[trigger] workers[i]).card_name == key && workers[i].link
            is Some ==> threads.delivers(workers[i].link->0, job, false)
}

/// A new worker was started for the card in place of the old one, if there
/// was one. It stands last if it took the job and is dropped if not.
pub open spec fn restarted<H, S, Q, J>(
    threads: &Threads<S, Q, J>,
    before: Seq<WorkerView<H>>,
    key: Seq<char>,
    job: JobView,
    after: Seq<WorkerView<H>>,
) -> bool where
    S: Fn(&str) -> H,
    Q: Fn(&H, WorkerJob) -> bool,
    J: Fn(H) -> Option<(Vec<AlsaPcm>, Vec<AlsaPcm>)>,
 {
    exists|h: H| #[trigger]
        threads.spawns(key, h) && {
            ||| threads.delivers(h, job, true) && after == without(before, key).push(
                WorkerView { card_name: key, link: Some(h) },
            )
            ||| threads.delivers(h, job, false) && after == without(before, key)
        }
}

/// How the handles may stand once the job to probe the endpoint `name` was
/// routed. The job goes to the worker of the endpoint's card and all stays
/// as it was; or that worker is not there to take it, and a new one is
/// started in its place and given the job.
pub open spec fn routed<H, S, Q, J>(
    threads: &Threads<S, Q, J>,
    before: Seq<WorkerView<H>>,
    name: Seq<char>,
    direction: Direction,
    after: Seq<WorkerView<H>>,
) -> bool where
    S: Fn(&str) -> H,
    Q: Fn(&H, WorkerJob) -> bool,
    J: Fn(H) -> Option<(Vec<AlsaPcm>, Vec<AlsaPcm>)>,
 {
    let key = card_key_of(name);
    let job = probe_job(name, key, direction);
    ||| taken(threads, before, key, job) && after == before
    ||| refused(threads, before, key, job) && restarted(threads, before, key, job, after)
}

/// Where no handle is for the card, dropping the card's handle changes
/// nothing.
pub proof fn lemma_without_absent<H>(workers: Seq<WorkerView<H>>, key: Seq<char>)
    requires
        forall|i: int| 0 <= i < workers.len() ==> (#[trigger] workers[i]).card_name != key,
    ensures
        without(workers, key) == workers,
    decreases workers.len(),
{
    reveal(Seq::filter);
    if workers.len() > 0 {
        let rest = workers.drop_last();
        assert forall|i: int| 0 <= i < rest.len() implies (#[trigger] rest[i]).card_name != key by {
            assert(rest[i] == workers[i]);
        }
        lemma_without_absent(rest, key);
        assert(other_card::<H>(key)(workers.last()));
        assert(rest.push(workers.last()) =~= workers);
    }
}

/// Where the handles are for distinct cards, dropping the card's handle
/// takes out exactly the one place where it stands.
pub proof fn lemma_without_at<H>(workers: Seq<WorkerView<H>>, key: Seq<char>, at: int)
    requires
        distinct_cards(workers),
        0 <= at < workers.len(),
        workers[at].card_name == key,
    ensures
        without(workers, key) == workers.remove(at),
    decreases workers.len(),
{
    reveal(Seq::filter);
    let rest = workers.drop_last();
    let last = workers.last();
    if at == workers.len() - 1 {
        assert forall|i: int| 0 <= i < rest.len() implies (#[trigger] rest[i]).card_name != key by {
            assert(rest[i] == workers[i]);
            assert(workers[i].card_name != workers[at].card_name);
        }
        lemma_without_absent(rest, key);
        assert(workers.remove(at) =~= rest);
    } else {
        assert(workers[at].card_name != last.card_name);
        assert(other_card::<H>(key)(last));
        assert(distinct_cards(rest)) by {
            assert forall|i: int, j: int| 0 <= i < j < rest.len() implies (#[trigger] rest[i])
                .card_name != (#[trigger] rest[j]).card_name by {
                assert(rest[i] == workers[i] && rest[j] == workers[j]);
            }
        }
        assert(rest[at] == workers[at]);
        lemma_without_at(rest, key, at);
        assert(rest.remove(at).push(last) =~= workers.remove(at));
    }
}

/// Dropping the card's handle leaves the handles for distinct cards, none
/// of them for the card.
pub proof fn lemma_without_distinct<H>(workers: Seq<WorkerView<H>>, key: Seq<char>)
    requires
        distinct_cards(workers),
    ensures
        distinct_cards(without(workers, key)),
        forall|i: int|
            0 <= i < without(workers, key).len() ==> (#[trigger] without(workers, key)[i]).card_name
                != key,
{
    if exists|at: int| 0 <= at < workers.len() && (#[trigger] workers[at]).card_name == key {
        let at = choose|at: int|
            0 <= at < workers.len() && (#[trigger] workers[at]).card_name == key;
        lemma_without_at(workers, key, at);
        let left = workers.remove(at);
        assert forall|i: int| 0 <= i < left.len() implies (#[trigger] left[i]).card_name != key by {
            if i < at {
                assert(left[i] == workers[i]);
                assert(workers[i].card_name != workers[at].card_name);
            } else {
                assert(left[i] == workers[i + 1]);
                assert(workers[at].card_name != workers[i + 1].card_name);
            }
        }
        assert forall|i: int, j: int| 0 <= i < j < left.len() implies (#[trigger] left[i])
            .card_name != (#[trigger] left[j]).card_name by {
            let a = if i < at { i } else { i + 1 };
            let b = if j < at { j } else { j + 1 };
            assert(left[i] == workers[a] && left[j] == workers[b]);
        }
    } else {
        lemma_without_absent(workers, key);
    }
}

/// One worker for each card: however a job is routed, the handles stay
/// for distinct cards, so that all jobs for one card go to one worker.
pub proof fn lemma_routed_distinct<H, S, Q, J>(
    threads: &Threads<S, Q, J>,
    before: Seq<WorkerView<H>>,
    name: Seq<char>,
    direction: Direction,
    after: Seq<WorkerView<H>>,
) where
    S: Fn(&str) -> H,
    Q: Fn(&H, WorkerJob) -> bool,
    J: Fn(H) -> Option<(Vec<AlsaPcm>, Vec<AlsaPcm>)>,

    requires
        distinct_cards(before),
        routed(threads, before, name, direction, after),
    ensures
        distinct_cards(after),
{
    let key = card_key_of(name);
    lemma_without_distinct(before, key);
    let left = without(before, key);
    if after != before && after != left {
        assert forall|i: int, j: int| 0 <= i < j < after.len() implies (#[trigger] after[i])
            .card_name != (#[trigger] after[j]).card_name by {
            if j < left.len() {
                assert(after[i] == left[i] && after[j] == left[j]);
            } else {
                assert(after[i] == left[i]);
            }
        }
    }
}

/// What bringing one worker home may give: nothing for a handle without a
/// link, else what joining the worker gives.
pub open spec fn brought_home<H, S, Q, J>(
    threads: &Threads<S, Q, J>,
    worker: WorkerView<H>,
    reply: Option<(Seq<PcmView>, Seq<PcmView>)>,
) -> bool where
    S: Fn(&str) -> H,
    Q: Fn(&H, WorkerJob) -> bool,
    J: Fn(H) -> Option<(Vec<AlsaPcm>, Vec<AlsaPcm>)>,
 {
    match worker.link {
        None => reply is None,
        Some(h) => threads.yields(h, reply),
    }
}

/// The endpoints of all workers in the workers' order, by direction. A
/// worker that gave nothing adds nothing.
pub open spec fn merged(replies: Seq<Option<(Seq<PcmView>, Seq<PcmView>)>>) -> (
    Seq<PcmView>,
    Seq<PcmView>,
)
    decreases replies.len(),
{
    if replies.len() == 0 {
        (Seq::empty(), Seq::empty())
    } else {
        let rest = merged(replies.drop_last());
        match replies.last() {
            Some(found) => (rest.0 + found.0, rest.1 + found.1),
            None => rest,
        }
    }
}

/// The views of what the workers gave.
pub open spec fn reply_views(replies: Seq<Option<(Vec<AlsaPcm>, Vec<AlsaPcm>)>>) -> Seq<
    Option<(Seq<PcmView>, Seq<PcmView>)>,
> {
    Seq::new(replies.len(), |i: int| results_view(replies[i]))
}

/// The handle without its link.
pub open spec fn unlinked<H>(worker: WorkerView<H>) -> WorkerView<H> {
    WorkerView { card_name: worker.card_name, link: None }
}

/// What bringing all workers home may come to: every handle has lost its
/// link, and the endpoints are those that the workers gave, merged.
pub open spec fn collected<H, S, Q, J>(
    threads: &Threads<S, Q, J>,
    before: Seq<WorkerView<H>>,
    after: Seq<WorkerView<H>>,
    playback: Seq<PcmView>,
    capture: Seq<PcmView>,
) -> bool where
    S: Fn(&str) -> H,
    Q: Fn(&H, WorkerJob) -> bool,
    J: Fn(H) -> Option<(Vec<AlsaPcm>, Vec<AlsaPcm>)>,
 {
    &&& after.len() == before.len()
    &&& forall|i: int| 0 <= i < before.len() ==> #[trigger] after[i] == unlinked(before[i])
    &&& exists|replies: Seq<Option<(Seq<PcmView>, Seq<PcmView>)>>|
        {
            &&& replies.len() == before.len()
            &&& forall|i: int|
                0 <= i < before.len() ==> brought_home(threads, before[i], #[trigger] replies[i])
            &&& (playback, capture) == #[trigger] merged(replies)
        }
}

/// Merges what the workers gave into one list for each direction.
pub fn merge(replies: Vec<Option<(Vec<AlsaPcm>, Vec<AlsaPcm>)>>) -> (all: (
    Vec<AlsaPcm>,
    Vec<AlsaPcm>,
))
    ensures
        (pcm_views(all.0@), pcm_views(all.1@)) == merged(reply_views(replies@)),
{
    let ghost given = reply_views(replies@);
    let mut replies = replies;
    let mut playback: Vec<AlsaPcm> = Vec::new();
    let mut capture: Vec<AlsaPcm> = Vec::new();
    let ghost mut k: int = 0;
    assert(given.take(0) =~= Seq::empty());
    assert(pcm_views(playback@) =~= merged(given.take(0)).0);
    assert(pcm_views(capture@) =~= merged(given.take(0)).1);
    while replies.len() > 0
        invariant
            0 <= k <= given.len(),
            replies@.len() == given.len() - k,
            reply_views(replies@) == given.skip(k),
            (pcm_views(playback@), pcm_views(capture@)) == merged(given.take(k)),
        decreases replies.len(),
    {
        let ghost before = replies@;
        let ghost playback_before = pcm_views(playback@);
        let ghost capture_before = pcm_views(capture@);
        let reply = replies.remove(0);
        proof {
            assert(results_view(reply) == given[k]) by {
                assert(reply_views(before)[0] == given.skip(k)[0]);
            }
            assert(given.take(k + 1).drop_last() =~= given.take(k));
            assert(given.take(k + 1).last() == given[k]);
            assert(reply_views(replies@) =~= given.skip(k + 1)) by {
                assert forall|i: int| 0 <= i < replies@.len() implies reply_views(replies@)[i]
                    == given.skip(k + 1)[i] by {
                    assert(replies@[i] == before[i + 1]);
                    assert(reply_views(before)[i + 1] == given.skip(k)[i + 1]);
                }
            }
        }
        match reply {
            Some((mut p, mut c)) => {
                let ghost found = (pcm_views(p@), pcm_views(c@));
                playback.append(&mut p);
                capture.append(&mut c);
                assert(pcm_views(playback@) =~= playback_before + found.0);
                assert(pcm_views(capture@) =~= capture_before + found.1);
            },
            None => {},
        }
        proof {
            k = k + 1;
        }
    }
    assert(given.take(k) =~= given);
    (playback, capture)
}

/// The dispatcher: the handles of the workers that were started, no two
/// of them for the same card.
pub struct ThreadManager<H> {
    workers: Vec<ThreadWorker<H>>,
}

impl<H> View for ThreadManager<H> {
    type V = Seq<WorkerView<H>>;

    closed spec fn view(&self) -> Seq<WorkerView<H>> {
        worker_views(self.workers@)
    }
}

impl<H> ThreadManager<H> {
    /// What holds of every dispatcher: it has at most one worker for each
    /// card.
    #[verifier::type_invariant]
    pub open spec fn inv(self) -> bool {
        distinct_cards(self@)
    }

    /// A dispatcher without workers.
    pub fn new() -> (manager: ThreadManager<H>)
        ensures
            manager@ == Seq::<WorkerView<H>>::empty(),
    {
        let workers: Vec<ThreadWorker<H>> = Vec::new();
        assert(worker_views(workers@) =~= Seq::<WorkerView<H>>::empty());
        ThreadManager { workers }
    }

    /// Routes the job to probe the endpoint `name` to the worker of the
    /// endpoint's card. If the card has no worker, or its worker does not
    /// take the job, one is started and given the job; a new worker that
    /// does not take the job either is dropped, and the job with it.
    pub fn add_job<S, Q, J>(
        &mut self,
        name: &str,
        direction: Direction,
        threads: &Threads<S, Q, J>,
    ) where
        S: Fn(&str) -> H,
        Q: Fn(&H, WorkerJob) -> bool,
        J: Fn(H) -> Option<(Vec<AlsaPcm>, Vec<AlsaPcm>)>,

        requires
            threads.ready(),
        ensures
            routed(threads, old(self)@, name@, direction, final(self)@),
            distinct_cards(old(self)@),
            distinct_cards(final(self)@),
    {
        proof {
            use_type_invariant(&*self);
        }
        let ghost before = self@;
        let card_name = card_key(name);
        let ghost key = card_name@;
        let ghost job = probe_job(name@, key, direction);
        let mut workers: Vec<ThreadWorker<H>> = Vec::new();
        assert(worker_views(workers@) =~= Seq::<WorkerView<H>>::empty());
        core::mem::swap(&mut self.workers, &mut workers);
        assert(worker_views(workers@) == before);
        // Look for the card's worker.
        let mut at: usize = 0;
        let mut found: bool = false;
        while at < workers.len() && !found
            invariant
                at <= workers.len(),
                worker_views(workers@) == before,
                key == card_name@,
                forall|i: int| 0 <= i < at ==> (#[trigger] before[i]).card_name != key,
                found ==> at < workers.len() && before[at as int].card_name == key,
            decreases workers.len() - at + (if found { 0int } else { 1int }),
        {
            assert(before[at as int] == workers@[at as int]@);
            if workers[at].card_name == card_name {
                found = true;
            } else {
                at = at + 1;
            }
        }
        if found {
            assert(before[at as int] == workers@[at as int]@);
            let sent = workers[at].add_job(name, card_name.as_str(), direction, threads);
            if sent {
                assert(taken(threads, before, key, job));
                self.workers = workers;
                return ;
            }
            proof {
                lemma_without_at(before, key, at as int);
                assert forall|i: int|
                    0 <= i < before.len() && (#[trigger] before[i]).card_name == key
                        && before[i].link is Some implies threads.delivers(
                    before[i].link->0,
                    job,
                    false,
                ) by {
                    if i < at {
                        assert(before[i].card_name != before[at as int].card_name);
                    } else if i > at {
                        assert(before[at as int].card_name != before[i].card_name);
                    }
                }
            }
            let _ = workers.remove(at);
            assert(worker_views(workers@) =~= before.remove(at as int));
        } else {
            proof {
                lemma_without_absent(before, key);
            }
        }
        assert(refused(threads, before, key, job));
        assert(worker_views(workers@) == without(before, key));
        proof {
            lemma_without_distinct(before, key);
        }
        let worker = ThreadWorker::new(card_name.clone(), threads);
        let ghost link = worker@.link->0;
        let sent = worker.add_job(name, card_name.as_str(), direction, threads);
        if sent {
            let ghost left = worker_views(workers@);
            workers.push(worker);
            proof {
                let all = left.push(WorkerView { card_name: key, link: Some(link) });
                assert(worker_views(workers@) =~= all);
                assert forall|i: int, j: int| 0 <= i < j < all.len() implies (#[trigger] all[i])
                    .card_name != (#[trigger] all[j]).card_name by {
                    if j < left.len() {
                        assert(all[i] == left[i] && all[j] == left[j]);
                    } else {
                        assert(all[i] == left[i]);
                    }
                }
            }
        }
        assert(threads.spawns(key, link));
        assert(restarted(threads, before, key, job, worker_views(workers@)));
        self.workers = workers;
    }

    /// Brings every worker home and merges what they hand over into one
    /// list of playback endpoints and one of capture endpoints, in the
    /// workers' order. A worker that was lost adds nothing.
    pub fn get_pcms<S, Q, J>(&mut self, threads: &Threads<S, Q, J>) -> (all: (
        Vec<AlsaPcm>,
        Vec<AlsaPcm>,
    )) where
        S: Fn(&str) -> H,
        Q: Fn(&H, WorkerJob) -> bool,
        J: Fn(H) -> Option<(Vec<AlsaPcm>, Vec<AlsaPcm>)>,

        requires
            threads.ready(),
        ensures
            collected(threads, old(self)@, final(self)@, pcm_views(all.0@), pcm_views(all.1@)),
    {
        proof {
            use_type_invariant(&*self);
        }
        let ghost before = self@;
        let mut workers: Vec<ThreadWorker<H>> = Vec::new();
        assert(worker_views(workers@) =~= Seq::<WorkerView<H>>::empty());
        core::mem::swap(&mut self.workers, &mut workers);
        let mut home: Vec<ThreadWorker<H>> = Vec::new();
        let mut replies: Vec<Option<(Vec<AlsaPcm>, Vec<AlsaPcm>)>> = Vec::new();
        while workers.len() > 0
            invariant
                threads.ready(),
                home@.len() + workers@.len() == before.len(),
                replies@.len() == home@.len(),
                forall|i: int|
                    0 <= i < workers@.len() ==> (#[trigger] workers@[i])@
                        == before[home@.len() as int + i],
                forall|i: int|
                    0 <= i < home@.len() ==> (#[trigger] home@[i])@ == unlinked(before[i]),
                forall|i: int|
                    0 <= i < home@.len() ==> brought_home(
                        threads,
                        before[i],
                        results_view(#[trigger] replies@[i]),
                    ),
            decreases workers.len(),
        {
            let ghost waiting = workers@;
            let mut worker = workers.remove(0);
            assert(worker@ == before[home@.len() as int]) by {
                assert(waiting[0]@ == before[home@.len() as int + 0]);
            }
            assert forall|i: int| 0 <= i < workers@.len() implies (#[trigger] workers@[i])@
                == before[home@.len() as int + 1 + i] by {
                assert(workers@[i] == waiting[i + 1]);
                assert(waiting[i + 1]@ == before[home@.len() as int + (i + 1)]);
            }
            let reply = worker.get_pcms(threads);
            home.push(worker);
            replies.push(reply);
        }
        proof {
            let after = worker_views(home@);
            let given = reply_views(replies@);
            assert forall|i: int| 0 <= i < before.len() implies #[trigger] after[i] == unlinked(
                before[i],
            ) by {
                assert(after[i] == home@[i]@);
            }
            assert forall|i: int| 0 <= i < before.len() implies brought_home(
                threads,
                before[i],
                #[trigger] given[i],
            ) by {
                assert(given[i] == results_view(replies@[i]));
            }
            assert forall|i: int, j: int| 0 <= i < j < after.len() implies (#[trigger] after[i])
                .card_name != (#[trigger] after[j]).card_name by {
                assert(before[i].card_name != before[j].card_name);
            }
        }
        self.workers = home;
        let all = merge(replies);
        assert(merged(reply_views(replies@)) == (pcm_views(all.0@), pcm_views(all.1@)));
        all
    }
}

/// How the handles may stand once a job for each candidate was routed, in
/// the candidates' order, starting without workers.
pub open spec fn dispatched<H, S, Q, J>(
    threads: &Threads<S, Q, J>,
    jobs: Seq<CandidateView>,
    state: Seq<WorkerView<H>>,
) -> bool where
    S: Fn(&str) -> H,
    Q: Fn(&H, WorkerJob) -> bool,
    J: Fn(H) -> Option<(Vec<AlsaPcm>, Vec<AlsaPcm>)>,

    decreases jobs.len(),
{
    if jobs.len() == 0 {
        state == Seq::<WorkerView<H>>::empty()
    } else {
        exists|before: Seq<WorkerView<H>>|
            dispatched(threads, jobs.drop_last(), before) && #[trigger] routed(
                threads,
                before,
                jobs.last().name,
                jobs.last().direction,
                state,
            )
    }
}

/// One discovery pass: a job for each candidate among what the discovery
/// source lists is routed to the worker of its card, then all workers are
/// brought home and their endpoints merged, playback first.
pub fn get_pcms<H, S, Q, J>(hints: Option<Vec<Hint>>, threads: &Threads<S, Q, J>) -> (all: (
    Vec<AlsaPcm>,
    Vec<AlsaPcm>,
)) where
    S: Fn(&str) -> H,
    Q: Fn(&H, WorkerJob) -> bool,
    J: Fn(H) -> Option<(Vec<AlsaPcm>, Vec<AlsaPcm>)>,

    requires
        threads.ready(),
    ensures
        exists|state: Seq<WorkerView<H>>, left: Seq<WorkerView<H>>|
            {
                &&& #[trigger] dispatched(threads, candidates_of(source_view(hints)), state)
                &&& #[trigger] collected(
                    threads,
                    state,
                    left,
                    pcm_views(all.0@),
                    pcm_views(all.1@),
                )
            },
{
    let found = candidates(hints);
    let ghost jobs = candidate_views(found@);
    let mut manager: ThreadManager<H> = ThreadManager::new();
    let mut i: usize = 0;
    assert(jobs.take(0) =~= Seq::<CandidateView>::empty());
    while i < found.len()
        invariant
            threads.ready(),
            jobs == candidate_views(found@),
            i <= found.len(),
            dispatched(threads, jobs.take(i as int), manager@),
        decreases found.len() - i,
    {
        let ghost before = manager@;
        manager.add_job(found[i].name.as_str(), found[i].direction, threads);
        proof {
            let next = jobs.take(i + 1);
            assert(next.drop_last() =~= jobs.take(i as int));
            assert(next.last() == found@[i as int]@);
            assert(next.len() > 0);
            assert(dispatched(threads, next.drop_last(), before));
            assert(routed(threads, before, next.last().name, next.last().direction, manager@));
            assert(dispatched(threads, next, manager@));
        }
        i = i + 1;
    }
    assert(jobs.take(found@.len() as int) =~= jobs);
    let ghost state = manager@;
    let all = manager.get_pcms(threads);
    assert(collected(threads, state, manager@, pcm_views(all.0@), pcm_views(all.1@)));
    all
}

} // verus!
