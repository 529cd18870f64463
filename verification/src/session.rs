//! One negotiation session: the ordered steps of a trial, and what the
//! replies to them amount to.
//!
//! A session and its parameter object are good for one trial only. Once a
//! step is refused, or the value read back differs from the one asked for,
//! nothing more may be asked of that session. The functions here therefore
//! stop at the first such reply, and every trial is meant to get a session
//! that was opened for it alone.

use vstd::prelude::*;
use crate::audio::SampleFormat;

verus! {

/// A parameter whose negotiable range a session can be asked for.
#[derive(Clone, Copy, Debug, PartialEq, Eq, Structural)]
pub enum Parameter {
    Rate,
    Channels,
    BufferTime,
}

/// One request to a session.
#[derive(Clone, Copy, Debug, PartialEq, Eq, Structural)]
pub enum Step {
    /// Switch off rate conversion and read the switch back.
    DisableResampling,
    /// Fix the sample format and read it back.
    SetFormat(SampleFormat),
    /// Fix the rate in Hz and read it back.
    SetRate(u32),
    /// Fix the channel count and read it back.
    SetChannels(u32),
    /// Ask for the nearest buffer time in microseconds; the reply is the one chosen.
    SetBufferTime(u32),
    /// Ask for the nearest period time in microseconds; the reply is the one chosen.
    SetPeriodTime(u32),
    /// Apply the parameters to the device.
    Commit,
    /// Read the lower bound of a parameter.
    Minimum(Parameter),
    /// Read the upper bound of a parameter.
    Maximum(Parameter),
}

/// What a session answers to one step.
#[derive(Clone, Copy, Debug, PartialEq, Eq, Structural)]
pub enum Reply {
    /// The request was refused, or reading back failed.
    Failed,
    /// The request was carried out; there is nothing to read back.
    Done,
    /// The state of a switch, read back.
    Flag(bool),
    /// A sample format, read back.
    Format(SampleFormat),
    /// A number, read back.
    Number(u32),
}

/// Buffer and period time of a trial, in microseconds.
#[derive(Clone, Copy, Debug, PartialEq, Eq, Structural)]
pub struct Timing {
    pub buffer_time_us: u32,
    pub period_time_us: u32,
}

/// The parameters one trial asks a fresh session to accept together.
#[derive(Clone, Copy, Debug, PartialEq, Eq, Structural)]
pub struct Trial {
    pub format: Option<SampleFormat>,
    pub rate: Option<u32>,
    pub channels: Option<u32>,
    pub timing: Option<Timing>,
    /// Whether the parameters are applied to the device at the end.
    pub commit: bool,
}

/// A question about the range of one parameter.
#[derive(Clone, Copy, Debug, PartialEq, Eq, Structural)]
pub enum BoundsQuery {
    /// The rates of an otherwise unconstrained session.
    Rate,
    /// The channel counts of an otherwise unconstrained session.
    Channels,
    /// The buffer times left once format, rate and channels are fixed.
    BufferTime { format: SampleFormat, rate: u32, channels: u32 },
}

/// Whether a reply grants the step it answers: the request went through and
/// what was read back is what was asked for.
pub open spec fn agrees(step: Step, reply: Reply) -> bool {
    match step {
        Step::DisableResampling => reply == Reply::Flag(false),
        Step::SetFormat(format) => reply == Reply::Format(format),
        Step::SetRate(rate) => reply == Reply::Number(rate),
        Step::SetChannels(channels) => reply == Reply::Number(channels),
        Step::SetBufferTime(time) => reply == Reply::Number(time),
        Step::SetPeriodTime(time) => reply == Reply::Number(time),
        Step::Commit => reply == Reply::Done,
        Step::Minimum(_) => reply is Number,
        Step::Maximum(_) => reply is Number,
    }
}

/// The steps that fix the given optional parameters, in negotiation order.
pub open spec fn settings(
    format: Option<SampleFormat>,
    rate: Option<u32>,
    channels: Option<u32>,
) -> Seq<Step> {
    seq![Step::DisableResampling] + (match format {
        Some(f) => seq![Step::SetFormat(f)],
        None => Seq::<Step>::empty(),
    }) + (match rate {
        Some(r) => seq![Step::SetRate(r)],
        None => Seq::<Step>::empty(),
    }) + (match channels {
        Some(c) => seq![Step::SetChannels(c)],
        None => Seq::<Step>::empty(),
    })
}

impl Trial {
    /// The steps of the trial: resampling off, then format, rate, channels,
    /// buffer time and period time as far as the trial names them, then the
    /// commit if it asks for one.
    pub open spec fn steps(self) -> Seq<Step> {
        settings(self.format, self.rate, self.channels) + (match self.timing {
            Some(t) => seq![
                Step::SetBufferTime(t.buffer_time_us),
                Step::SetPeriodTime(t.period_time_us),
            ],
            None => Seq::<Step>::empty(),
        }) + (if self.commit {
            seq![Step::Commit]
        } else {
            Seq::<Step>::empty()
        })
    }

    /// The steps of the trial as a list to work through.
    pub fn plan(&self) -> (plan: Vec<Step>)
        ensures
            plan@ == self.steps(),
    {
        let mut plan: Vec<Step> = Vec::new();
        plan.push(Step::DisableResampling);
        if let Some(f) = self.format {
            plan.push(Step::SetFormat(f));
        }
        if let Some(r) = self.rate {
            plan.push(Step::SetRate(r));
        }
        if let Some(c) = self.channels {
            plan.push(Step::SetChannels(c));
        }
        if let Some(t) = self.timing {
            plan.push(Step::SetBufferTime(t.buffer_time_us));
            plan.push(Step::SetPeriodTime(t.period_time_us));
        }
        if self.commit {
            plan.push(Step::Commit);
        }
        assert(plan@ =~= self.steps());
        plan
    }
}

impl BoundsQuery {
    /// The parameter whose range is asked for.
    pub open spec fn parameter(self) -> Parameter {
        match self {
            BoundsQuery::Rate => Parameter::Rate,
            BoundsQuery::Channels => Parameter::Channels,
            BoundsQuery::BufferTime { .. } => Parameter::BufferTime,
        }
    }

    /// The steps of the query: resampling off, the parameters that the
    /// query fixes, then the lower and the upper bound.
    pub open spec fn steps(self) -> Seq<Step> {
        (match self {
            BoundsQuery::BufferTime { format, rate, channels } => settings(
                Some(format),
                Some(rate),
                Some(channels),
            ),
            _ => settings(None, None, None),
        }) + seq![Step::Minimum(self.parameter()), Step::Maximum(self.parameter())]
    }

    /// The steps of the query as a list to work through.
    pub fn plan(&self) -> (plan: Vec<Step>)
        ensures
            plan@ == self.steps(),
    {
        let mut plan: Vec<Step> = Vec::new();
        plan.push(Step::DisableResampling);
        match *self {
            BoundsQuery::Rate => {
                plan.push(Step::Minimum(Parameter::Rate));
                plan.push(Step::Maximum(Parameter::Rate));
            },
            BoundsQuery::Channels => {
                plan.push(Step::Minimum(Parameter::Channels));
                plan.push(Step::Maximum(Parameter::Channels));
            },
            BoundsQuery::BufferTime { format, rate, channels } => {
                plan.push(Step::SetFormat(format));
                plan.push(Step::SetRate(rate));
                plan.push(Step::SetChannels(channels));
                plan.push(Step::Minimum(Parameter::BufferTime));
                plan.push(Step::Maximum(Parameter::BufferTime));
            },
        }
        assert(plan@ =~= self.steps());
        plan
    }
}

/// Whether a reply grants a step, computed.
pub fn reply_agrees(step: Step, reply: Reply) -> (r: bool)
    ensures
        r == agrees(step, reply),
{
    match step {
        Step::DisableResampling => match reply {
            Reply::Flag(on) => !on,
            _ => false,
        },
        Step::SetFormat(format) => match reply {
            Reply::Format(actual) => actual == format,
            _ => false,
        },
        Step::SetRate(value) | Step::SetChannels(value) | Step::SetBufferTime(value)
        | Step::SetPeriodTime(value) => match reply {
            Reply::Number(actual) => actual == value,
            _ => false,
        },
        Step::Commit => match reply {
            Reply::Done => true,
            _ => false,
        },
        Step::Minimum(_) | Step::Maximum(_) => match reply {
            Reply::Number(_) => true,
            _ => false,
        },
    }
}

/// `answers` is what working through `plan` on `session` may leave behind:
/// one reply of the session per step asked, every reply but the last
/// granting its step, and the plan cut short only behind a reply that does
/// not.
pub open spec fn transcript_of<S: Fn(Step) -> Reply>(
    session: &S,
    plan: Seq<Step>,
    answers: Seq<Reply>,
) -> bool {
    &&& answers.len() <= plan.len()
    &&& forall|i: int|
        0 <= i < answers.len() ==> call_ensures(*session, (plan[i],), #[trigger] answers[i])
    &&& forall|i: int| 0 <= i < answers.len() - 1 ==> agrees(plan[i], #[trigger] answers[i])
    &&& answers.len() < plan.len() ==> answers.len() > 0 && !agrees(
        plan[answers.len() - 1],
        answers.last(),
    )
}

/// Every step of the plan was asked and granted.
pub open spec fn settled(plan: Seq<Step>, answers: Seq<Reply>) -> bool {
    &&& answers.len() == plan.len()
    &&& forall|i: int| 0 <= i < plan.len() ==> agrees(plan[i], #[trigger] answers[i])
}

/// Works through a plan on one session, step by step, and stops behind the
/// first reply that does not grant its step: the session is spoilt then.
pub fn negotiate<S: Fn(Step) -> Reply>(plan: &Vec<Step>, session: &S) -> (answers: Vec<Reply>)
    requires
        forall|step: Step| call_requires(*session, (step,)),
    ensures
        transcript_of(session, plan@, answers@),
{
    let mut answers: Vec<Reply> = Vec::new();
    let mut i: usize = 0;
    let mut spoilt: bool = false;
    while i < plan.len() && !spoilt
        invariant
            forall|step: Step| call_requires(*session, (step,)),
            i <= plan.len(),
            answers.len() == i,
            forall|k: int|
                0 <= k < answers.len() ==> call_ensures(
                    *session,
                    (plan@[k],),
                    #[trigger] answers@[k],
                ),
            !spoilt ==> forall|k: int|
                0 <= k < answers.len() ==> agrees(plan@[k], #[trigger] answers@[k]),
            spoilt ==> i > 0 && !agrees(plan@[i - 1], answers@[i - 1]) && forall|k: int|
                0 <= k < i - 1 ==> agrees(plan@[k], #[trigger] answers@[k]),
        decreases plan.len() - i + (if spoilt { 0int } else { 1int }),
    {
        let step = plan[i];
        let reply = session(step);
        spoilt = !reply_agrees(step, reply);
        answers.push(reply);
        i = i + 1;
    }
    answers
}

/// The verdict on a finished trial: accepted if and only if every step was
/// granted.
pub fn verdict(plan: &Vec<Step>, answers: &Vec<Reply>) -> (accepted: bool)
    ensures
        accepted == settled(plan@, answers@),
{
    if answers.len() != plan.len() {
        return false;
    }
    let mut i: usize = 0;
    while i < plan.len()
        invariant
            answers.len() == plan.len(),
            i <= plan.len(),
            forall|k: int| 0 <= k < i ==> agrees(plan@[k], #[trigger] answers@[k]),
        decreases plan.len() - i,
    {
        if !reply_agrees(plan[i], answers[i]) {
            return false;
        }
        i = i + 1;
    }
    true
}

/// The bounds a finished query has read: the numbers in the last two
/// replies if every step was granted, nothing otherwise.
pub open spec fn bounds_read(plan: Seq<Step>, answers: Seq<Reply>) -> Option<(u32, u32)> {
    if settled(plan, answers) && plan.len() >= 2 {
        match (answers[plan.len() - 2], answers[plan.len() - 1]) {
            (Reply::Number(low), Reply::Number(high)) => Some((low, high)),
            _ => None,
        }
    } else {
        None
    }
}

/// Reads the bounds out of the replies to a query's plan.
pub fn bounds_of(plan: &Vec<Step>, answers: &Vec<Reply>) -> (bounds: Option<(u32, u32)>)
    ensures
        bounds == bounds_read(plan@, answers@),
{
    if plan.len() < 2 || !verdict(plan, answers) {
        return None;
    }
    let low = answers[plan.len() - 2];
    let high = answers[plan.len() - 1];
    match (low, high) {
        (Reply::Number(low), Reply::Number(high)) => Some((low, high)),
        _ => None,
    }
}

/// Runs one trial. Without a session (it could not be opened) the trial is
/// rejected. With one, the trial's steps are negotiated on it and the
/// trial is accepted if and only if the session granted them all.
pub fn run_trial<S: Fn(Step) -> Reply>(trial: Trial, session: Option<&S>) -> (accepted: bool)
    requires
        session matches Some(s) ==> forall|step: Step| call_requires(*s, (step,)),
    ensures
        session is None ==> !accepted,
        session matches Some(s) ==> exists|answers: Seq<Reply>|
            transcript_of(s, trial.steps(), answers) && accepted == settled(
                trial.steps(),
                answers,
            ),
{
    match session {
        None => false,
        Some(s) => {
            let plan = trial.plan();
            let answers = negotiate(&plan, s);
            verdict(&plan, &answers)
        },
    }
}

/// Asks one session for the range of a parameter. Without a session, or if
/// any step of the query is not granted, there is no answer.
pub fn query_bounds<S: Fn(Step) -> Reply>(query: BoundsQuery, session: Option<&S>) -> (bounds:
    Option<(u32, u32)>)
    requires
        session matches Some(s) ==> forall|step: Step| call_requires(*s, (step,)),
    ensures
        session is None ==> bounds is None,
        session matches Some(s) ==> exists|answers: Seq<Reply>|
            transcript_of(s, query.steps(), answers) && bounds == bounds_read(
                query.steps(),
                answers,
            ),
{
    match session {
        None => None,
        Some(s) => {
            let plan = query.plan();
            let answers = negotiate(&plan, s);
            bounds_of(&plan, &answers)
        },
    }
}

} // verus!
