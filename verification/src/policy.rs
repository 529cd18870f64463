//! The probing policy: candidate lists, scan limits and the ceiling beyond
//! which an endpoint is taken to convert behind the scenes.

use vstd::prelude::*;
use crate::audio::{formats_ascending, SampleFormat};
use crate::ordered::ascending;
use crate::session::{BoundsQuery, Trial};

verus! {

/// The two parameters whose accepted values are found by scanning a range.
#[derive(Clone, Copy, Debug, PartialEq, Eq, Structural)]
pub enum Axis {
    Rate,
    Channels,
}

/// The trial that asks for nothing.
pub open spec fn blank_trial() -> Trial {
    Trial { format: None, rate: None, channels: None, timing: None, commit: false }
}

impl Axis {
    /// The trial that asks for what `template` asks for and, with it, for
    /// one value of this parameter.
    pub open spec fn trial_in(self, template: Trial, value: u32) -> Trial {
        match self {
            Axis::Rate => Trial {
                format: template.format,
                rate: Some(value),
                channels: template.channels,
                timing: template.timing,
                commit: template.commit,
            },
            Axis::Channels => Trial {
                format: template.format,
                rate: template.rate,
                channels: Some(value),
                timing: template.timing,
                commit: template.commit,
            },
        }
    }

    /// The trial that asks for one value of this parameter and nothing else.
    pub open spec fn trial(self, value: u32) -> Trial {
        self.trial_in(blank_trial(), value)
    }

    /// The query for the range of this parameter.
    pub open spec fn query(self) -> BoundsQuery {
        match self {
            Axis::Rate => BoundsQuery::Rate,
            Axis::Channels => BoundsQuery::Channels,
        }
    }

    /// The trial for one value within a template, built.
    pub fn probe_in(self, template: Trial, value: u32) -> (t: Trial)
        ensures
            t == self.trial_in(template, value),
    {
        match self {
            Axis::Rate => Trial {
                format: template.format,
                rate: Some(value),
                channels: template.channels,
                timing: template.timing,
                commit: template.commit,
            },
            Axis::Channels => Trial {
                format: template.format,
                rate: template.rate,
                channels: Some(value),
                timing: template.timing,
                commit: template.commit,
            },
        }
    }

    /// The trial for one value alone, built.
    pub fn probe(self, value: u32) -> (t: Trial)
        ensures
            t == self.trial(value),
    {
        self.probe_in(
            Trial { format: None, rate: None, channels: None, timing: None, commit: false },
            value,
        )
    }

    /// The query for the range, built.
    pub fn bounds_query(self) -> (q: BoundsQuery)
        ensures
            q == self.query(),
    {
        match self {
            Axis::Rate => BoundsQuery::Rate,
            Axis::Channels => BoundsQuery::Channels,
        }
    }
}

/// The trial that asks for one format and nothing else.
pub open spec fn format_trial(format: SampleFormat) -> Trial {
    Trial { format: Some(format), rate: None, channels: None, timing: None, commit: false }
}

/// Lowest rate the engine ever scans, in Hz.
pub const MIN_RATE: u32 = 3000;

/// Highest rate the engine ever scans, in Hz.
pub const MAX_RATE: u32 = 768000;

/// Lowest rate scanned when an endpoint does not tell its range, in Hz.
pub const DEFAULT_MIN_RATE: u32 = 8000;

/// Lowest channel count the engine ever scans.
pub const MIN_CHANNELS: u32 = 1;

/// Highest channel count the engine ever scans.
pub const MAX_CHANNELS: u32 = 255;

/// Number of accepted values at which a scan is given up.
pub const MAX_ENTRIES: usize = 100;

/// Highest channel count among the curated candidates.
pub const MAX_COMMON_CHANNELS: u32 = 12;

/// A policy as plain values.
pub struct PolicyView {
    pub formats: Seq<SampleFormat>,
    pub ceiling: nat,
    pub rate_limits: (u32, u32),
    pub rate_defaults: (u32, u32),
    pub fallback_rates: Seq<u32>,
    pub channel_limits: (u32, u32),
    pub channel_defaults: (u32, u32),
    pub fallback_channels: Seq<u32>,
}

/// The greater of two numbers.
pub open spec fn higher(a: u32, b: u32) -> u32 {
    if a >= b {
        a
    } else {
        b
    }
}

/// The lesser of two numbers.
pub open spec fn lower(a: u32, b: u32) -> u32 {
    if a <= b {
        a
    } else {
        b
    }
}

impl PolicyView {
    /// The candidate lists are strictly increasing, the ceiling is at
    /// least one, and the curated lists are no longer than the ceiling.
    pub open spec fn wf(self) -> bool {
        &&& self.ceiling >= 1
        &&& formats_ascending(self.formats)
        &&& ascending(self.fallback_rates)
        &&& ascending(self.fallback_channels)
        &&& self.fallback_rates.len() <= self.ceiling
        &&& self.fallback_channels.len() <= self.ceiling
    }

    /// The absolute bounds of a parameter.
    pub open spec fn limits(self, axis: Axis) -> (u32, u32) {
        match axis {
            Axis::Rate => self.rate_limits,
            Axis::Channels => self.channel_limits,
        }
    }

    /// The range assumed for a parameter when the endpoint does not tell.
    pub open spec fn defaults(self, axis: Axis) -> (u32, u32) {
        match axis {
            Axis::Rate => self.rate_defaults,
            Axis::Channels => self.channel_defaults,
        }
    }

    /// The curated candidates of a parameter.
    pub open spec fn fallback(self, axis: Axis) -> Seq<u32> {
        match axis {
            Axis::Rate => self.fallback_rates,
            Axis::Channels => self.fallback_channels,
        }
    }

    /// The range to scan: what the endpoint reported, or the default range
    /// if it reported nothing, cut to the absolute bounds. The range is
    /// empty where its first number exceeds its second.
    pub open spec fn range(self, axis: Axis, reply: Option<(u32, u32)>) -> (u32, u32) {
        let told = match reply {
            Some(r) => r,
            None => self.defaults(axis),
        };
        (higher(told.0, self.limits(axis).0), lower(told.1, self.limits(axis).1))
    }
}

/// The rates tried on an endpoint whose scan was given up.
pub open spec fn common_rates() -> Seq<u32> {
    seq![
        8000u32,
        11025u32,
        16000u32,
        22050u32,
        32000u32,
        44100u32,
        48000u32,
        64000u32,
        88200u32,
        96000u32,
        176400u32,
        192000u32,
        352800u32,
        384000u32,
        705600u32,
        768000u32,
    ]
}

/// The channel counts tried on an endpoint whose scan was given up: one
/// through twelve.
pub open spec fn common_channels() -> Seq<u32> {
    Seq::new(MAX_COMMON_CHANNELS as nat, |i: int| (i + 1) as u32)
}

/// The formats tried on every endpoint, in canonical order.
pub open spec fn all_formats() -> Seq<SampleFormat> {
    seq![
        SampleFormat::U8,
        SampleFormat::S16,
        SampleFormat::S24Packed,
        SampleFormat::S24,
        SampleFormat::S32,
    ]
}

/// The policy the engine uses unless told otherwise.
pub open spec fn standard_policy() -> PolicyView {
    PolicyView {
        formats: all_formats(),
        ceiling: MAX_ENTRIES as nat,
        rate_limits: (MIN_RATE, MAX_RATE),
        rate_defaults: (DEFAULT_MIN_RATE, MAX_RATE),
        fallback_rates: common_rates(),
        channel_limits: (MIN_CHANNELS, MAX_CHANNELS),
        channel_defaults: (MIN_CHANNELS, MAX_CHANNELS),
        fallback_channels: common_channels(),
    }
}

/// Whether a list of numbers is strictly increasing, computed.
pub fn is_ascending(values: &Vec<u32>) -> (r: bool)
    ensures
        r == ascending(values@),
{
    let mut i: usize = 1;
    while i < values.len()
        invariant
            1 <= i,
            forall|k: int|
                0 <= k < i - 1 && k + 1 < values.len() ==> #[trigger] values@[k] < values@[k + 1],
        decreases values.len() - i,
    {
        if values[i - 1] >= values[i] {
            return false;
        }
        i = i + 1;
    }
    proof {
        lemma_steps_ascending(values@);
    }
    true
}

/// A sequence each of whose members is less than the next is strictly
/// increasing.
pub proof fn lemma_steps_ascending(s: Seq<u32>)
    requires
        forall|k: int| 0 <= k && k + 1 < s.len() ==> #[trigger] s[k] < s[k + 1],
    ensures
        ascending(s),
{
    assert forall|i: int, j: int| 0 <= i < j < s.len() implies s[i] < s[j] by {
        lemma_steps_reach(s, i, j);
    }
}

proof fn lemma_steps_reach(s: Seq<u32>, i: int, j: int)
    requires
        forall|k: int| 0 <= k && k + 1 < s.len() ==> #[trigger] s[k] < s[k + 1],
        0 <= i < j < s.len(),
    ensures
        s[i] < s[j],
    decreases j - i,
{
    if i + 1 < j {
        lemma_steps_reach(s, i, j - 1);
    }
}

/// Whether a list of formats is in canonical order without repeats,
/// computed.
pub fn is_formats_ascending(formats: &Vec<SampleFormat>) -> (r: bool)
    ensures
        r == formats_ascending(formats@),
{
    let mut i: usize = 1;
    while i < formats.len()
        invariant
            1 <= i,
            forall|k: int|
                0 <= k < i - 1 && k + 1 < formats.len() ==> (#[trigger] formats@[k]).rank()
                    < formats@[k + 1].rank(),
        decreases formats.len() - i,
    {
        if formats[i - 1].index() >= formats[i].index() {
            return false;
        }
        i = i + 1;
    }
    proof {
        let ranks = Seq::new(formats@.len(), |k: int| formats@[k].rank() as u32);
        lemma_steps_ascending(ranks);
        assert forall|a: int, b: int| 0 <= a < b < formats@.len() implies formats@[a].rank()
            < formats@[b].rank() by {
            assert(ranks[a] < ranks[b]);
        }
    }
    true
}

/// The probing policy. Its candidate lists are strictly increasing, its
/// ceiling is at least one and its curated lists are no longer than that.
pub struct ProbePolicy {
    formats: Vec<SampleFormat>,
    ceiling: usize,
    rate_limits: (u32, u32),
    rate_defaults: (u32, u32),
    fallback_rates: Vec<u32>,
    channel_limits: (u32, u32),
    channel_defaults: (u32, u32),
    fallback_channels: Vec<u32>,
}

impl View for ProbePolicy {
    type V = PolicyView;

    closed spec fn view(&self) -> PolicyView {
        PolicyView {
            formats: self.formats@,
            ceiling: self.ceiling as nat,
            rate_limits: self.rate_limits,
            rate_defaults: self.rate_defaults,
            fallback_rates: self.fallback_rates@,
            channel_limits: self.channel_limits,
            channel_defaults: self.channel_defaults,
            fallback_channels: self.fallback_channels@,
        }
    }
}

impl ProbePolicy {
    /// What holds of every policy: it is well formed.
    #[verifier::type_invariant]
    pub open spec fn inv(self) -> bool {
        self@.wf()
    }

    /// A policy of the caller's choosing, if it is well formed.
    pub fn new(
        formats: Vec<SampleFormat>,
        ceiling: usize,
        rate_limits: (u32, u32),
        rate_defaults: (u32, u32),
        fallback_rates: Vec<u32>,
        channel_limits: (u32, u32),
        channel_defaults: (u32, u32),
        fallback_channels: Vec<u32>,
    ) -> (policy: Option<ProbePolicy>)
        ensures
            policy is Some <==> (PolicyView {
                formats: formats@,
                ceiling: ceiling as nat,
                rate_limits,
                rate_defaults,
                fallback_rates: fallback_rates@,
                channel_limits,
                channel_defaults,
                fallback_channels: fallback_channels@,
            }).wf(),
            policy matches Some(p) ==> p@ == (PolicyView {
                formats: formats@,
                ceiling: ceiling as nat,
                rate_limits,
                rate_defaults,
                fallback_rates: fallback_rates@,
                channel_limits,
                channel_defaults,
                fallback_channels: fallback_channels@,
            }),
    {
        if is_formats_ascending(&formats) && is_ascending(&fallback_rates) && is_ascending(
            &fallback_channels,
        ) && ceiling >= 1 && fallback_rates.len() <= ceiling && fallback_channels.len()
            <= ceiling {
            Some(
                ProbePolicy {
                    formats,
                    ceiling,
                    rate_limits,
                    rate_defaults,
                    fallback_rates,
                    channel_limits,
                    channel_defaults,
                    fallback_channels,
                },
            )
        } else {
            None
        }
    }

    /// The standard policy.
    pub fn standard() -> (policy: ProbePolicy)
        ensures
            policy@ == standard_policy(),
    {
        let mut formats: Vec<SampleFormat> = Vec::new();
        formats.push(SampleFormat::U8);
        formats.push(SampleFormat::S16);
        formats.push(SampleFormat::S24Packed);
        formats.push(SampleFormat::S24);
        formats.push(SampleFormat::S32);
        let mut rates: Vec<u32> = Vec::new();
        rates.push(8000);
        rates.push(11025);
        rates.push(16000);
        rates.push(22050);
        rates.push(32000);
        rates.push(44100);
        rates.push(48000);
        rates.push(64000);
        rates.push(88200);
        rates.push(96000);
        rates.push(176400);
        rates.push(192000);
        rates.push(352800);
        rates.push(384000);
        rates.push(705600);
        rates.push(768000);
        let mut channels: Vec<u32> = Vec::new();
        let mut c: u32 = 1;
        while c <= MAX_COMMON_CHANNELS
            invariant
                1 <= c <= MAX_COMMON_CHANNELS + 1,
                channels@.len() == c - 1,
                forall|i: int| 0 <= i < channels@.len() ==> channels@[i] == i + 1,
            decreases MAX_COMMON_CHANNELS + 1 - c,
        {
            channels.push(c);
            c = c + 1;
        }
        assert(formats@ =~= all_formats());
        assert(rates@ =~= common_rates());
        assert(channels@ =~= common_channels());
        ProbePolicy {
            formats,
            ceiling: MAX_ENTRIES,
            rate_limits: (MIN_RATE, MAX_RATE),
            rate_defaults: (DEFAULT_MIN_RATE, MAX_RATE),
            fallback_rates: rates,
            channel_limits: (MIN_CHANNELS, MAX_CHANNELS),
            channel_defaults: (MIN_CHANNELS, MAX_CHANNELS),
            fallback_channels: channels,
        }
    }

    /// The formats tried on every endpoint.
    pub fn formats(&self) -> (r: &Vec<SampleFormat>)
        ensures
            r@ == self@.formats,
    {
        &self.formats
    }

    /// The number of accepted values at which a scan is given up.
    pub fn ceiling(&self) -> (r: usize)
        ensures
            r == self@.ceiling,
    {
        self.ceiling
    }

    /// The curated candidates of a parameter.
    pub fn fallback(&self, axis: Axis) -> (r: &Vec<u32>)
        ensures
            r@ == self@.fallback(axis),
    {
        match axis {
            Axis::Rate => &self.fallback_rates,
            Axis::Channels => &self.fallback_channels,
        }
    }

    /// The range to scan for a parameter, given what the endpoint reported
    /// of it.
    pub fn range(&self, axis: Axis, reply: Option<(u32, u32)>) -> (r: (u32, u32))
        ensures
            r == self@.range(axis, reply),
    {
        let (limits, defaults) = match axis {
            Axis::Rate => (self.rate_limits, self.rate_defaults),
            Axis::Channels => (self.channel_limits, self.channel_defaults),
        };
        let told = match reply {
            Some(r) => r,
            None => defaults,
        };
        let low = if told.0 >= limits.0 {
            told.0
        } else {
            limits.0
        };
        let high = if told.1 <= limits.1 {
            told.1
        } else {
            limits.1
        };
        (low, high)
    }
}

} // verus!
