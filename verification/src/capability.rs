//! Finding out which formats, rates and channel counts an endpoint
//! accepts, one trial per value.
//!
//! What an endpoint reports as its range is only a hint: each value in it is
//! put to the endpoint by itself. An endpoint that converts behind the
//! scenes accepts every value; a scan that collects as many values as the
//! policy's ceiling is therefore given up, the endpoint is marked as not
//! being real hardware, and only the policy's curated candidates are tried.

use vstd::prelude::*;
use crate::audio::{
    format_key, formats_ascending, lemma_formats_ascending_is_by_rank, lemma_formats_unique,
    Direction, SampleFormat,
};
use crate::backend::{Backend, PcmInfo};
use crate::ordered::{
    ascending, lemma_ascending_is_by_number, lemma_ascending_unique,
    lemma_ascending_within_len, lemma_ascending_within_same_len, lemma_filter_ascending,
    number_key, within,
};
use crate::policy::{blank_trial, format_trial, Axis, PolicyView, ProbePolicy};
use crate::search::Combination;
use crate::session::{BoundsQuery, Trial};

verus! {

broadcast use vstd::seq_lib::lemma_seq_contains_after_push;

/// What a scan of a range of values found.
pub struct Scan {
    /// The accepted values, in increasing order.
    pub values: Vec<u32>,
    /// Whether the scan was given up because it reached the ceiling.
    pub overflow: bool,
}

/// What a scan of `low..=high` may find under a ceiling: the accepted values
/// in increasing order, the scan given up exactly when their number reaches
/// the ceiling, and every value that was passed over rejected: all of the
/// range for a scan that ran to its end, the part up to the last value
/// found for one that was given up.
pub open spec fn scanned<D, B, T>(
    backend: &Backend<D, B, T>,
    name: Seq<char>,
    direction: Direction,
    axis: Axis,
    low: u32,
    high: u32,
    ceiling: nat,
    values: Seq<u32>,
    overflow: bool,
) -> bool where
    D: Fn(&str, Direction) -> Option<PcmInfo>,
    B: Fn(&str, Direction, BoundsQuery) -> Option<(u32, u32)>,
    T: Fn(&str, Direction, Trial) -> bool,
 {
    &&& ascending(values)
    &&& values.len() <= ceiling
    &&& overflow <==> values.len() == ceiling
    &&& forall|v: u32| #[trigger]
        values.contains(v) ==> low <= v <= high && backend.accepts(name, direction, axis.trial(v))
    &&& forall|v: u32|
        low <= v <= high && (overflow ==> values.len() > 0 && v <= values.last())
            && !#[trigger] values.contains(v) ==> backend.rejects(name, direction, axis.trial(v))
}

/// What trying each of some candidates may leave, each put to the backend
/// together with what `template` asks for: the accepted ones in increasing
/// order, every other candidate rejected.
pub open spec fn picked<D, B, T>(
    backend: &Backend<D, B, T>,
    name: Seq<char>,
    direction: Direction,
    axis: Axis,
    template: Trial,
    candidates: Seq<u32>,
    values: Seq<u32>,
) -> bool where
    D: Fn(&str, Direction) -> Option<PcmInfo>,
    B: Fn(&str, Direction, BoundsQuery) -> Option<(u32, u32)>,
    T: Fn(&str, Direction, Trial) -> bool,
 {
    &&& ascending(values)
    &&& forall|v: u32| #[trigger]
        values.contains(v) ==> candidates.contains(v) && backend.accepts(
            name,
            direction,
            axis.trial_in(template, v),
        )
    &&& forall|v: u32|
        candidates.contains(v) && !#[trigger] values.contains(v) ==> backend.rejects(
            name,
            direction,
            axis.trial_in(template, v),
        )
}

/// What trying each candidate format may leave: the accepted ones in
/// canonical order, every other candidate rejected.
pub open spec fn formats_picked<D, B, T>(
    backend: &Backend<D, B, T>,
    name: Seq<char>,
    direction: Direction,
    candidates: Seq<SampleFormat>,
    formats: Seq<SampleFormat>,
) -> bool where
    D: Fn(&str, Direction) -> Option<PcmInfo>,
    B: Fn(&str, Direction, BoundsQuery) -> Option<(u32, u32)>,
    T: Fn(&str, Direction, Trial) -> bool,
 {
    &&& formats_ascending(formats)
    &&& forall|f: SampleFormat| #[trigger]
        formats.contains(f) ==> candidates.contains(f) && backend.accepts(
            name,
            direction,
            format_trial(f),
        )
    &&& forall|f: SampleFormat|
        candidates.contains(f) && !#[trigger] formats.contains(f) ==> backend.rejects(
            name,
            direction,
            format_trial(f),
        )
}

/// What probing one parameter may find. The endpoint reports a range or
/// nothing; the range that the policy makes of that is scanned; if the scan
/// runs to its end its values stand and the endpoint counts as real
/// hardware, and if it is given up the values are those accepted among the
/// policy's curated candidates and the endpoint does not.
pub open spec fn axis_probed<D, B, T>(
    policy: PolicyView,
    backend: &Backend<D, B, T>,
    name: Seq<char>,
    direction: Direction,
    axis: Axis,
    values: Seq<u32>,
    real_hardware: bool,
) -> bool where
    D: Fn(&str, Direction) -> Option<PcmInfo>,
    B: Fn(&str, Direction, BoundsQuery) -> Option<(u32, u32)>,
    T: Fn(&str, Direction, Trial) -> bool,
 {
    exists|reply: Option<(u32, u32)>, found: Seq<u32>, overflow: bool|
        {
            &&& #[trigger] backend.reports(name, direction, axis.query(), reply)
            &&& #[trigger] scanned(
                backend,
                name,
                direction,
                axis,
                policy.range(axis, reply).0,
                policy.range(axis, reply).1,
                policy.ceiling,
                found,
                overflow,
            )
            &&& real_hardware == !overflow
            &&& if real_hardware {
                values == found
            } else {
                picked(
                    backend,
                    name,
                    direction,
                    axis,
                    blank_trial(),
                    policy.fallback(axis),
                    values,
                )
            }
        }
}

/// Tries every value of `low..=high` in increasing order, each against the
/// backend by itself, and gives up as soon as `ceiling` values were
/// accepted.
pub fn linear_scan<D, B, T>(
    backend: &Backend<D, B, T>,
    name: &str,
    direction: Direction,
    axis: Axis,
    low: u32,
    high: u32,
    ceiling: usize,
) -> (scan: Scan) where
    D: Fn(&str, Direction) -> Option<PcmInfo>,
    B: Fn(&str, Direction, BoundsQuery) -> Option<(u32, u32)>,
    T: Fn(&str, Direction, Trial) -> bool,

    requires
        backend.ready(),
    ensures
        scanned(
            backend,
            name@,
            direction,
            axis,
            low,
            high,
            ceiling as nat,
            scan.values@,
            scan.overflow,
        ),
{
    let mut values: Vec<u32> = Vec::new();
    let mut overflow: bool = ceiling == 0;
    let mut next: u64 = low as u64;
    while next <= high as u64 && !overflow
        invariant
            backend.ready(),
            low <= next,
            next <= high + 1 || values@.len() == 0,
            ascending(values@),
            values@.len() <= ceiling,
            overflow <==> values@.len() == ceiling,
            forall|v: u32| #[trigger]
                values@.contains(v) ==> low <= v < next && v <= high && backend.accepts(
                    name@,
                    direction,
                    axis.trial(v),
                ),
            forall|v: u32|
                low <= v < next && v <= high && !#[trigger] values@.contains(v) ==> backend.rejects(
                    name@,
                    direction,
                    axis.trial(v),
                ),
            overflow && values@.len() > 0 ==> values@.last() == next - 1,
        decreases high + 1 - next + (if overflow { 0int } else { 1int }),
    {
        let value = next as u32;
        let accepted = (backend.trial)(name, direction, axis.probe(value));
        if accepted {
            proof {
                assert forall|i: int| 0 <= i < values@.len() implies values@[i] < value by {
                    assert(values@.contains(values@[i]));
                }
            }
            values.push(value);
            overflow = values.len() == ceiling;
        }
        next = next + 1;
    }
    Scan { values, overflow }
}

/// Tries each candidate against the backend, together with what
/// `template` asks for, and keeps the accepted ones.
pub(crate) fn pick_values<D, B, T>(
    backend: &Backend<D, B, T>,
    name: &str,
    direction: Direction,
    axis: Axis,
    template: Trial,
    candidates: &Vec<u32>,
) -> (values: Vec<u32>) where
    D: Fn(&str, Direction) -> Option<PcmInfo>,
    B: Fn(&str, Direction, BoundsQuery) -> Option<(u32, u32)>,
    T: Fn(&str, Direction, Trial) -> bool,

    requires
        backend.ready(),
        ascending(candidates@),
    ensures
        picked(backend, name@, direction, axis, template, candidates@, values@),
        values@.len() <= candidates@.len(),
{
    let mut values: Vec<u32> = Vec::new();
    let mut i: usize = 0;
    while i < candidates.len()
        invariant
            backend.ready(),
            ascending(candidates@),
            i <= candidates.len(),
            values@.len() <= i,
            ascending(values@),
            forall|v: u32| #[trigger]
                values@.contains(v) ==> candidates@.contains(v) && backend.accepts(
                    name@,
                    direction,
                    axis.trial_in(template, v),
                ),
            forall|k: int|
                0 <= k < values@.len() && i < candidates.len() ==> #[trigger] values@[k]
                    < candidates@[i as int],
            forall|m: int|
                0 <= m < i && !values@.contains(#[trigger] candidates@[m]) ==> backend.rejects(
                    name@,
                    direction,
                    axis.trial_in(template, candidates@[m]),
                ),
        decreases candidates.len() - i,
    {
        let value = candidates[i];
        let accepted = (backend.trial)(name, direction, axis.probe_in(template, value));
        if accepted {
            values.push(value);
            assert(candidates@.contains(value));
        }
        i = i + 1;
    }
    proof {
        assert forall|v: u32|
            candidates@.contains(v) && !#[trigger] values@.contains(v) implies backend.rejects(
            name@,
            direction,
            axis.trial_in(template, v),
        ) by {
            let m = choose|m: int| 0 <= m < candidates@.len() && candidates@[m] == v;
            assert(!values@.contains(candidates@[m]));
        }
    }
    values
}

/// Tries each candidate format against the backend by itself and keeps
/// the accepted ones.
pub(crate) fn pick_formats<D, B, T>(
    backend: &Backend<D, B, T>,
    name: &str,
    direction: Direction,
    candidates: &Vec<SampleFormat>,
) -> (formats: Vec<SampleFormat>) where
    D: Fn(&str, Direction) -> Option<PcmInfo>,
    B: Fn(&str, Direction, BoundsQuery) -> Option<(u32, u32)>,
    T: Fn(&str, Direction, Trial) -> bool,

    requires
        backend.ready(),
        formats_ascending(candidates@),
    ensures
        formats_picked(backend, name@, direction, candidates@, formats@),
{
    let mut formats: Vec<SampleFormat> = Vec::new();
    let mut i: usize = 0;
    while i < candidates.len()
        invariant
            backend.ready(),
            formats_ascending(candidates@),
            i <= candidates.len(),
            formats_ascending(formats@),
            forall|f: SampleFormat| #[trigger]
                formats@.contains(f) ==> candidates@.contains(f) && backend.accepts(
                    name@,
                    direction,
                    format_trial(f),
                ),
            forall|k: int|
                0 <= k < formats@.len() && i < candidates.len() ==> (#[trigger] formats@[k]).rank()
                    < candidates@[i as int].rank(),
            forall|m: int|
                0 <= m < i && !formats@.contains(#[trigger] candidates@[m]) ==> backend.rejects(
                    name@,
                    direction,
                    format_trial(candidates@[m]),
                ),
        decreases candidates.len() - i,
    {
        let format = candidates[i];
        let trial = Trial {
            format: Some(format),
            rate: None,
            channels: None,
            timing: None,
            commit: false,
        };
        let accepted = (backend.trial)(name, direction, trial);
        if accepted {
            formats.push(format);
            assert(candidates@.contains(format));
        }
        i = i + 1;
    }
    proof {
        assert forall|f: SampleFormat|
            candidates@.contains(f) && !#[trigger] formats@.contains(f) implies backend.rejects(
            name@,
            direction,
            format_trial(f),
        ) by {
            let m = choose|m: int| 0 <= m < candidates@.len() && candidates@[m] == f;
            assert(!formats@.contains(candidates@[m]));
        }
    }
    formats
}

/// The accepted values of one parameter, and whether the endpoint still
/// counts as real hardware.
pub struct AxisReport {
    pub values: Vec<u32>,
    pub real_hardware: bool,
}

/// Probes one parameter of an endpoint: asks for its range, scans what the
/// policy makes of it, and falls back to the curated candidates if the scan
/// reaches the ceiling.
///
/// The values found are never more than the ceiling; fewer, if the endpoint
/// still counts as real hardware; and curated candidates, if it does not.
pub fn probe_axis<D, B, T>(
    policy: &ProbePolicy,
    backend: &Backend<D, B, T>,
    name: &str,
    direction: Direction,
    axis: Axis,
) -> (report: AxisReport) where
    D: Fn(&str, Direction) -> Option<PcmInfo>,
    B: Fn(&str, Direction, BoundsQuery) -> Option<(u32, u32)>,
    T: Fn(&str, Direction, Trial) -> bool,

    requires
        backend.ready(),
    ensures
        axis_probed(policy@, backend, name@, direction, axis, report.values@, report.real_hardware),
        ascending(report.values@),
        report.values@.len() <= policy@.ceiling,
        report.real_hardware ==> report.values@.len() < policy@.ceiling,
        !report.real_hardware ==> within(report.values@, policy@.fallback(axis)),
{
    proof {
        use_type_invariant(policy);
    }
    let reply = (backend.bounds)(name, direction, axis.bounds_query());
    let range = policy.range(axis, reply);
    let scan = linear_scan(backend, name, direction, axis, range.0, range.1, policy.ceiling());
    assert(backend.reports(name@, direction, axis.query(), reply));
    assert(scanned(
        backend,
        name@,
        direction,
        axis,
        policy@.range(axis, reply).0,
        policy@.range(axis, reply).1,
        policy@.ceiling,
        scan.values@,
        scan.overflow,
    ));
    if scan.overflow {
        let values = pick_values(
            backend,
            name,
            direction,
            axis,
            Trial { format: None, rate: None, channels: None, timing: None, commit: false },
            policy.fallback(axis),
        );
        AxisReport { values, real_hardware: false }
    } else {
        AxisReport { values: scan.values, real_hardware: true }
    }
}

/// The law of the ceiling: whatever probing a parameter finds, it is never
/// more than the ceiling; an endpoint that still counts as real hardware
/// has fewer values than that; and one that does not has none but curated
/// candidates.
pub proof fn lemma_ceiling<D, B, T>(
    policy: PolicyView,
    backend: &Backend<D, B, T>,
    name: Seq<char>,
    direction: Direction,
    axis: Axis,
    values: Seq<u32>,
    real_hardware: bool,
) where
    D: Fn(&str, Direction) -> Option<PcmInfo>,
    B: Fn(&str, Direction, BoundsQuery) -> Option<(u32, u32)>,
    T: Fn(&str, Direction, Trial) -> bool,

    requires
        policy.wf(),
        axis_probed(policy, backend, name, direction, axis, values, real_hardware),
    ensures
        values.len() <= policy.ceiling,
        real_hardware ==> values.len() < policy.ceiling,
        !real_hardware ==> within(values, policy.fallback(axis)),
{
    if !real_hardware {
        crate::ordered::lemma_ascending_is_by_number(values);
        crate::ordered::lemma_ascending_is_by_number(policy.fallback(axis));
        crate::ordered::lemma_ascending_within_len(
            values,
            policy.fallback(axis),
            crate::ordered::number_key(),
        );
    }
}

/// Against a backend with one answer to each question, trying some
/// candidates can leave only one list.
pub proof fn lemma_picked_unique<D, B, T>(
    backend: &Backend<D, B, T>,
    name: Seq<char>,
    direction: Direction,
    axis: Axis,
    template: Trial,
    candidates: Seq<u32>,
    first: Seq<u32>,
    second: Seq<u32>,
) where
    D: Fn(&str, Direction) -> Option<PcmInfo>,
    B: Fn(&str, Direction, BoundsQuery) -> Option<(u32, u32)>,
    T: Fn(&str, Direction, Trial) -> bool,

    requires
        backend.deterministic(),
        picked(backend, name, direction, axis, template, candidates, first),
        picked(backend, name, direction, axis, template, candidates, second),
    ensures
        first == second,
{
    assert forall|v: u32| first.contains(v) implies second.contains(v) by {
        assert(backend.accepts(name, direction, axis.trial_in(template, v)));
    }
    assert forall|v: u32| second.contains(v) implies first.contains(v) by {
        assert(backend.accepts(name, direction, axis.trial_in(template, v)));
    }
    lemma_ascending_is_by_number(first);
    lemma_ascending_is_by_number(second);
    lemma_ascending_unique(first, second, number_key());
}

/// Against a backend with one answer to each question, trying the
/// candidate formats can leave only one list.
pub proof fn lemma_formats_picked_unique<D, B, T>(
    backend: &Backend<D, B, T>,
    name: Seq<char>,
    direction: Direction,
    candidates: Seq<SampleFormat>,
    first: Seq<SampleFormat>,
    second: Seq<SampleFormat>,
) where
    D: Fn(&str, Direction) -> Option<PcmInfo>,
    B: Fn(&str, Direction, BoundsQuery) -> Option<(u32, u32)>,
    T: Fn(&str, Direction, Trial) -> bool,

    requires
        backend.deterministic(),
        formats_picked(backend, name, direction, candidates, first),
        formats_picked(backend, name, direction, candidates, second),
    ensures
        first == second,
{
    assert forall|f: SampleFormat| first.contains(f) implies second.contains(f) by {
        assert(backend.accepts(name, direction, format_trial(f)));
    }
    assert forall|f: SampleFormat| second.contains(f) implies first.contains(f) by {
        assert(backend.accepts(name, direction, format_trial(f)));
    }
    lemma_formats_unique(first, second);
}

/// Every member of a strictly increasing sequence is at most the last.
proof fn lemma_last_is_greatest(s: Seq<u32>, v: u32)
    requires
        ascending(s),
        s.contains(v),
    ensures
        v <= s.last(),
{
    let k = choose|k: int| 0 <= k < s.len() && s[k] == v;
    if k < s.len() - 1 {
        assert(s[k] < s[s.len() - 1]);
    }
}

/// Of two scans of one range that were both given up, the one that got no
/// further than the other found nothing that the other did not.
proof fn lemma_given_up_within<D, B, T>(
    backend: &Backend<D, B, T>,
    name: Seq<char>,
    direction: Direction,
    axis: Axis,
    low: u32,
    high: u32,
    ceiling: nat,
    first: Seq<u32>,
    second: Seq<u32>,
) where
    D: Fn(&str, Direction) -> Option<PcmInfo>,
    B: Fn(&str, Direction, BoundsQuery) -> Option<(u32, u32)>,
    T: Fn(&str, Direction, Trial) -> bool,

    requires
        backend.deterministic(),
        scanned(backend, name, direction, axis, low, high, ceiling, first, true),
        scanned(backend, name, direction, axis, low, high, ceiling, second, true),
        ceiling > 0,
        first.last() <= second.last(),
    ensures
        within(first, second),
{
    assert forall|v: u32| first.contains(v) implies second.contains(v) by {
        lemma_last_is_greatest(first, v);
        assert(backend.accepts(name, direction, axis.trial(v)));
    }
}

/// Against a backend with one answer to each question, a scan of a range
/// under a ceiling can end in one way only.
pub proof fn lemma_scanned_unique<D, B, T>(
    backend: &Backend<D, B, T>,
    name: Seq<char>,
    direction: Direction,
    axis: Axis,
    low: u32,
    high: u32,
    ceiling: nat,
    first: Seq<u32>,
    first_overflow: bool,
    second: Seq<u32>,
    second_overflow: bool,
) where
    D: Fn(&str, Direction) -> Option<PcmInfo>,
    B: Fn(&str, Direction, BoundsQuery) -> Option<(u32, u32)>,
    T: Fn(&str, Direction, Trial) -> bool,

    requires
        backend.deterministic(),
        scanned(backend, name, direction, axis, low, high, ceiling, first, first_overflow),
        scanned(backend, name, direction, axis, low, high, ceiling, second, second_overflow),
    ensures
        first == second,
        first_overflow == second_overflow,
{
    lemma_ascending_is_by_number(first);
    lemma_ascending_is_by_number(second);
    if !first_overflow && !second_overflow {
        assert forall|v: u32| first.contains(v) implies second.contains(v) by {
            assert(backend.accepts(name, direction, axis.trial(v)));
        }
        assert forall|v: u32| second.contains(v) implies first.contains(v) by {
            assert(backend.accepts(name, direction, axis.trial(v)));
        }
        lemma_ascending_unique(first, second, number_key());
    } else if first_overflow && !second_overflow {
        assert forall|v: u32| first.contains(v) implies second.contains(v) by {
            assert(backend.accepts(name, direction, axis.trial(v)));
        }
        lemma_ascending_within_len(first, second, number_key());
    } else if !first_overflow && second_overflow {
        assert forall|v: u32| second.contains(v) implies first.contains(v) by {
            assert(backend.accepts(name, direction, axis.trial(v)));
        }
        lemma_ascending_within_len(second, first, number_key());
    } else if ceiling == 0 {
        assert(first =~= second);
    } else if first.last() <= second.last() {
        lemma_given_up_within(backend, name, direction, axis, low, high, ceiling, first, second);
        lemma_ascending_within_same_len(first, second, number_key());
    } else {
        lemma_given_up_within(backend, name, direction, axis, low, high, ceiling, second, first);
        lemma_ascending_within_same_len(second, first, number_key());
    }
}

/// Against a backend with one answer to each question, probing a
/// parameter can find one thing only.
pub proof fn lemma_axis_probed_unique<D, B, T>(
    policy: PolicyView,
    backend: &Backend<D, B, T>,
    name: Seq<char>,
    direction: Direction,
    axis: Axis,
    first: Seq<u32>,
    first_real: bool,
    second: Seq<u32>,
    second_real: bool,
) where
    D: Fn(&str, Direction) -> Option<PcmInfo>,
    B: Fn(&str, Direction, BoundsQuery) -> Option<(u32, u32)>,
    T: Fn(&str, Direction, Trial) -> bool,

    requires
        backend.deterministic(),
        axis_probed(policy, backend, name, direction, axis, first, first_real),
        axis_probed(policy, backend, name, direction, axis, second, second_real),
    ensures
        first == second,
        first_real == second_real,
{
    let (reply1, found1, overflow1) = choose|
        reply: Option<(u32, u32)>,
        found: Seq<u32>,
        overflow: bool,
    |
        {
            &&& #[trigger] backend.reports(name, direction, axis.query(), reply)
            &&& #[trigger] scanned(
                backend,
                name,
                direction,
                axis,
                policy.range(axis, reply).0,
                policy.range(axis, reply).1,
                policy.ceiling,
                found,
                overflow,
            )
            &&& first_real == !overflow
            &&& if first_real {
                first == found
            } else {
                picked(
                    backend,
                    name,
                    direction,
                    axis,
                    blank_trial(),
                    policy.fallback(axis),
                    first,
                )
            }
        };
    let (reply2, found2, overflow2) = choose|
        reply: Option<(u32, u32)>,
        found: Seq<u32>,
        overflow: bool,
    |
        {
            &&& #[trigger] backend.reports(name, direction, axis.query(), reply)
            &&& #[trigger] scanned(
                backend,
                name,
                direction,
                axis,
                policy.range(axis, reply).0,
                policy.range(axis, reply).1,
                policy.ceiling,
                found,
                overflow,
            )
            &&& second_real == !overflow
            &&& if second_real {
                second == found
            } else {
                picked(
                    backend,
                    name,
                    direction,
                    axis,
                    blank_trial(),
                    policy.fallback(axis),
                    second,
                )
            }
        };
    assert(reply1 == reply2);
    lemma_scanned_unique(
        backend,
        name,
        direction,
        axis,
        policy.range(axis, reply1).0,
        policy.range(axis, reply1).1,
        policy.ceiling,
        found1,
        overflow1,
        found2,
        overflow2,
    );
    if !first_real {
        lemma_picked_unique(
            backend,
            name,
            direction,
            axis,
            blank_trial(),
            policy.fallback(axis),
            first,
            second,
        );
    }
}

/// The accepted values of an endpoint as plain sequences.
pub struct CapabilityView {
    pub formats: Seq<SampleFormat>,
    pub rates: Seq<u32>,
    pub channels: Seq<u32>,
}

/// Whether some combination in `found` has the format; as a predicate on
/// formats.
pub open spec fn uses_format(found: Seq<Combination>) -> spec_fn(SampleFormat) -> bool {
    |f: SampleFormat| exists|i: int| 0 <= i < found.len() && (#[trigger] found[i]).format == f
}

/// Whether some combination in `found` has the rate; as a predicate on
/// rates.
pub open spec fn uses_rate(found: Seq<Combination>) -> spec_fn(u32) -> bool {
    |r: u32| exists|i: int| 0 <= i < found.len() && (#[trigger] found[i]).rate == r
}

/// Whether some combination in `found` has the channel count; as a
/// predicate on channel counts.
pub open spec fn uses_channels(found: Seq<Combination>) -> spec_fn(u32) -> bool {
    |c: u32| exists|i: int| 0 <= i < found.len() && (#[trigger] found[i]).channels == c
}

impl CapabilityView {
    /// Each of the three lists is strictly increasing.
    pub open spec fn wf(self) -> bool {
        &&& formats_ascending(self.formats)
        &&& ascending(self.rates)
        &&& ascending(self.channels)
    }

    /// The lists with every value removed that no combination in `found`
    /// has.
    pub open spec fn filtered(self, found: Seq<Combination>) -> CapabilityView {
        CapabilityView {
            formats: self.formats.filter(uses_format(found)),
            rates: self.rates.filter(uses_rate(found)),
            channels: self.channels.filter(uses_channels(found)),
        }
    }
}

/// What probing an endpoint's capabilities may find. The formats are those
/// accepted among the policy's. If there is none, nothing else is tried.
/// Otherwise rates and channel counts are probed, and the endpoint counts
/// as real hardware if neither scan was given up.
pub open spec fn capabilities_probed<D, B, T>(
    policy: PolicyView,
    backend: &Backend<D, B, T>,
    name: Seq<char>,
    direction: Direction,
    capabilities: CapabilityView,
    real_hardware: bool,
) -> bool where
    D: Fn(&str, Direction) -> Option<PcmInfo>,
    B: Fn(&str, Direction, BoundsQuery) -> Option<(u32, u32)>,
    T: Fn(&str, Direction, Trial) -> bool,
 {
    &&& formats_picked(backend, name, direction, policy.formats, capabilities.formats)
    &&& if capabilities.formats.len() == 0 {
        capabilities.rates.len() == 0 && capabilities.channels.len() == 0 && real_hardware
    } else {
        exists|rates_real: bool, channels_real: bool|
            {
                &&& #[trigger] axis_probed(
                    policy,
                    backend,
                    name,
                    direction,
                    Axis::Rate,
                    capabilities.rates,
                    rates_real,
                )
                &&& #[trigger] axis_probed(
                    policy,
                    backend,
                    name,
                    direction,
                    Axis::Channels,
                    capabilities.channels,
                    channels_real,
                )
                &&& real_hardware == (rates_real && channels_real)
            }
    }
}

/// Against a backend with one answer to each question, probing an
/// endpoint's capabilities can find one thing only.
pub proof fn lemma_capabilities_unique<D, B, T>(
    policy: PolicyView,
    backend: &Backend<D, B, T>,
    name: Seq<char>,
    direction: Direction,
    first: CapabilityView,
    first_real: bool,
    second: CapabilityView,
    second_real: bool,
) where
    D: Fn(&str, Direction) -> Option<PcmInfo>,
    B: Fn(&str, Direction, BoundsQuery) -> Option<(u32, u32)>,
    T: Fn(&str, Direction, Trial) -> bool,

    requires
        backend.deterministic(),
        capabilities_probed(policy, backend, name, direction, first, first_real),
        capabilities_probed(policy, backend, name, direction, second, second_real),
    ensures
        first == second,
        first_real == second_real,
{
    lemma_formats_picked_unique(
        backend,
        name,
        direction,
        policy.formats,
        first.formats,
        second.formats,
    );
    if first.formats.len() == 0 {
        assert(first.rates =~= second.rates);
        assert(first.channels =~= second.channels);
    } else {
        let (r1, c1) = choose|rates_real: bool, channels_real: bool|
            {
                &&& #[trigger] axis_probed(
                    policy,
                    backend,
                    name,
                    direction,
                    Axis::Rate,
                    first.rates,
                    rates_real,
                )
                &&& #[trigger] axis_probed(
                    policy,
                    backend,
                    name,
                    direction,
                    Axis::Channels,
                    first.channels,
                    channels_real,
                )
                &&& first_real == (rates_real && channels_real)
            };
        let (r2, c2) = choose|rates_real: bool, channels_real: bool|
            {
                &&& #[trigger] axis_probed(
                    policy,
                    backend,
                    name,
                    direction,
                    Axis::Rate,
                    second.rates,
                    rates_real,
                )
                &&& #[trigger] axis_probed(
                    policy,
                    backend,
                    name,
                    direction,
                    Axis::Channels,
                    second.channels,
                    channels_real,
                )
                &&& second_real == (rates_real && channels_real)
            };
        lemma_axis_probed_unique(
            policy,
            backend,
            name,
            direction,
            Axis::Rate,
            first.rates,
            r1,
            second.rates,
            r2,
        );
        lemma_axis_probed_unique(
            policy,
            backend,
            name,
            direction,
            Axis::Channels,
            first.channels,
            c1,
            second.channels,
            c2,
        );
    }
}

/// Whether some combination has the format, computed.
pub fn has_format(found: &Vec<Combination>, format: SampleFormat) -> (r: bool)
    ensures
        r == uses_format(found@)(format),
{
    let mut i: usize = 0;
    while i < found.len()
        invariant
            i <= found.len(),
            forall|k: int| 0 <= k < i ==> (#[trigger] found@[k]).format != format,
        decreases found.len() - i,
    {
        if found[i].format == format {
            return true;
        }
        i = i + 1;
    }
    false
}

/// The predicate on values of a parameter: whether some combination has
/// the value.
pub open spec fn uses_value(found: Seq<Combination>, axis: Axis) -> spec_fn(u32) -> bool {
    match axis {
        Axis::Rate => uses_rate(found),
        Axis::Channels => uses_channels(found),
    }
}

/// Whether some combination has the value of the parameter, computed.
pub fn has_value(found: &Vec<Combination>, axis: Axis, value: u32) -> (r: bool)
    ensures
        r == uses_value(found@, axis)(value),
{
    let mut i: usize = 0;
    while i < found.len()
        invariant
            i <= found.len(),
            forall|k: int|
                0 <= k < i ==> (#[trigger] found@[k]).rate != value || axis != Axis::Rate,
            forall|k: int|
                0 <= k < i ==> (#[trigger] found@[k]).channels != value || axis != Axis::Channels,
        decreases found.len() - i,
    {
        let hit = match axis {
            Axis::Rate => found[i].rate == value,
            Axis::Channels => found[i].channels == value,
        };
        if hit {
            return true;
        }
        i = i + 1;
    }
    false
}

/// The values of a parameter that some combination has, in the order in
/// which they stand.
fn keep_used(values: &Vec<u32>, found: &Vec<Combination>, axis: Axis) -> (kept: Vec<u32>)
    ensures
        kept@ == values@.filter(uses_value(found@, axis)),
{
    let mut kept: Vec<u32> = Vec::new();
    let mut i: usize = 0;
    while i < values.len()
        invariant
            i <= values.len(),
            kept@ == values@.take(i as int).filter(uses_value(found@, axis)),
        decreases values.len() - i,
    {
        let value = values[i];
        proof {
            assert(values@.take(i + 1) =~= values@.take(i as int).push(value));
            values@.take(i as int).lemma_filter_push(value, uses_value(found@, axis));
        }
        if has_value(found, axis, value) {
            kept.push(value);
        }
        i = i + 1;
    }
    proof {
        assert(values@.take(values@.len() as int) =~= values@);
    }
    kept
}

/// The formats, rates and channel counts that an endpoint accepts, each
/// list strictly increasing.
pub struct CapabilitySet {
    formats: Vec<SampleFormat>,
    rates: Vec<u32>,
    channels: Vec<u32>,
}

impl View for CapabilitySet {
    type V = CapabilityView;

    closed spec fn view(&self) -> CapabilityView {
        CapabilityView { formats: self.formats@, rates: self.rates@, channels: self.channels@ }
    }
}

impl CapabilitySet {
    /// What holds of every capability set: its lists are strictly
    /// increasing.
    #[verifier::type_invariant]
    pub open spec fn inv(self) -> bool {
        self@.wf()
    }

    /// Probes the capabilities of an endpoint: formats first, then, unless
    /// none was accepted, rates and channel counts. The flag tells whether
    /// the endpoint still counts as real hardware.
    ///
    /// Neither rates nor channel counts are ever more than the policy's
    /// ceiling. On real hardware both are fewer than that; otherwise the
    /// rates or the channel counts are all curated candidates.
    pub fn probe<D, B, T>(
        policy: &ProbePolicy,
        backend: &Backend<D, B, T>,
        name: &str,
        direction: Direction,
    ) -> (found: (CapabilitySet, bool)) where
        D: Fn(&str, Direction) -> Option<PcmInfo>,
        B: Fn(&str, Direction, BoundsQuery) -> Option<(u32, u32)>,
        T: Fn(&str, Direction, Trial) -> bool,

        requires
            backend.ready(),
        ensures
            capabilities_probed(policy@, backend, name@, direction, found.0@, found.1),
            found.0@.wf(),
            found.0@.rates.len() <= policy@.ceiling,
            found.0@.channels.len() <= policy@.ceiling,
            found.1 ==> found.0@.rates.len() < policy@.ceiling && found.0@.channels.len()
                < policy@.ceiling,
            !found.1 ==> within(found.0@.rates, policy@.fallback_rates) || within(
                found.0@.channels,
                policy@.fallback_channels,
            ),
    {
        proof {
            use_type_invariant(policy);
        }
        let formats = pick_formats(backend, name, direction, policy.formats());
        if formats.len() == 0 {
            return (CapabilitySet { formats, rates: Vec::new(), channels: Vec::new() }, true);
        }
        let rates = probe_axis(policy, backend, name, direction, Axis::Rate);
        let channels = probe_axis(policy, backend, name, direction, Axis::Channels);
        let real_hardware = rates.real_hardware && channels.real_hardware;
        (
            CapabilitySet { formats, rates: rates.values, channels: channels.values },
            real_hardware,
        )
    }

    /// The set with every value removed that no combination in `found`
    /// has.
    pub fn filtered(&self, found: &Vec<Combination>) -> (kept: CapabilitySet)
        ensures
            kept@ == self@.filtered(found@),
    {
        proof {
            use_type_invariant(self);
        }
        let mut formats: Vec<SampleFormat> = Vec::new();
        let mut i: usize = 0;
        while i < self.formats.len()
            invariant
                i <= self.formats.len(),
                formats@ == self.formats@.take(i as int).filter(uses_format(found@)),
            decreases self.formats.len() - i,
        {
            let format = self.formats[i];
            proof {
                assert(self.formats@.take(i + 1) =~= self.formats@.take(i as int).push(format));
                self.formats@.take(i as int).lemma_filter_push(format, uses_format(found@));
            }
            if has_format(found, format) {
                formats.push(format);
            }
            i = i + 1;
        }
        let rates = keep_used(&self.rates, found, Axis::Rate);
        let channels = keep_used(&self.channels, found, Axis::Channels);
        proof {
            assert(self.formats@.take(self.formats@.len() as int) =~= self.formats@);
            lemma_formats_ascending_is_by_rank(self.formats@);
            lemma_filter_ascending(self.formats@, format_key(), uses_format(found@));
            lemma_formats_ascending_is_by_rank(formats@);
            lemma_ascending_is_by_number(self.rates@);
            lemma_filter_ascending(self.rates@, number_key(), uses_rate(found@));
            lemma_ascending_is_by_number(rates@);
            lemma_ascending_is_by_number(self.channels@);
            lemma_filter_ascending(self.channels@, number_key(), uses_channels(found@));
            lemma_ascending_is_by_number(channels@);
        }
        CapabilitySet { formats, rates, channels }
    }

    /// The three lists, handed over: formats, rates, channel counts.
    pub fn into_lists(self) -> (lists: (Vec<SampleFormat>, Vec<u32>, Vec<u32>))
        ensures
            lists.0@ == self@.formats,
            lists.1@ == self@.rates,
            lists.2@ == self@.channels,
            self@.wf(),
    {
        proof {
            use_type_invariant(&self);
        }
        (self.formats, self.rates, self.channels)
    }

    /// The accepted formats.
    pub fn formats(&self) -> (r: &Vec<SampleFormat>)
        ensures
            r@ == self@.formats,
            formats_ascending(r@),
    {
        proof {
            use_type_invariant(self);
        }
        &self.formats
    }

    /// The accepted rates.
    pub fn rates(&self) -> (r: &Vec<u32>)
        ensures
            r@ == self@.rates,
            ascending(r@),
    {
        proof {
            use_type_invariant(self);
        }
        &self.rates
    }

    /// The accepted channel counts.
    pub fn channels(&self) -> (r: &Vec<u32>)
        ensures
            r@ == self@.channels,
            ascending(r@),
    {
        proof {
            use_type_invariant(self);
        }
        &self.channels
    }
}

} // verus!
