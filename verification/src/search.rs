//! The search for the combinations of format, rate and channel count that
//! an endpoint really takes.
//!
//! That an endpoint accepts a format, a rate and a channel count each by
//! itself does not mean that it accepts them together. The search tries
//! them together, in three levels: a format alone; each rate with a format
//! that passed; each channel count with a pair that passed, this time
//! applying the parameters to the device. A format or a pair that fails
//! is not tried any further.

use vstd::prelude::*;
use crate::audio::{formats_ascending, Direction, SampleFormat};
use crate::backend::{Backend, PcmInfo};
use crate::capability::{pick_values, picked, CapabilitySet};
use crate::ordered::{ascending, ascending_by, lemma_ascending_unique};
use crate::policy::{format_trial, Axis};
use crate::session::{BoundsQuery, Trial};

verus! {

broadcast use {
    vstd::seq_lib::lemma_seq_contains_after_push,
    vstd::seq_lib::lemma_seq_concat_contains_all_elements,
};

/// A format, a rate in Hz and a channel count.
#[derive(Clone, Copy, Debug, PartialEq, Eq, Hash, Structural)]
pub struct Combination {
    pub format: SampleFormat,
    pub rate: u32,
    pub channels: u32,
}

/// The key that orders combinations by format first, then rate, then
/// channel count.
pub open spec fn combination_key(c: Combination) -> int {
    (c.format.rank() * 0x1_0000_0000 + c.rate) * 0x1_0000_0000 + c.channels
}

/// `s` is strictly increasing by format, then rate, then channel count.
pub open spec fn combinations_ascending(s: Seq<Combination>) -> bool {
    forall|i: int, j: int|
        0 <= i < j < s.len() ==> combination_key(#[trigger] s[i]) < combination_key(#[trigger] s[j])
}

/// What the second level asks with each rate: the format.
pub open spec fn pair_template(format: SampleFormat) -> Trial {
    Trial { format: Some(format), rate: None, channels: None, timing: None, commit: false }
}

/// What the third level asks with each channel count: format and rate,
/// and that the parameters be applied.
pub open spec fn full_template(format: SampleFormat, rate: u32) -> Trial {
    Trial { format: Some(format), rate: Some(rate), channels: None, timing: None, commit: true }
}

/// The trial of the second level: a format and a rate together.
pub open spec fn pair_trial(format: SampleFormat, rate: u32) -> Trial {
    Trial { format: Some(format), rate: Some(rate), channels: None, timing: None, commit: false }
}

/// The trial of the third level: the whole combination, applied.
pub open spec fn full_trial(c: Combination) -> Trial {
    Trial {
        format: Some(c.format),
        rate: Some(c.rate),
        channels: Some(c.channels),
        timing: None,
        commit: true,
    }
}

/// What the search may find among the given candidates: the combinations
/// that passed all three levels, each once, ordered by format, then rate,
/// then channel count; and of every other combination of candidates, a
/// level that it failed.
pub open spec fn searched<D, B, T>(
    backend: &Backend<D, B, T>,
    name: Seq<char>,
    direction: Direction,
    formats: Seq<SampleFormat>,
    rates: Seq<u32>,
    channels: Seq<u32>,
    found: Seq<Combination>,
) -> bool where
    D: Fn(&str, Direction) -> Option<PcmInfo>,
    B: Fn(&str, Direction, BoundsQuery) -> Option<(u32, u32)>,
    T: Fn(&str, Direction, Trial) -> bool,
 {
    &&& combinations_ascending(found)
    &&& forall|c: Combination| #[trigger]
        found.contains(c) ==> {
            &&& formats.contains(c.format)
            &&& rates.contains(c.rate)
            &&& channels.contains(c.channels)
            &&& backend.accepts(name, direction, format_trial(c.format))
            &&& backend.accepts(name, direction, pair_trial(c.format, c.rate))
            &&& backend.accepts(name, direction, full_trial(c))
        }
    &&& forall|c: Combination|
        formats.contains(c.format) && rates.contains(c.rate) && channels.contains(c.channels)
            && !#[trigger] found.contains(c) ==> {
            ||| backend.rejects(name, direction, format_trial(c.format))
            ||| backend.rejects(name, direction, pair_trial(c.format, c.rate))
            ||| backend.rejects(name, direction, full_trial(c))
        }
}

/// The key under which `combinations_ascending` orders combinations.
pub open spec fn combination_order() -> spec_fn(Combination) -> int {
    |c: Combination| combination_key(c)
}

/// `combinations_ascending` is `ascending_by` under the combination key.
pub proof fn lemma_combinations_ascending_is_by_key(s: Seq<Combination>)
    ensures
        combinations_ascending(s) <==> ascending_by(s, combination_order()),
{
    if combinations_ascending(s) {
        assert forall|i: int, j: int| 0 <= i < j < s.len() implies combination_order()(s[i])
            < combination_order()(s[j]) by {
            assert(combination_key(s[i]) < combination_key(s[j]));
        }
    }
    if ascending_by(s, combination_order()) {
        assert forall|i: int, j: int| 0 <= i < j < s.len() implies combination_key(
            #[trigger] s[i],
        ) < combination_key(#[trigger] s[j]) by {
            assert(combination_order()(s[i]) < combination_order()(s[j]));
        }
    }
}

/// Against a backend with one answer to each question, the search among
/// given candidates can find one list only.
pub proof fn lemma_searched_unique<D, B, T>(
    backend: &Backend<D, B, T>,
    name: Seq<char>,
    direction: Direction,
    formats: Seq<SampleFormat>,
    rates: Seq<u32>,
    channels: Seq<u32>,
    first: Seq<Combination>,
    second: Seq<Combination>,
) where
    D: Fn(&str, Direction) -> Option<PcmInfo>,
    B: Fn(&str, Direction, BoundsQuery) -> Option<(u32, u32)>,
    T: Fn(&str, Direction, Trial) -> bool,

    requires
        backend.deterministic(),
        searched(backend, name, direction, formats, rates, channels, first),
        searched(backend, name, direction, formats, rates, channels, second),
    ensures
        first == second,
{
    assert forall|c: Combination| first.contains(c) implies second.contains(c) by {
        assert(backend.accepts(name, direction, format_trial(c.format)));
        assert(backend.accepts(name, direction, pair_trial(c.format, c.rate)));
        assert(backend.accepts(name, direction, full_trial(c)));
    }
    assert forall|c: Combination| second.contains(c) implies first.contains(c) by {
        assert(backend.accepts(name, direction, format_trial(c.format)));
        assert(backend.accepts(name, direction, pair_trial(c.format, c.rate)));
        assert(backend.accepts(name, direction, full_trial(c)));
    }
    lemma_combinations_ascending_is_by_key(first);
    lemma_combinations_ascending_is_by_key(second);
    lemma_ascending_unique(first, second, combination_order());
}

/// The third level for one pair that passed the second.
fn search_pair<D, B, T>(
    backend: &Backend<D, B, T>,
    name: &str,
    direction: Direction,
    format: SampleFormat,
    rate: u32,
    channels: &Vec<u32>,
) -> (block: Vec<Combination>) where
    D: Fn(&str, Direction) -> Option<PcmInfo>,
    B: Fn(&str, Direction, BoundsQuery) -> Option<(u32, u32)>,
    T: Fn(&str, Direction, Trial) -> bool,

    requires
        backend.ready(),
        ascending(channels@),
    ensures
        combinations_ascending(block@),
        forall|c: Combination| #[trigger]
            block@.contains(c) ==> c.format == format && c.rate == rate && channels@.contains(
                c.channels,
            ) && backend.accepts(name@, direction, full_trial(c)),
        forall|c: Combination|
            c.format == format && c.rate == rate && channels@.contains(c.channels)
                && !#[trigger] block@.contains(c) ==> backend.rejects(
                name@,
                direction,
                full_trial(c),
            ),
{
    let template = Trial {
        format: Some(format),
        rate: Some(rate),
        channels: None,
        timing: None,
        commit: true,
    };
    let passed = pick_values(backend, name, direction, Axis::Channels, template, channels);
    let mut block: Vec<Combination> = Vec::new();
    let mut i: usize = 0;
    while i < passed.len()
        invariant
            i <= passed.len(),
            block@.len() == i,
            forall|k: int|
                0 <= k < i ==> #[trigger] block@[k] == (Combination {
                    format,
                    rate,
                    channels: passed@[k],
                }),
        decreases passed.len() - i,
    {
        block.push(Combination { format, rate, channels: passed[i] });
        i = i + 1;
    }
    proof {
        assert forall|c: Combination| #[trigger] block@.contains(c) implies c.format == format
            && c.rate == rate && channels@.contains(c.channels) && backend.accepts(
            name@,
            direction,
            full_trial(c),
        ) by {
            let k = choose|k: int| 0 <= k < block@.len() && block@[k] == c;
            assert(passed@.contains(passed@[k]));
            assert(full_trial(c) == Axis::Channels.trial_in(template, c.channels));
        }
        assert forall|c: Combination|
            c.format == format && c.rate == rate && channels@.contains(c.channels)
                && !#[trigger] block@.contains(c) implies backend.rejects(
            name@,
            direction,
            full_trial(c),
        ) by {
            assert(full_trial(c) == Axis::Channels.trial_in(template, c.channels));
            if passed@.contains(c.channels) {
                let k = choose|k: int| 0 <= k < passed@.len() && passed@[k] == c.channels;
                assert(block@[k] == c);
            }
        }
    }
    block
}

/// Appending a block whose keys all exceed those of what is there keeps
/// combinations in order.
proof fn lemma_append_block(found: Seq<Combination>, block: Seq<Combination>, bound: int)
    requires
        combinations_ascending(found),
        combinations_ascending(block),
        forall|k: int| 0 <= k < found.len() ==> combination_key(#[trigger] found[k]) < bound,
        forall|k: int| 0 <= k < block.len() ==> bound <= combination_key(#[trigger] block[k]),
    ensures
        combinations_ascending(found + block),
{
    let all = found + block;
    assert forall|i: int, j: int| 0 <= i < j < all.len() implies combination_key(
        #[trigger] all[i],
    ) < combination_key(#[trigger] all[j]) by {
        if j < found.len() {
            assert(all[i] == found[i] && all[j] == found[j]);
        } else if i < found.len() {
            assert(all[i] == found[i] && all[j] == block[j - found.len()]);
        } else {
            assert(all[i] == block[i - found.len()] && all[j] == block[j - found.len()]);
        }
    }
}

/// The second and third level for one format that passed the first.
fn search_format<D, B, T>(
    backend: &Backend<D, B, T>,
    name: &str,
    direction: Direction,
    format: SampleFormat,
    rates: &Vec<u32>,
    channels: &Vec<u32>,
) -> (block: Vec<Combination>) where
    D: Fn(&str, Direction) -> Option<PcmInfo>,
    B: Fn(&str, Direction, BoundsQuery) -> Option<(u32, u32)>,
    T: Fn(&str, Direction, Trial) -> bool,

    requires
        backend.ready(),
        ascending(rates@),
        ascending(channels@),
    ensures
        combinations_ascending(block@),
        forall|c: Combination| #[trigger]
            block@.contains(c) ==> {
                &&& c.format == format
                &&& rates@.contains(c.rate)
                &&& channels@.contains(c.channels)
                &&& backend.accepts(name@, direction, pair_trial(c.format, c.rate))
                &&& backend.accepts(name@, direction, full_trial(c))
            },
        forall|c: Combination|
            c.format == format && rates@.contains(c.rate) && channels@.contains(c.channels)
                && !#[trigger] block@.contains(c) ==> {
                ||| backend.rejects(name@, direction, pair_trial(c.format, c.rate))
                ||| backend.rejects(name@, direction, full_trial(c))
            },
{
    let template = Trial {
        format: Some(format),
        rate: None,
        channels: None,
        timing: None,
        commit: false,
    };
    let passed = pick_values(backend, name, direction, Axis::Rate, template, rates);
    assert forall|r: u32| pair_trial(format, r) == Axis::Rate.trial_in(template, r) by {}
    let mut block: Vec<Combination> = Vec::new();
    let mut i: usize = 0;
    while i < passed.len()
        invariant
            backend.ready(),
            ascending(channels@),
            ascending(passed@),
            picked(backend, name@, direction, Axis::Rate, template, rates@, passed@),
            forall|r: u32| pair_trial(format, r) == Axis::Rate.trial_in(template, r),
            i <= passed.len(),
            combinations_ascending(block@),
            forall|c: Combination| #[trigger]
                block@.contains(c) ==> {
                    &&& c.format == format
                    &&& rates@.contains(c.rate)
                    &&& channels@.contains(c.channels)
                    &&& backend.accepts(name@, direction, pair_trial(c.format, c.rate))
                    &&& backend.accepts(name@, direction, full_trial(c))
                    &&& exists|m: int| 0 <= m < i && passed@[m] == c.rate
                },
            forall|c: Combination, m: int|
                0 <= m < i && c.format == format && c.rate == #[trigger] passed@[m]
                    && channels@.contains(c.channels) && !#[trigger] block@.contains(c)
                    ==> backend.rejects(name@, direction, full_trial(c)),
        decreases passed.len() - i,
    {
        let rate = passed[i];
        let mut next = search_pair(backend, name, direction, format, rate, channels);
        let ghost before = block@;
        let ghost added = next@;
        proof {
            assert(passed@.contains(rate));
            let bound = combination_key(Combination { format, rate, channels: 0 });
            assert forall|k: int| 0 <= k < before.len() implies combination_key(
                #[trigger] before[k],
            ) < bound by {
                assert(before.contains(before[k]));
                let m = choose|m: int| 0 <= m < i && passed@[m] == before[k].rate;
                assert(passed@[m] < passed@[i as int]);
            }
            assert forall|k: int| 0 <= k < added.len() implies bound <= combination_key(
                #[trigger] added[k],
            ) by {
                assert(added.contains(added[k]));
            }
            lemma_append_block(before, added, bound);
        }
        block.append(&mut next);
        proof {
            assert(block@ == before + added);
            assert forall|c: Combination| #[trigger] block@.contains(c) implies (exists|m: int|
                0 <= m < i + 1 && passed@[m] == c.rate) by {
                if before.contains(c) {
                    let m = choose|m: int| 0 <= m < i && passed@[m] == c.rate;
                    assert(0 <= m < i + 1 && passed@[m] == c.rate);
                } else {
                    assert(added.contains(c));
                    assert(passed@[i as int] == c.rate);
                }
            }
        }
        i = i + 1;
    }
    proof {
        assert forall|c: Combination|
            c.format == format && rates@.contains(c.rate) && channels@.contains(c.channels)
                && !#[trigger] block@.contains(c) implies (backend.rejects(
            name@,
            direction,
            pair_trial(c.format, c.rate),
        ) || backend.rejects(name@, direction, full_trial(c))) by {
            if passed@.contains(c.rate) {
                let m = choose|m: int| 0 <= m < passed@.len() && passed@[m] == c.rate;
                assert(c.rate == passed@[m]);
            }
        }
    }
    block
}

/// Searches the combinations of an endpoint's accepted formats, rates and
/// channel counts for those that it takes together.
pub fn search<D, B, T>(
    backend: &Backend<D, B, T>,
    name: &str,
    direction: Direction,
    capabilities: &CapabilitySet,
) -> (found: Vec<Combination>) where
    D: Fn(&str, Direction) -> Option<PcmInfo>,
    B: Fn(&str, Direction, BoundsQuery) -> Option<(u32, u32)>,
    T: Fn(&str, Direction, Trial) -> bool,

    requires
        backend.ready(),
    ensures
        searched(
            backend,
            name@,
            direction,
            capabilities@.formats,
            capabilities@.rates,
            capabilities@.channels,
            found@,
        ),
{
    let formats = capabilities.formats();
    let rates = capabilities.rates();
    let channels = capabilities.channels();
    let mut found: Vec<Combination> = Vec::new();
    let mut i: usize = 0;
    while i < formats.len()
        invariant
            backend.ready(),
            formats_ascending(formats@),
            ascending(rates@),
            ascending(channels@),
            i <= formats.len(),
            combinations_ascending(found@),
            forall|c: Combination| #[trigger]
                found@.contains(c) ==> {
                    &&& formats@.contains(c.format)
                    &&& rates@.contains(c.rate)
                    &&& channels@.contains(c.channels)
                    &&& backend.accepts(name@, direction, format_trial(c.format))
                    &&& backend.accepts(name@, direction, pair_trial(c.format, c.rate))
                    &&& backend.accepts(name@, direction, full_trial(c))
                    &&& exists|m: int| 0 <= m < i && formats@[m] == c.format
                },
            forall|c: Combination, m: int|
                0 <= m < i && c.format == #[trigger] formats@[m] && rates@.contains(c.rate)
                    && channels@.contains(c.channels) && !#[trigger] found@.contains(c) ==> {
                    ||| backend.rejects(name@, direction, format_trial(c.format))
                    ||| backend.rejects(name@, direction, pair_trial(c.format, c.rate))
                    ||| backend.rejects(name@, direction, full_trial(c))
                },
        decreases formats.len() - i,
    {
        let format = formats[i];
        let trial = Trial {
            format: Some(format),
            rate: None,
            channels: None,
            timing: None,
            commit: false,
        };
        let passes = (backend.trial)(name, direction, trial);
        let ghost before = found@;
        if passes {
            let mut next = search_format(backend, name, direction, format, rates, channels);
            let ghost added = next@;
            proof {
                assert(formats@.contains(format));
                let bound = combination_key(Combination { format, rate: 0, channels: 0 });
                assert forall|k: int| 0 <= k < before.len() implies combination_key(
                    #[trigger] before[k],
                ) < bound by {
                    assert(before.contains(before[k]));
                    let m = choose|m: int| 0 <= m < i && formats@[m] == before[k].format;
                    assert(formats@[m].rank() < formats@[i as int].rank());
                }
                assert forall|k: int| 0 <= k < added.len() implies bound <= combination_key(
                    #[trigger] added[k],
                ) by {
                    assert(added.contains(added[k]));
                }
                lemma_append_block(before, added, bound);
            }
            found.append(&mut next);
            proof {
                assert(found@ == before + added);
                assert forall|c: Combination| #[trigger] found@.contains(c) implies (exists|
                    m: int,
                | 0 <= m < i + 1 && formats@[m] == c.format) by {
                    if before.contains(c) {
                        let m = choose|m: int| 0 <= m < i && formats@[m] == c.format;
                        assert(0 <= m < i + 1 && formats@[m] == c.format);
                    } else {
                        assert(added.contains(c));
                        assert(formats@[i as int] == c.format);
                    }
                }
            }
        } else {
            proof {
                assert forall|c: Combination| #[trigger] found@.contains(c) implies (exists|
                    m: int,
                | 0 <= m < i + 1 && formats@[m] == c.format) by {
                    let m = choose|m: int| 0 <= m < i && formats@[m] == c.format;
                    assert(0 <= m < i + 1 && formats@[m] == c.format);
                }
            }
        }
        i = i + 1;
    }
    proof {
        assert forall|c: Combination|
            formats@.contains(c.format) && rates@.contains(c.rate) && channels@.contains(
                c.channels,
            ) && !#[trigger] found@.contains(c) implies (backend.rejects(
            name@,
            direction,
            format_trial(c.format),
        ) || backend.rejects(name@, direction, pair_trial(c.format, c.rate)) || backend.rejects(
            name@,
            direction,
            full_trial(c),
        )) by {
            let m = choose|m: int| 0 <= m < formats@.len() && formats@[m] == c.format;
            assert(c.format == formats@[m]);
        }
    }
    found
}

} // verus!
