//! Picking the endpoints worth probing out of what the system's discovery
//! source lists.

use vstd::prelude::*;
use crate::audio::Direction;

verus! {

/// One entry of the discovery source. Any of its parts may be missing.
#[derive(Clone, Debug)]
pub struct Hint {
    pub name: Option<String>,
    pub description: Option<String>,
    pub direction: Option<Direction>,
}

/// A hint with its texts as sequences of characters.
pub struct HintView {
    pub name: Option<Seq<char>>,
    pub description: Option<Seq<char>>,
    pub direction: Option<Direction>,
}

/// The characters of a text that may be missing.
pub open spec fn text_view(text: Option<String>) -> Option<Seq<char>> {
    match text {
        Some(t) => Some(t@),
        None => None,
    }
}

impl View for Hint {
    type V = HintView;

    open spec fn view(&self) -> HintView {
        HintView {
            name: text_view(self.name),
            description: text_view(self.description),
            direction: self.direction,
        }
    }
}

/// An endpoint to probe.
#[derive(Clone, Debug)]
pub struct Candidate {
    pub name: String,
    pub description: String,
    pub direction: Direction,
}

/// A candidate with its texts as sequences of characters.
pub struct CandidateView {
    pub name: Seq<char>,
    pub description: Seq<char>,
    pub direction: Direction,
}

impl View for Candidate {
    type V = CandidateView;

    open spec fn view(&self) -> CandidateView {
        CandidateView {
            name: self.name@,
            description: self.description@,
            direction: self.direction,
        }
    }
}

/// The views of a list of hints.
pub open spec fn hint_views(hints: Seq<Hint>) -> Seq<HintView> {
    Seq::new(hints.len(), |i: int| hints[i]@)
}

/// The view of what a discovery source gave: its hints, or nothing if it
/// failed.
pub open spec fn source_view(hints: Option<Vec<Hint>>) -> Option<Seq<HintView>> {
    match hints {
        Some(h) => Some(hint_views(h@)),
        None => None,
    }
}

/// The views of a list of candidates.
pub open spec fn candidate_views(candidates: Seq<Candidate>) -> Seq<CandidateView> {
    Seq::new(candidates.len(), |i: int| candidates[i]@)
}

/// Whether a name is in one of the namespaces of raw hardware: plain
/// hardware devices, HDMI outputs and digital outputs.
pub open spec fn names_hardware(name: Seq<char>) -> bool {
    ||| "hw:"@.is_prefix_of(name)
    ||| "hdmi:"@.is_prefix_of(name)
    ||| "iec958:"@.is_prefix_of(name)
}

/// What a hint is listed as: nothing unless it has a name in a hardware
/// namespace and a direction; a missing description counts as empty.
pub open spec fn listed(hint: HintView) -> Option<CandidateView> {
    match (hint.name, hint.direction) {
        (Some(name), Some(direction)) => if names_hardware(name) {
            Some(
                CandidateView {
                    name,
                    description: match hint.description {
                        Some(d) => d,
                        None => Seq::<char>::empty(),
                    },
                    direction,
                },
            )
        } else {
            None
        },
        _ => None,
    }
}

/// `listed` as a function value.
pub open spec fn listing() -> spec_fn(HintView) -> Option<CandidateView> {
    |hint: HintView| listed(hint)
}

/// The candidates among what the discovery source lists, in its order. A
/// source that fails lists nothing.
pub open spec fn candidates_of(hints: Option<Seq<HintView>>) -> Seq<CandidateView> {
    match hints {
        Some(hints) => hints.filter_map(listing()),
        None => Seq::<CandidateView>::empty(),
    }
}

/// Whether a text starts with another.
pub fn starts_with(text: &str, prefix: &str) -> (r: bool)
    ensures
        r == prefix@.is_prefix_of(text@),
{
    let len = prefix.unicode_len();
    if text.unicode_len() < len {
        return false;
    }
    let mut i: usize = 0;
    while i < len
        invariant
            len == prefix@.len(),
            len <= text@.len(),
            i <= len,
            forall|k: int| 0 <= k < i ==> text@[k] == prefix@[k],
        decreases len - i,
    {
        if text.get_char(i) != prefix.get_char(i) {
            assert(text@.subrange(0, len as int)[i as int] != prefix@[i as int]);
            return false;
        }
        i = i + 1;
    }
    assert(prefix@ =~= text@.subrange(0, len as int));
    true
}

/// Whether a name is in one of the namespaces of raw hardware.
pub fn is_hardware_name(name: &str) -> (r: bool)
    ensures
        r == names_hardware(name@),
{
    starts_with(name, "hw:") || starts_with(name, "hdmi:") || starts_with(name, "iec958:")
}

/// Picks the candidates out of what the discovery source listed.
pub fn candidates(hints: Option<Vec<Hint>>) -> (found: Vec<Candidate>)
    ensures
        candidate_views(found@) == candidates_of(source_view(hints)),
{
    let mut found: Vec<Candidate> = Vec::new();
    let hints = match hints {
        Some(h) => h,
        None => {
            assert(candidate_views(found@) =~= Seq::<CandidateView>::empty());
            return found;
        },
    };
    let ghost all = hint_views(hints@);
    let mut i: usize = 0;
    assert(all.take(0) =~= Seq::<HintView>::empty());
    assert(candidate_views(found@) =~= all.take(0).filter_map(listing()));
    while i < hints.len()
        invariant
            all == hint_views(hints@),
            i <= hints.len(),
            candidate_views(found@) == all.take(i as int).filter_map(listing()),
        decreases hints.len() - i,
    {
        let ghost before = candidate_views(found@);
        proof {
            all.lemma_filter_map_take_succ(listing(), i as int);
            assert(all[i as int] == hints@[i as int]@);
        }
        let hint = &hints[i];
        match (&hint.name, hint.direction) {
            (Some(name), Some(direction)) => {
                if is_hardware_name(name.as_str()) {
                    let description = match &hint.description {
                        Some(d) => d.clone(),
                        None => String::new(),
                    };
                    let candidate = Candidate { name: name.clone(), description, direction };
                    found.push(candidate);
                    assert(candidate_views(found@) =~= before + seq![listed(all[i as int])->0]);
                }
            },
            _ => {},
        }
        i = i + 1;
    }
    assert(all.take(hints@.len() as int) =~= all);
    found
}

} // verus!
