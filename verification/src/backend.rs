//! The negotiation backend as the engine sees it: three functions of the
//! caller's, and the words in which contracts speak of their answers.
//!
//! Nothing is assumed of a backend. A contract that says the backend
//! `accepts` a trial says that `true` is an answer the trial function gives
//! to it; for a backend that answers every question in one way only
//! (`deterministic`), that is the answer.

use vstd::prelude::*;
use crate::audio::Direction;
use crate::session::{BoundsQuery, Trial};

verus! {

/// What an opened endpoint says of itself.
pub struct PcmInfo {
    /// What the endpoint calls itself.
    pub description: String,
    pub device_number: u32,
    pub sub_device_number: u32,
    /// Whether the endpoint can be shared through a software mixer.
    pub software_mixable: bool,
    /// Whether the device mixes by itself and so can be opened more than
    /// once at a time.
    pub has_builtin_mixer: bool,
}

/// `PcmInfo` with its text as a sequence of characters.
pub struct InfoView {
    pub description: Seq<char>,
    pub device_number: u32,
    pub sub_device_number: u32,
    pub software_mixable: bool,
    pub has_builtin_mixer: bool,
}

impl View for PcmInfo {
    type V = InfoView;

    open spec fn view(&self) -> InfoView {
        InfoView {
            description: self.description@,
            device_number: self.device_number,
            sub_device_number: self.sub_device_number,
            software_mixable: self.software_mixable,
            has_builtin_mixer: self.has_builtin_mixer,
        }
    }
}

/// The view of an answer to `describe`.
pub open spec fn info_view(info: Option<PcmInfo>) -> Option<InfoView> {
    match info {
        Some(i) => Some(i@),
        None => None,
    }
}

/// The backend: how to open an endpoint and read what it says of itself,
/// how to ask it for the range of a parameter, and how to put one trial to
/// a session opened for that trial alone. Each function takes the
/// endpoint's name and direction first.
pub struct Backend<D, B, T> {
    pub describe: D,
    pub bounds: B,
    pub trial: T,
}

impl<D, B, T> Backend<D, B, T> where
    D: Fn(&str, Direction) -> Option<PcmInfo>,
    B: Fn(&str, Direction, BoundsQuery) -> Option<(u32, u32)>,
    T: Fn(&str, Direction, Trial) -> bool,
 {
    /// Each of the three functions may be called with any arguments.
    pub open spec fn ready(&self) -> bool {
        &&& forall|name: &str, direction: Direction| call_requires(self.describe, (name, direction))
        &&& forall|name: &str, direction: Direction, query: BoundsQuery|
            call_requires(self.bounds, (name, direction, query))
        &&& forall|name: &str, direction: Direction, trial: Trial|
            call_requires(self.trial, (name, direction, trial))
    }

    /// `info` is an answer of the backend when asked to describe the
    /// endpoint of that name.
    pub open spec fn describes(
        &self,
        name: Seq<char>,
        direction: Direction,
        info: Option<InfoView>,
    ) -> bool {
        exists|n: &str, i: Option<PcmInfo>|
            n@ == name && info_view(i) == info && #[trigger] call_ensures(
                self.describe,
                (n, direction),
                i,
            )
    }

    /// `reply` is an answer of the backend to the query.
    pub open spec fn reports(
        &self,
        name: Seq<char>,
        direction: Direction,
        query: BoundsQuery,
        reply: Option<(u32, u32)>,
    ) -> bool {
        exists|n: &str|
            n@ == name && #[trigger] call_ensures(self.bounds, (n, direction, query), reply)
    }

    /// Acceptance is an answer of the backend to the trial.
    pub open spec fn accepts(&self, name: Seq<char>, direction: Direction, trial: Trial) -> bool {
        exists|n: &str|
            n@ == name && #[trigger] call_ensures(self.trial, (n, direction, trial), true)
    }

    /// Rejection is an answer of the backend to the trial.
    pub open spec fn rejects(&self, name: Seq<char>, direction: Direction, trial: Trial) -> bool {
        exists|n: &str|
            n@ == name && #[trigger] call_ensures(self.trial, (n, direction, trial), false)
    }

    /// The backend has one answer to each question, whichever way the
    /// endpoint's name is held in memory.
    pub open spec fn deterministic(&self) -> bool {
        &&& forall|name: Seq<char>, direction: Direction, a: Option<InfoView>, b: Option<InfoView>|
            #![trigger self.describes(name, direction, a), self.describes(name, direction, b)]
            self.describes(name, direction, a) && self.describes(name, direction, b) ==> a == b
        &&& forall|
            name: Seq<char>,
            direction: Direction,
            query: BoundsQuery,
            a: Option<(u32, u32)>,
            b: Option<(u32, u32)>,
        |
            #![trigger
                self.reports(name, direction, query, a),
                self.reports(name, direction, query, b)
            ]
            self.reports(name, direction, query, a) && self.reports(name, direction, query, b)
                ==> a == b
        &&& forall|name: Seq<char>, direction: Direction, trial: Trial|
            !(#[trigger] self.accepts(name, direction, trial) && self.rejects(
                name,
                direction,
                trial,
            ))
    }
}

} // verus!
