//! The two small vocabularies every other module speaks: stream direction
//! and sample format.

use vstd::prelude::*;
use crate::ordered::{ascending_by, lemma_ascending_unique, within};

verus! {

/// Direction of an endpoint's stream.
#[derive(Clone, Copy, Debug, PartialEq, Eq, Hash, Structural)]
pub enum Direction {
    Playback,
    Capture,
}

/// The sample formats the engine probes for, each in the byte order of the
/// host.
#[derive(Clone, Copy, Debug, PartialEq, Eq, Hash, Structural)]
pub enum SampleFormat {
    /// Unsigned 8 bit.
    U8,
    /// Signed 16 bit.
    S16,
    /// Signed 24 bit, packed in 3 bytes.
    S24Packed,
    /// Signed 24 bit, in the low three bytes of a 4 byte word.
    S24,
    /// Signed 32 bit.
    S32,
}

impl SampleFormat {
    /// Position of the format in the canonical probing order.
    pub open spec fn rank(self) -> int {
        match self {
            SampleFormat::U8 => 0,
            SampleFormat::S16 => 1,
            SampleFormat::S24Packed => 2,
            SampleFormat::S24 => 3,
            SampleFormat::S32 => 4,
        }
    }

    /// The format's rank as a machine integer.
    pub fn index(self) -> (r: u32)
        ensures
            r == self.rank(),
    {
        match self {
            SampleFormat::U8 => 0,
            SampleFormat::S16 => 1,
            SampleFormat::S24Packed => 2,
            SampleFormat::S24 => 3,
            SampleFormat::S32 => 4,
        }
    }

    /// The format of a given rank, if there is one.
    pub fn from_index(index: u32) -> (r: Option<SampleFormat>)
        ensures
            index < 5 ==> r.is_some() && r.unwrap().rank() == index,
            index >= 5 ==> r.is_none(),
    {
        if index == 0 {
            Some(SampleFormat::U8)
        } else if index == 1 {
            Some(SampleFormat::S16)
        } else if index == 2 {
            Some(SampleFormat::S24Packed)
        } else if index == 3 {
            Some(SampleFormat::S24)
        } else if index == 4 {
            Some(SampleFormat::S32)
        } else {
            None
        }
    }
}

/// `s` is in canonical order and holds no format twice.
pub open spec fn formats_ascending(s: Seq<SampleFormat>) -> bool {
    forall|i: int, j: int| 0 <= i < j < s.len() ==> s[i].rank() < s[j].rank()
}

/// The key under which `formats_ascending` orders formats: the rank.
pub open spec fn format_key() -> spec_fn(SampleFormat) -> int {
    |f: SampleFormat| f.rank()
}

/// `formats_ascending` is `ascending_by` under the rank.
pub proof fn lemma_formats_ascending_is_by_rank(s: Seq<SampleFormat>)
    ensures
        formats_ascending(s) <==> ascending_by(s, format_key()),
{
    if formats_ascending(s) {
        assert forall|i: int, j: int| 0 <= i < j < s.len() implies format_key()(s[i])
            < format_key()(s[j]) by {
            assert(s[i].rank() < s[j].rank());
        }
    }
    if ascending_by(s, format_key()) {
        assert forall|i: int, j: int| 0 <= i < j < s.len() implies s[i].rank() < s[j].rank() by {
            assert(format_key()(s[i]) < format_key()(s[j]));
        }
    }
}

/// Two lists of formats in canonical order with the same members are the
/// same list.
pub proof fn lemma_formats_unique(a: Seq<SampleFormat>, b: Seq<SampleFormat>)
    requires
        formats_ascending(a),
        formats_ascending(b),
        within(a, b),
        within(b, a),
    ensures
        a == b,
{
    lemma_formats_ascending_is_by_rank(a);
    lemma_formats_ascending_is_by_rank(b);
    lemma_ascending_unique(a, b, format_key());
}

/// Two formats of the same rank are the same format.
pub proof fn lemma_rank_injective(a: SampleFormat, b: SampleFormat)
    requires
        a.rank() == b.rank(),
    ensures
        a == b,
{
}

} // verus!
