//! Names of sample-rate converters, read off the paths of their plugin
//! files.
//!
//! A plugin file is called `libasound_module_rate_NAME.so`, possibly with a
//! version behind it. The name is what stands between the first
//! `/libasound_module_rate_` in the path and the first `.so` behind it.

use vstd::prelude::*;
use crate::card::{is_space, is_space_char, lemma_trim_end, lemma_trim_start, trimmed};

verus! {

/// What stands before a converter's name in the path of its plugin file.
pub const CONVERTERS_PREFIX: &'static str = "/libasound_module_rate_";

/// What stands behind a converter's name in the path of its plugin file.
pub const CONVERTERS_SUFFIX: &'static str = ".so";

/// `pattern` stands in `text` at `at`.
pub open spec fn occurs_at(text: Seq<char>, pattern: Seq<char>, at: int) -> bool {
    &&& 0 <= at
    &&& at + pattern.len() <= text.len()
    &&& text.subrange(at, at + pattern.len()) == pattern
}

/// `at` is the first place in `text` where `pattern` stands.
pub open spec fn first_occurs_at(text: Seq<char>, pattern: Seq<char>, at: int) -> bool {
    &&& occurs_at(text, pattern, at)
    &&& forall|j: int| 0 <= j < at ==> !occurs_at(text, pattern, j)
}

/// The first place in `text` where `pattern` stands, if it stands
/// anywhere.
pub open spec fn first_occurrence(text: Seq<char>, pattern: Seq<char>) -> Option<int> {
    if exists|at: int| first_occurs_at(text, pattern, at) {
        Some(choose|at: int| first_occurs_at(text, pattern, at))
    } else {
        None
    }
}

/// The name in the path of a converter's plugin file: what stands behind
/// the first prefix, or the whole path if there is none, up to the first
/// suffix behind that, or to the end if there is none, without white space
/// at either end.
pub open spec fn converter_name_of(path: Seq<char>) -> Seq<char> {
    let start = match first_occurrence(path, CONVERTERS_PREFIX@) {
        Some(at) => at + CONVERTERS_PREFIX@.len(),
        None => 0,
    };
    let rest = path.skip(start);
    let end = match first_occurrence(rest, CONVERTERS_SUFFIX@) {
        Some(at) => at,
        None => rest.len() as int,
    };
    trimmed(rest.take(end))
}

/// Whether `pattern` stands in `text` at `at`, counted from `from`.
fn stands_at(text: &str, pattern: &str, from: usize, at: usize) -> (r: bool)
    requires
        from <= text@.len(),
        from + at + pattern@.len() <= text@.len(),
    ensures
        r == occurs_at(text@.skip(from as int), pattern@, at as int),
{
    let len = pattern.unicode_len();
    let total = text.unicode_len();
    let ghost rest = text@.skip(from as int);
    let mut i: usize = 0;
    while i < len
        invariant
            len == pattern@.len(),
            total == text@.len(),
            from + at + len <= text@.len(),
            rest == text@.skip(from as int),
            i <= len,
            forall|k: int| 0 <= k < i ==> rest[at + k] == pattern@[k],
        decreases len - i,
    {
        assert(rest[at + i] == text@[from + at + i]);
        if text.get_char(from + at + i) != pattern.get_char(i) {
            assert(rest.subrange(at as int, at + len)[i as int] != pattern@[i as int]);
            return false;
        }
        i = i + 1;
    }
    assert(rest.subrange(at as int, at + len) =~= pattern@);
    true
}

/// The first place behind `from` where `pattern` stands in `text`,
/// counted from `from`.
fn find_from(text: &str, pattern: &str, from: usize) -> (found: Option<usize>)
    requires
        from <= text@.len(),
    ensures
        match found {
            Some(at) => first_occurrence(text@.skip(from as int), pattern@) == Some(at as int),
            None => first_occurrence(text@.skip(from as int), pattern@) is None,
        },
{
    let len = text.unicode_len();
    let width = pattern.unicode_len();
    let ghost rest = text@.skip(from as int);
    if width > len - from {
        assert forall|at: int| !first_occurs_at(rest, pattern@, at) by {}
        return None;
    }
    let last: usize = len - from - width;
    let mut at: usize = 0;
    let mut done: bool = false;
    while !done
        invariant
            len == text@.len(),
            width == pattern@.len(),
            from + width <= len,
            last == len - from - width,
            rest == text@.skip(from as int),
            at <= last,
            forall|j: int| 0 <= j < at ==> !occurs_at(rest, pattern@, j),
            done ==> at == last && !occurs_at(rest, pattern@, at as int),
        decreases last - at + (if done { 0int } else { 1int }),
    {
        if stands_at(text, pattern, from, at) {
            assert(first_occurs_at(rest, pattern@, at as int));
            proof {
                let chosen = choose|c: int| first_occurs_at(rest, pattern@, c);
                if chosen < at {
                    assert(!occurs_at(rest, pattern@, chosen));
                } else if chosen > at {
                    assert(occurs_at(rest, pattern@, at as int));
                }
            }
            return Some(at);
        }
        if at == last {
            done = true;
        } else {
            at = at + 1;
        }
    }
    assert forall|c: int| !first_occurs_at(rest, pattern@, c) by {
        if 0 <= c <= last {
            assert(!occurs_at(rest, pattern@, c));
        }
    }
    None
}

/// The name of a converter, read off the path of its plugin file.
pub fn converter_name(path: &str) -> (name: String)
    ensures
        name@ == converter_name_of(path@),
{
    let len = path.unicode_len();
    assert(path@.skip(0) =~= path@);
    let start: usize = match find_from(path, CONVERTERS_PREFIX, 0) {
        Some(at) => {
            proof {
                assert(first_occurs_at(path@, CONVERTERS_PREFIX@, at as int));
            }
            at + CONVERTERS_PREFIX.unicode_len()
        },
        None => 0,
    };
    let ghost rest = path@.skip(start as int);
    let end: usize = match find_from(path, CONVERTERS_SUFFIX, start) {
        Some(at) => {
            proof {
                assert(first_occurs_at(rest, CONVERTERS_SUFFIX@, at as int));
            }
            start + at
        },
        None => len,
    };
    let ghost raw = rest.take(end - start);
    assert(raw =~= path@.subrange(start as int, end as int));
    let mut from: usize = start;
    let mut more: bool = true;
    while from < end && more
        invariant
            start <= from <= end <= path@.len(),
            forall|j: int| start <= j < from ==> is_space(#[trigger] path@[j]),
            !more ==> from < end && !is_space(path@[from as int]),
        decreases end - from + (if more { 1int } else { 0int }),
    {
        if is_space_char(path.get_char(from)) {
            from = from + 1;
        } else {
            more = false;
        }
    }
    let mut to: usize = end;
    more = true;
    while to > from && more
        invariant
            from <= to <= end <= path@.len(),
            forall|j: int| to <= j < end ==> is_space(#[trigger] path@[j]),
            !more ==> to > from && !is_space(path@[to - 1]),
        decreases to - from + (if more { 1int } else { 0int }),
    {
        if is_space_char(path.get_char(to - 1)) {
            to = to - 1;
        } else {
            more = false;
        }
    }
    proof {
        assert forall|j: int| 0 <= j < from - start implies is_space(#[trigger] raw[j]) by {
            assert(raw[j] == path@[start + j]);
        }
        lemma_trim_start(raw, from - start);
        let tail = raw.skip(from - start);
        assert(tail =~= path@.subrange(from as int, end as int));
        assert forall|j: int| to - from <= j < tail.len() implies is_space(#[trigger] tail[j]) by {
            assert(tail[j] == path@[from + j]);
        }
        if to > from {
            assert(tail[to - from - 1] == path@[to - 1]);
        }
        lemma_trim_end(tail, to - from);
        assert(tail.take(to - from) =~= path@.subrange(from as int, to as int));
    }
    String::from_str(path.substring_char(from, to))
}

} // verus!
