//! The card key: the part of an endpoint's name that says which card the
//! endpoint belongs to.
//!
//! A name such as `hw:CARD=PCH,DEV=0` has fields separated by commas. The
//! key is the first field without what stands before its first `=`, that
//! sign included, and without white space at either end. A first field
//! without `=` is taken whole.

use vstd::prelude::*;

verus! {

/// Where the first `c` stands in `s`; the length of `s` if there is none.
pub open spec fn first_at(s: Seq<char>, c: char) -> int {
    match s.index_of_first(c) {
        Some(i) => i,
        None => s.len() as int,
    }
}

/// The first `c` in `s` stands at `p` if there is none before `p` and
/// either one at `p` or `p` is the length of `s`.
pub proof fn lemma_first_at(s: Seq<char>, c: char, p: int)
    requires
        0 <= p <= s.len(),
        forall|j: int| 0 <= j < p ==> s[j] != c,
        p < s.len() ==> s[p] == c,
    ensures
        first_at(s, c) == p,
{
    s.index_of_first_ensures(c);
    match s.index_of_first(c) {
        Some(i) => {
            if p == s.len() {
                assert(s[i] == c);
            } else if i < p {
                assert(s[i] == c);
            } else if p < i {
                assert(s[p] == c);
            }
        },
        None => {
            if p < s.len() {
                assert(s.contains(s[p]));
            }
        },
    }
}

/// White space, as Unicode has it.
pub open spec fn is_space(c: char) -> bool {
    let code = c as u32;
    ||| 0x09 <= code <= 0x0D
    ||| code == 0x20
    ||| code == 0x85
    ||| code == 0xA0
    ||| code == 0x1680
    ||| 0x2000 <= code <= 0x200A
    ||| code == 0x2028
    ||| code == 0x2029
    ||| code == 0x202F
    ||| code == 0x205F
    ||| code == 0x3000
}

/// `s` without the white space at its start.
pub open spec fn trim_start(s: Seq<char>) -> Seq<char>
    decreases s.len(),
{
    if s.len() > 0 && is_space(s.first()) {
        trim_start(s.drop_first())
    } else {
        s
    }
}

/// `s` without the white space at its end.
pub open spec fn trim_end(s: Seq<char>) -> Seq<char>
    decreases s.len(),
{
    if s.len() > 0 && is_space(s.last()) {
        trim_end(s.drop_last())
    } else {
        s
    }
}

/// `s` without the white space at either end.
pub open spec fn trimmed(s: Seq<char>) -> Seq<char> {
    trim_end(trim_start(s))
}

/// The card key of an endpoint's name.
pub open spec fn card_key_of(name: Seq<char>) -> Seq<char> {
    let field = name.take(first_at(name, ','));
    let sign = first_at(field, '=');
    let value = if sign < field.len() {
        field.skip(sign + 1)
    } else {
        field
    };
    trimmed(value)
}

/// Trimming the start drops exactly the white space that stands before the
/// first other character.
pub proof fn lemma_trim_start(s: Seq<char>, k: int)
    requires
        0 <= k <= s.len(),
        forall|j: int| 0 <= j < k ==> is_space(#[trigger] s[j]),
        k < s.len() ==> !is_space(s[k]),
    ensures
        trim_start(s) == s.skip(k),
    decreases k,
{
    if k == 0 {
        assert(s.skip(0) =~= s);
    } else {
        assert(is_space(s[0]));
        let rest = s.drop_first();
        assert forall|j: int| 0 <= j < k - 1 implies is_space(#[trigger] rest[j]) by {
            assert(rest[j] == s[j + 1]);
        }
        lemma_trim_start(rest, k - 1);
        assert(rest.skip(k - 1) =~= s.skip(k));
    }
}

/// Trimming the end drops exactly the white space that stands behind the
/// last other character.
pub proof fn lemma_trim_end(s: Seq<char>, k: int)
    requires
        0 <= k <= s.len(),
        forall|j: int| k <= j < s.len() ==> is_space(#[trigger] s[j]),
        k > 0 ==> !is_space(s[k - 1]),
    ensures
        trim_end(s) == s.take(k),
    decreases s.len() - k,
{
    if k == s.len() {
        assert(s.take(k) =~= s);
    } else {
        assert(is_space(s[s.len() - 1]));
        let rest = s.drop_last();
        lemma_trim_end(rest, k);
        assert(rest.take(k) =~= s.take(k));
    }
}

/// Whether a character is white space, computed.
pub fn is_space_char(c: char) -> (r: bool)
    ensures
        r == is_space(c),
{
    let code: u32 = c as u32;
    (0x09 <= code && code <= 0x0D) || code == 0x20 || code == 0x85 || code == 0xA0 || code
        == 0x1680 || (0x2000 <= code && code <= 0x200A) || code == 0x2028 || code == 0x2029
        || code == 0x202F || code == 0x205F || code == 0x3000
}

/// Where the first `c` stands among the first `end` characters of `text`;
/// `end` if there is none.
fn find_before(text: &str, c: char, end: usize) -> (p: usize)
    requires
        end <= text@.len(),
    ensures
        p == first_at(text@.take(end as int), c),
        p <= end,
{
    let mut p: usize = 0;
    let mut found: bool = false;
    while p < end && !found
        invariant
            end <= text@.len(),
            p <= end,
            forall|j: int| 0 <= j < p ==> text@[j] != c,
            found ==> p < end && text@[p as int] == c,
        decreases end - p + (if found { 0int } else { 1int }),
    {
        if text.get_char(p) == c {
            found = true;
        } else {
            p = p + 1;
        }
    }
    proof {
        lemma_first_at(text@.take(end as int), c, p as int);
    }
    p
}

/// The card key of an endpoint's name.
pub fn card_key(name: &str) -> (key: String)
    ensures
        key@ == card_key_of(name@),
{
    let len = name.unicode_len();
    let comma = find_before(name, ',', len);
    assert(name@.take(len as int) =~= name@);
    let sign = find_before(name, '=', comma);
    let start: usize = if sign < comma {
        sign + 1
    } else {
        0
    };
    let ghost field = name@.take(comma as int);
    let ghost value = name@.subrange(start as int, comma as int);
    assert(value =~= if sign < field.len() {
        field.skip(sign + 1)
    } else {
        field
    });
    let mut from: usize = start;
    let mut more: bool = true;
    while from < comma && more
        invariant
            start <= from <= comma <= name@.len(),
            forall|j: int| start <= j < from ==> is_space(#[trigger] name@[j]),
            !more ==> from < comma && !is_space(name@[from as int]),
        decreases comma - from + (if more { 1int } else { 0int }),
    {
        if is_space_char(name.get_char(from)) {
            from = from + 1;
        } else {
            more = false;
        }
    }
    let mut to: usize = comma;
    more = true;
    while to > from && more
        invariant
            from <= to <= comma <= name@.len(),
            forall|j: int| to <= j < comma ==> is_space(#[trigger] name@[j]),
            !more ==> to > from && !is_space(name@[to - 1]),
        decreases to - from + (if more { 1int } else { 0int }),
    {
        if is_space_char(name.get_char(to - 1)) {
            to = to - 1;
        } else {
            more = false;
        }
    }
    proof {
        assert forall|j: int| 0 <= j < from - start implies is_space(#[trigger] value[j]) by {
            assert(value[j] == name@[start + j]);
        }
        lemma_trim_start(value, from - start);
        let tail = value.skip(from - start);
        assert(tail =~= name@.subrange(from as int, comma as int));
        assert forall|j: int| to - from <= j < tail.len() implies is_space(#[trigger] tail[j]) by {
            assert(tail[j] == name@[from + j]);
        }
        if to > from {
            assert(tail[to - from - 1] == name@[to - 1]);
        }
        lemma_trim_end(tail, to - from);
        assert(tail.take(to - from) =~= name@.subrange(from as int, to as int));
    }
    String::from_str(name.substring_char(from, to))
}

} // verus!
