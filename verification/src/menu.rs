//! What a caller needs to let somebody choose among an endpoint's
//! configurations: the values on offer, the configurations left once a value
//! is chosen, and the reading of an answer.

use vstd::prelude::*;
use itertools::Itertools;
use crate::audio::{formats_ascending, lemma_rank_injective, SampleFormat};
use crate::ordered::ascending;
use crate::pcm::{config_views, ConfigView, ValidConfiguration};
use crate::policy::Axis;

verus! {

/// The members of `s`, each once, in the order in which they first occur.
pub open spec fn first_occurrences(s: Seq<u32>) -> Seq<u32>
    decreases s.len(),
{
    if s.len() == 0 {
        s
    } else {
        let rest = first_occurrences(s.drop_last());
        if rest.contains(s.last()) {
            rest
        } else {
            rest.push(s.last())
        }
    }
}

/// No member of `s` is less than an earlier one.
pub open spec fn sorted(s: Seq<u32>) -> bool {
    forall|i: int, j: int| 0 <= i < j < s.len() ==> s[i] <= s[j]
}

/// `Itertools::unique` on the numbers of a list, collected again. The
/// contract claims what the method's documentation says: each number is
/// kept once, where it first occurs, and the order is otherwise unchanged.
#[verifier::external_body]
fn unique(values: Vec<u32>) -> (kept: Vec<u32>)
    ensures
        kept@ == first_occurrences(values@),
{
    values.into_iter().unique().collect()
}

/// `sort` of slices on a list of numbers. The contract claims what the
/// method's documentation says: afterwards the list is in ascending order
/// and holds the same numbers, each as often as before.
#[verifier::external_body]
fn sort(values: &mut Vec<u32>)
    ensures
        sorted(final(values)@),
        final(values)@.to_multiset() == old(values)@.to_multiset(),
{
    values.sort();
}

/// The first occurrences of a sequence hold nothing twice and have the
/// members of the sequence.
pub proof fn lemma_first_occurrences(s: Seq<u32>)
    ensures
        first_occurrences(s).no_duplicates(),
        forall|v: u32| first_occurrences(s).contains(v) <==> s.contains(v),
    decreases s.len(),
{
    broadcast use vstd::seq_lib::lemma_seq_contains_after_push;

    if s.len() > 0 {
        let rest = s.drop_last();
        lemma_first_occurrences(rest);
        let kept = first_occurrences(rest);
        assert(s =~= rest.push(s.last()));
        if !kept.contains(s.last()) {
            let all = kept.push(s.last());
            assert forall|i: int, j: int|
                0 <= i < all.len() && 0 <= j < all.len() && i != j implies all[i] != all[j] by {
                if i < kept.len() && j < kept.len() {
                    assert(kept[i] != kept[j]);
                } else if i < kept.len() {
                    assert(kept.contains(kept[i]));
                } else {
                    assert(kept.contains(kept[j]));
                }
            }
        }
    }
}

/// The numbers of a list, each once, in ascending order.
pub fn distinct_sorted(values: Vec<u32>) -> (distinct: Vec<u32>)
    ensures
        ascending(distinct@),
        forall|v: u32| distinct@.contains(v) <==> values@.contains(v),
{
    let mut distinct = unique(values);
    let ghost kept = distinct@;
    sort(&mut distinct);
    proof {
        lemma_first_occurrences(values@);
        kept.lemma_multiset_has_no_duplicates();
        distinct@.lemma_multiset_has_no_duplicates_conv();
        assert forall|v: u32| distinct@.contains(v) <==> values@.contains(v) by {
            vstd::seq_lib::to_multiset_contains(distinct@, v);
            vstd::seq_lib::to_multiset_contains(kept, v);
        }
        assert forall|i: int, j: int| 0 <= i < j < distinct@.len() implies distinct@[i]
            < distinct@[j] by {
            assert(distinct@[i] <= distinct@[j]);
            assert(distinct@[i] != distinct@[j]);
        }
    }
    distinct
}

/// The value that a configuration has for a parameter.
pub open spec fn value_of(config: ConfigView, axis: Axis) -> u32 {
    match axis {
        Axis::Rate => config.rate,
        Axis::Channels => config.channels,
    }
}

/// Some configuration has the value for the parameter.
pub open spec fn offers(configs: Seq<ConfigView>, axis: Axis, value: u32) -> bool {
    exists|i: int| 0 <= i < configs.len() && value_of(#[trigger] configs[i], axis) == value
}

/// Some configuration has the format.
pub open spec fn offers_format(configs: Seq<ConfigView>, format: SampleFormat) -> bool {
    exists|i: int| 0 <= i < configs.len() && (#[trigger] configs[i]).format == format
}

/// The values that the configurations have for a parameter, each once, in
/// ascending order.
pub fn values_on_offer(configs: &Vec<ValidConfiguration>, axis: Axis) -> (values: Vec<u32>)
    ensures
        ascending(values@),
        forall|v: u32| values@.contains(v) <==> offers(config_views(configs@), axis, v),
{
    let mut all: Vec<u32> = Vec::new();
    let mut i: usize = 0;
    while i < configs.len()
        invariant
            i <= configs.len(),
            all@.len() == i,
            forall|k: int|
                0 <= k < i ==> #[trigger] all@[k] == value_of(config_views(configs@)[k], axis),
        decreases configs.len() - i,
    {
        let value = match axis {
            Axis::Rate => configs[i].rate,
            Axis::Channels => configs[i].channels,
        };
        all.push(value);
        i = i + 1;
    }
    let values = distinct_sorted(all);
    proof {
        let views = config_views(configs@);
        assert forall|v: u32| values@.contains(v) <==> offers(views, axis, v) by {
            if all@.contains(v) {
                let k = choose|k: int| 0 <= k < all@.len() && all@[k] == v;
                assert(value_of(views[k], axis) == v);
            }
            if offers(views, axis, v) {
                let k = choose|k: int|
                    0 <= k < views.len() && value_of(#[trigger] views[k], axis) == v;
                assert(all@[k] == v);
            }
        }
    }
    values
}

/// The formats that the configurations have, each once, in canonical
/// order.
pub fn formats_on_offer(configs: &Vec<ValidConfiguration>) -> (formats: Vec<SampleFormat>)
    ensures
        formats_ascending(formats@),
        forall|f: SampleFormat|
            formats@.contains(f) <==> offers_format(config_views(configs@), f),
{
    let mut all: Vec<u32> = Vec::new();
    let mut i: usize = 0;
    while i < configs.len()
        invariant
            i <= configs.len(),
            all@.len() == i,
            forall|k: int|
                0 <= k < i ==> #[trigger] all@[k] == config_views(configs@)[k].format.rank(),
        decreases configs.len() - i,
    {
        all.push(configs[i].format.index());
        i = i + 1;
    }
    let ranks = distinct_sorted(all);
    let mut formats: Vec<SampleFormat> = Vec::new();
    let mut k: usize = 0;
    while k < ranks.len()
        invariant
            k <= ranks.len(),
            formats@.len() == k,
            forall|v: u32| ranks@.contains(v) ==> all@.contains(v),
            forall|m: int| 0 <= m < all@.len() ==> #[trigger] all@[m] < 5,
            forall|m: int| 0 <= m < k ==> (#[trigger] formats@[m]).rank() == ranks@[m],
        decreases ranks.len() - k,
    {
        proof {
            assert(ranks@.contains(ranks@[k as int]));
            let at = choose|m: int| 0 <= m < all@.len() && all@[m] == ranks@[k as int];
            assert(all@[at] < 5);
        }
        match SampleFormat::from_index(ranks[k]) {
            Some(format) => {
                formats.push(format);
            },
            None => {},
        }
        k = k + 1;
    }
    proof {
        let views = config_views(configs@);
        assert forall|f: SampleFormat| formats@.contains(f) <==> offers_format(views, f) by {
            if formats@.contains(f) {
                let m = choose|m: int| 0 <= m < formats@.len() && formats@[m] == f;
                assert(ranks@.contains(ranks@[m]));
                let n = choose|n: int| 0 <= n < all@.len() && all@[n] == ranks@[m];
                lemma_rank_injective(views[n].format, f);
            }
            if offers_format(views, f) {
                let n = choose|n: int| 0 <= n < views.len() && (#[trigger] views[n]).format == f;
                assert(all@[n] == f.rank());
                assert(all@.contains(f.rank() as u32));
                let m = choose|m: int| 0 <= m < ranks@.len() && ranks@[m] == f.rank();
                lemma_rank_injective(formats@[m], f);
            }
        }
    }
    formats
}

/// A value chosen for one of the three parameters of a configuration.
#[derive(Clone, Copy, Debug, PartialEq, Eq, Structural)]
pub enum Choice {
    Format(SampleFormat),
    Rate(u32),
    Channels(u32),
}

/// Whether a configuration has the chosen value.
pub open spec fn matches_choice(config: ConfigView, choice: Choice) -> bool {
    match choice {
        Choice::Format(format) => config.format == format,
        Choice::Rate(rate) => config.rate == rate,
        Choice::Channels(channels) => config.channels == channels,
    }
}

/// `matches_choice` for one choice, as a predicate on configurations.
pub open spec fn matching(choice: Choice) -> spec_fn(ConfigView) -> bool {
    |config: ConfigView| matches_choice(config, choice)
}

/// The configurations that have the chosen value, in the order in which
/// they stand.
pub fn narrow(configs: Vec<ValidConfiguration>, choice: Choice) -> (left: Vec<ValidConfiguration>)
    ensures
        config_views(left@) == config_views(configs@).filter(matching(choice)),
{
    let ghost all = config_views(configs@);
    let mut configs = configs;
    let mut left: Vec<ValidConfiguration> = Vec::new();
    let ghost mut k: int = 0;
    assert(all.take(0) =~= Seq::<ConfigView>::empty());
    assert(config_views(left@) =~= Seq::<ConfigView>::empty());
    assert(Seq::<ConfigView>::empty().filter(matching(choice)) =~= Seq::<ConfigView>::empty()) by {
        reveal(Seq::filter);
    }
    while configs.len() > 0
        invariant
            0 <= k <= all.len(),
            configs@.len() == all.len() - k,
            config_views(configs@) == all.skip(k),
            config_views(left@) == all.take(k).filter(matching(choice)),
        decreases configs.len(),
    {
        let ghost waiting = configs@;
        let ghost kept = config_views(left@);
        let config = configs.remove(0);
        proof {
            assert(config@ == all[k]) by {
                assert(config_views(waiting)[0] == all.skip(k)[0]);
            }
            assert(config_views(configs@) =~= all.skip(k + 1)) by {
                assert forall|i: int| 0 <= i < configs@.len() implies config_views(configs@)[i]
                    == all.skip(k + 1)[i] by {
                    assert(configs@[i] == waiting[i + 1]);
                    assert(config_views(waiting)[i + 1] == all.skip(k)[i + 1]);
                }
            }
            assert(all.take(k + 1) =~= all.take(k).push(all[k]));
            all.take(k).lemma_filter_push(all[k], matching(choice));
        }
        let keep = match choice {
            Choice::Format(format) => config.format == format,
            Choice::Rate(rate) => config.rate == rate,
            Choice::Channels(channels) => config.channels == channels,
        };
        if keep {
            left.push(config);
            assert(config_views(left@) =~= kept.push(all[k]));
        }
        proof {
            k = k + 1;
        }
    }
    assert(all.take(k) =~= all);
    left
}

/// How far two numbers are apart.
pub open spec fn distance(a: u32, b: u32) -> int {
    if a >= b {
        a - b
    } else {
        b - a
    }
}

/// The choice that an answer is snapped to: the one nearest to the wanted
/// number, the earliest of several equally near. There is none unless the
/// wanted number lies between the first choice and the last.
pub open spec fn snapped(choices: Seq<u32>, wanted: u32, chosen: Option<u32>) -> bool {
    if choices.len() == 0 || wanted < choices.first() || wanted > choices.last() {
        chosen is None
    } else {
        &&& chosen is Some
        &&& exists|at: int|
            {
                &&& 0 <= at < choices.len()
                &&& #[trigger] choices[at] == chosen->0
                &&& forall|j: int|
                    0 <= j < at ==> distance(#[trigger] choices[j], wanted) > distance(
                        choices[at],
                        wanted,
                    )
                &&& forall|j: int|
                    at <= j < choices.len() ==> distance(#[trigger] choices[j], wanted)
                        >= distance(choices[at], wanted)
            }
    }
}

/// Snaps a wanted number to the nearest of the choices.
pub fn nearest(choices: &Vec<u32>, wanted: u32) -> (chosen: Option<u32>)
    ensures
        snapped(choices@, wanted, chosen),
{
    if choices.len() == 0 {
        return None;
    }
    if wanted < choices[0] || wanted > choices[choices.len() - 1] {
        return None;
    }
    let mut at: usize = 0;
    let mut i: usize = 1;
    while i < choices.len()
        invariant
            1 <= i <= choices.len(),
            at < i,
            forall|j: int|
                0 <= j < at ==> distance(#[trigger] choices@[j], wanted) > distance(
                    choices@[at as int],
                    wanted,
                ),
            forall|j: int|
                at <= j < i ==> distance(#[trigger] choices@[j], wanted) >= distance(
                    choices@[at as int],
                    wanted,
                ),
        decreases choices.len() - i,
    {
        if apart(choices[i], wanted) < apart(choices[at], wanted) {
            at = i;
        }
        i = i + 1;
    }
    assert(choices@[at as int] == choices[at as int]);
    Some(choices[at])
}

/// How far two numbers are apart, computed.
pub fn apart(a: u32, b: u32) -> (d: u32)
    ensures
        d == distance(a, b),
{
    if a >= b {
        a - b
    } else {
        b - a
    }
}

/// Whether a character is a decimal digit.
pub open spec fn is_digit(c: char) -> bool {
    0x30 <= c as u32 <= 0x39
}

/// The number that a sequence of decimal digits writes.
pub open spec fn digits_value(s: Seq<char>) -> int
    decreases s.len(),
{
    if s.len() == 0 {
        0
    } else {
        digits_value(s.drop_last()) * 10 + (s.last() as u32 - 0x30)
    }
}

/// The digits of a text that may start with a plus sign.
pub open spec fn digits_of(text: Seq<char>) -> Seq<char> {
    if text.len() > 0 && text[0] == '+' {
        text.skip(1)
    } else {
        text
    }
}

/// The number that a text writes: decimal digits, at least one, with or
/// without a plus sign before them and nothing else, and a value of at most
/// 64 bits.
pub open spec fn number_of(text: Seq<char>) -> Option<u64> {
    let digits = digits_of(text);
    if digits.len() > 0 && (forall|i: int| 0 <= i < digits.len() ==> is_digit(#[trigger] digits[i]))
        && digits_value(digits) <= u64::MAX {
        Some(digits_value(digits) as u64)
    } else {
        None
    }
}

/// A longer run of digits writes no smaller number than its start.
pub proof fn lemma_digits_grow(s: Seq<char>, k: int)
    requires
        0 <= k <= s.len(),
        forall|i: int| 0 <= i < s.len() ==> is_digit(#[trigger] s[i]),
    ensures
        digits_value(s.take(k)) <= digits_value(s),
        0 <= digits_value(s.take(k)),
    decreases s.len() - k,
{
    if k == s.len() {
        assert(s.take(k) =~= s);
        lemma_digits_positive(s);
    } else {
        lemma_digits_grow(s, k + 1);
        assert(s.take(k + 1).drop_last() =~= s.take(k));
        assert(s.take(k + 1).last() == s[k]);
        assert(is_digit(s[k]));
        lemma_digits_positive(s.take(k));
    }
}

proof fn lemma_digits_positive(s: Seq<char>)
    requires
        forall|i: int| 0 <= i < s.len() ==> is_digit(#[trigger] s[i]),
    ensures
        0 <= digits_value(s),
    decreases s.len(),
{
    if s.len() > 0 {
        assert forall|i: int| 0 <= i < s.drop_last().len() implies is_digit(
            #[trigger] s.drop_last()[i],
        ) by {
            assert(s.drop_last()[i] == s[i]);
        }
        lemma_digits_positive(s.drop_last());
        assert(is_digit(s[s.len() - 1]));
    }
}

/// Reads the number that a text writes.
pub fn parse_number(text: &str) -> (number: Option<u64>)
    ensures
        number == number_of(text@),
{
    let len = text.unicode_len();
    let start: usize = if len > 0 && text.get_char(0) == '+' {
        1
    } else {
        0
    };
    let ghost digits = digits_of(text@);
    assert(digits =~= text@.skip(start as int));
    if start == len {
        return None;
    }
    let mut value: u64 = 0;
    let mut i: usize = start;
    assert(digits.take(0) =~= Seq::<char>::empty());
    while i < len
        invariant
            start <= i <= len,
            len == text@.len(),
            digits == digits_of(text@),
            digits == text@.skip(start as int),
            digits.len() == len - start,
            forall|k: int| 0 <= k < i - start ==> is_digit(#[trigger] digits[k]),
            value == digits_value(digits.take(i - start)),
        decreases len - i,
    {
        let c = text.get_char(i);
        let code: u32 = c as u32;
        assert(digits[i - start] == c);
        if code < 0x30 || code > 0x39 {
            assert(!is_digit(digits[i - start]));
            return None;
        }
        let digit: u64 = (code - 0x30) as u64;
        proof {
            assert(digits.take(i - start + 1).drop_last() =~= digits.take(i - start));
            assert(digits.take(i - start + 1).last() == c);
            assert(digits_value(digits.take(i - start + 1)) == value * 10 + digit);
        }
        if value > (u64::MAX - digit) / 10 {
            proof {
                assert(value * 10 + digit > u64::MAX);
                if forall|k: int| 0 <= k < digits.len() ==> is_digit(#[trigger] digits[k]) {
                    lemma_digits_grow(digits, i - start + 1);
                }
            }
            return None;
        }
        value = value * 10 + digit;
        i = i + 1;
    }
    assert(digits.take(len - start) =~= digits);
    Some(value)
}

/// The place in a list of `len` entries that a number counted from one
/// points at.
pub open spec fn place_of(number: Option<u64>, len: usize) -> Option<usize> {
    match number {
        Some(n) => if 1 <= n <= len {
            Some((n - 1) as usize)
        } else {
            None
        },
        None => None,
    }
}

/// The place in a list of `len` entries that an answer points at, if the
/// answer is a number from one to `len`.
pub fn pick_a_number(answer: &str, len: usize) -> (place: Option<usize>)
    ensures
        place == place_of(number_of(answer@), len),
{
    match parse_number(answer) {
        Some(n) => {
            if 1 <= n && n <= len as u64 {
                Some((n - 1) as usize)
            } else {
                None
            }
        },
        None => None,
    }
}

/// The choice that an answer is snapped to, if the answer is a number
/// between the first choice and the last.
pub fn pick_from_choices(answer: &str, choices: &Vec<u32>) -> (chosen: Option<u32>)
    ensures
        match number_of(answer@) {
            Some(n) => if n <= u32::MAX {
                snapped(choices@, n as u32, chosen)
            } else {
                chosen is None
            },
            None => chosen is None,
        },
{
    match parse_number(answer) {
        Some(n) => {
            if n <= u32::MAX as u64 {
                nearest(choices, n as u32)
            } else {
                None
            }
        },
        None => None,
    }
}

/// How the buffer time of a configuration is to be settled.
#[derive(Clone, Copy, Debug, PartialEq, Eq, Structural)]
pub enum BufferMenu {
    /// Several buffer times are on offer: ask.
    Ask,
    /// One buffer time is on offer: take it.
    Only(u32),
    /// None is on offer: keep the configuration's recommendation.
    Recommended,
}

/// How the buffer time is to be settled, given the buffer times that the
/// endpoint was seen to take.
pub fn buffer_menu(times: &Vec<u32>) -> (menu: BufferMenu)
    ensures
        menu == if times@.len() > 1 {
            BufferMenu::Ask
        } else if times@.len() == 1 {
            BufferMenu::Only(times@[0])
        } else {
            BufferMenu::Recommended
        },
{
    if times.len() > 1 {
        BufferMenu::Ask
    } else if times.len() == 1 {
        BufferMenu::Only(times[0])
    } else {
        BufferMenu::Recommended
    }
}

} // verus!
