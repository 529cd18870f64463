//! Sequences in strictly increasing order.
//!
//! Every list the engine hands out (formats, rates, channel counts,
//! configurations, buffer times) is strictly increasing under some key. Such
//! a list holds nothing twice and is fixed by its members alone, which is
//! what the lemmas here say.

use vstd::prelude::*;
use vstd::set_lib::*;

verus! {

/// `s` is strictly increasing under `key`.
pub open spec fn ascending_by<T>(s: Seq<T>, key: spec_fn(T) -> int) -> bool {
    forall|i: int, j: int| 0 <= i < j < s.len() ==> key(s[i]) < key(s[j])
}

/// `s` is strictly increasing.
pub open spec fn ascending(s: Seq<u32>) -> bool {
    forall|i: int, j: int| 0 <= i < j < s.len() ==> s[i] < s[j]
}

/// Every member of `a` is a member of `b`.
pub open spec fn within<T>(a: Seq<T>, b: Seq<T>) -> bool {
    forall|x: T| a.contains(x) ==> b.contains(x)
}

/// A sequence that is strictly increasing under some key holds nothing
/// twice.
pub proof fn lemma_ascending_no_duplicates<T>(s: Seq<T>, key: spec_fn(T) -> int)
    requires
        ascending_by(s, key),
    ensures
        s.no_duplicates(),
{
    assert forall|i: int, j: int| 0 <= i < s.len() && 0 <= j < s.len() && i != j implies s[i]
        != s[j] by {
        if i < j {
            assert(key(s[i]) < key(s[j]));
        } else {
            assert(key(s[j]) < key(s[i]));
        }
    }
}

/// Of two strictly increasing sequences, one whose members all occur in
/// the other is no longer than the other.
pub proof fn lemma_ascending_within_len<T>(a: Seq<T>, b: Seq<T>, key: spec_fn(T) -> int)
    requires
        ascending_by(a, key),
        ascending_by(b, key),
        within(a, b),
    ensures
        a.len() <= b.len(),
{
    lemma_ascending_no_duplicates(a, key);
    lemma_ascending_no_duplicates(b, key);
    a.unique_seq_to_set();
    b.unique_seq_to_set();
    vstd::seq_lib::seq_to_set_is_finite(a);
    vstd::seq_lib::seq_to_set_is_finite(b);
    assert(a.to_set().subset_of(b.to_set()));
    lemma_len_subset(a.to_set(), b.to_set());
}

/// Two sequences that are strictly increasing under the same key and have
/// the same members are the same sequence.
pub proof fn lemma_ascending_unique<T>(a: Seq<T>, b: Seq<T>, key: spec_fn(T) -> int)
    requires
        ascending_by(a, key),
        ascending_by(b, key),
        within(a, b),
        within(b, a),
    ensures
        a == b,
    decreases a.len(),
{
    lemma_ascending_within_len(a, b, key);
    lemma_ascending_within_len(b, a, key);
    if a.len() > 0 {
        let n = a.len() - 1;
        // The last member of each is the member with the greatest key.
        assert(b.contains(a[n]));
        let j = choose|j: int| 0 <= j < b.len() && b[j] == a[n];
        assert(a.contains(b[n]));
        let i = choose|i: int| 0 <= i < a.len() && a[i] == b[n];
        if j < n {
            assert(key(b[j]) < key(b[n]));
            if i < n {
                assert(key(a[i]) < key(a[n]));
            }
        }
        assert(a[n] == b[n]);
        let a0 = a.drop_last();
        let b0 = b.drop_last();
        assert forall|x: T| a0.contains(x) implies b0.contains(x) by {
            let k = choose|k: int| 0 <= k < a0.len() && a0[k] == x;
            assert(a[k] == x);
            assert(key(a[k]) < key(a[n]));
            assert(b.contains(x));
            let m = choose|m: int| 0 <= m < b.len() && b[m] == x;
            assert(m != n);
            assert(b0[m] == x);
        }
        assert forall|x: T| b0.contains(x) implies a0.contains(x) by {
            let k = choose|k: int| 0 <= k < b0.len() && b0[k] == x;
            assert(b[k] == x);
            assert(key(b[k]) < key(b[n]));
            assert(a.contains(x));
            let m = choose|m: int| 0 <= m < a.len() && a[m] == x;
            assert(m != n);
            assert(a0[m] == x);
        }
        lemma_ascending_unique(a0, b0, key);
        assert(a =~= a0.push(a[n]));
        assert(b =~= b0.push(b[n]));
    } else {
        assert(a =~= b);
    }
}

/// Of two strictly increasing sequences of the same length, one whose
/// members all occur in the other is the other.
pub proof fn lemma_ascending_within_same_len<T>(a: Seq<T>, b: Seq<T>, key: spec_fn(T) -> int)
    requires
        ascending_by(a, key),
        ascending_by(b, key),
        within(a, b),
        a.len() == b.len(),
    ensures
        a == b,
{
    lemma_ascending_no_duplicates(a, key);
    lemma_ascending_no_duplicates(b, key);
    a.unique_seq_to_set();
    b.unique_seq_to_set();
    vstd::seq_lib::seq_to_set_is_finite(a);
    vstd::seq_lib::seq_to_set_is_finite(b);
    assert(a.to_set().subset_of(b.to_set()));
    lemma_subset_equality(a.to_set(), b.to_set());
    assert forall|x: T| b.contains(x) implies a.contains(x) by {
        assert(b.to_set().contains(x));
        assert(a.to_set().contains(x));
    }
    lemma_ascending_unique(a, b, key);
}

/// Dropping members from a strictly increasing sequence leaves it
/// strictly increasing.
pub proof fn lemma_filter_ascending<T>(s: Seq<T>, key: spec_fn(T) -> int, keep: spec_fn(T) -> bool)
    requires
        ascending_by(s, key),
    ensures
        ascending_by(s.filter(keep), key),
        within(s.filter(keep), s),
    decreases s.len(),
{
    reveal(Seq::filter);
    if s.len() > 0 {
        let rest = s.drop_last();
        lemma_filter_ascending(rest, key, keep);
        let kept = rest.filter(keep);
        assert forall|x: T| kept.contains(x) implies s.contains(x) by {
            assert(rest.contains(x));
            let k = choose|k: int| 0 <= k < rest.len() && rest[k] == x;
            assert(s[k] == x);
        }
        if keep(s.last()) {
            let all = kept.push(s.last());
            assert forall|i: int, j: int| 0 <= i < j < all.len() implies key(all[i]) < key(
                all[j],
            ) by {
                if j == kept.len() {
                    assert(kept.contains(kept[i]));
                    assert(rest.contains(kept[i]));
                    let k = choose|k: int| 0 <= k < rest.len() && rest[k] == kept[i];
                    assert(key(s[k]) < key(s[s.len() - 1]));
                } else {
                    assert(key(kept[i]) < key(kept[j]));
                }
            }
            assert forall|x: T| all.contains(x) implies s.contains(x) by {
                let k = choose|k: int| 0 <= k < all.len() && all[k] == x;
                if k == kept.len() {
                    assert(s[s.len() - 1] == x);
                } else {
                    assert(kept.contains(kept[k]));
                }
            }
        }
    }
}

/// The key under which `ascending` orders numbers: the number itself.
pub open spec fn number_key() -> spec_fn(u32) -> int {
    |v: u32| v as int
}

/// `ascending` is `ascending_by` under the number itself.
pub proof fn lemma_ascending_is_by_number(s: Seq<u32>)
    ensures
        ascending(s) <==> ascending_by(s, number_key()),
{
    if ascending(s) {
        assert forall|i: int, j: int| 0 <= i < j < s.len() implies number_key()(s[i])
            < number_key()(s[j]) by {}
    }
    if ascending_by(s, number_key()) {
        assert forall|i: int, j: int| 0 <= i < j < s.len() implies s[i] < s[j] by {
            assert(number_key()(s[i]) < number_key()(s[j]));
        }
    }
}

} // verus!
