//! Mathematical model of the bitonic sorting network.
//!
//! The executable engine is deterministic once the comparator's verdicts are
//! fixed, so its behaviour is captured by spec functions that mirror the
//! network: one compare-and-swap pass (`cas_spec`), the bitonic merge
//! (`sub_sort_spec`) and the full sort (`do_sort_spec`).  The contracts of the
//! executable functions state that the result equals these functions of the
//! input, for every mathematical comparator that pins the closure down.

use vstd::prelude::*;
use vstd::std_specs::cmp::OrdSpec;
use core::cmp::Ordering;

verus! {

/// A mathematical comparator: a total function from two elements to a verdict.
pub type SpecComparator<T> = spec_fn(T, T) -> Ordering;

/// The closure `f` may be called on any pair of borrowed elements.
pub open spec fn callable<T, F: Fn(&T, &T) -> Ordering>(f: F) -> bool {
    forall|a: &T, b: &T| #[trigger] call_requires(f, (a, b))
}

/// Every verdict the closure `f` can return is the one given by the
/// mathematical comparator `c`.  A pure, deterministic comparator is modelled
/// by exactly one such `c` (up to the pairs it is ever called on).
pub open spec fn models<T, F: Fn(&T, &T) -> Ordering>(f: F, c: SpecComparator<T>) -> bool {
    forall|a: &T, b: &T, r: Ordering| #[trigger] call_ensures(f, (a, b), r) ==> r == c(*a, *b)
}

/// A valid input length: zero, or a power of two.
pub open spec fn valid_length(n: nat) -> bool
    decreases n,
{
    if n <= 1 {
        true
    } else {
        n % 2 == 0 && valid_length(n / 2)
    }
}

/// Whether the pair `(a, b)` is exchanged by a pass that sorts towards
/// `forward`: ascending passes exchange when the first element compares
/// `Greater`, descending passes when it compares `Less`.
pub open spec fn swaps<T>(c: SpecComparator<T>, a: T, b: T, forward: bool) -> bool {
    if forward {
        c(a, b) == Ordering::Greater
    } else {
        c(a, b) == Ordering::Less
    }
}

/// One compare-and-swap pass over `s`: element `i` is paired with element
/// `i + s.len() / 2`, and each pair is exchanged according to `swaps`.
pub open spec fn cas_spec<T>(s: Seq<T>, forward: bool, c: SpecComparator<T>) -> Seq<T> {
    let m = s.len() as int / 2;
    Seq::new(
        s.len(),
        |i: int|
            if i < m {
                if swaps(c, s[i], s[i + m], forward) {
                    s[i + m]
                } else {
                    s[i]
                }
            } else if i < 2 * m {
                if swaps(c, s[i - m], s[i], forward) {
                    s[i - m]
                } else {
                    s[i]
                }
            } else {
                s[i]
            },
    )
}

/// The first `k` pairs of a compare-and-swap pass have been performed; the
/// remaining elements are still those of `s`.
pub open spec fn cas_prefix_spec<T>(s: Seq<T>, k: int, forward: bool, c: SpecComparator<T>) -> Seq<
    T,
> {
    let m = s.len() as int / 2;
    Seq::new(
        s.len(),
        |i: int|
            if i < m && i < k {
                if swaps(c, s[i], s[i + m], forward) {
                    s[i + m]
                } else {
                    s[i]
                }
            } else if m <= i < m + k {
                if swaps(c, s[i - m], s[i], forward) {
                    s[i - m]
                } else {
                    s[i]
                }
            } else {
                s[i]
            },
    )
}

/// The bitonic merge: one compare-and-swap pass, then the same merge applied
/// to both halves with the same direction.
pub open spec fn sub_sort_spec<T>(s: Seq<T>, forward: bool, c: SpecComparator<T>) -> Seq<T>
    decreases s.len(),
{
    if s.len() <= 1 {
        s
    } else {
        let m = s.len() as int / 2;
        let t = cas_spec(s, forward, c);
        sub_sort_spec(t.subrange(0, m), forward, c) + sub_sort_spec(
            t.subrange(m, t.len() as int),
            forward,
            c,
        )
    }
}

/// The full sort: the first half is sorted ascending and the second half
/// descending — independent of the requested direction, so that together they
/// form a bitonic sequence — and the merge then resolves that sequence into
/// `forward` order.
pub open spec fn do_sort_spec<T>(s: Seq<T>, forward: bool, c: SpecComparator<T>) -> Seq<T>
    decreases s.len(),
{
    if s.len() <= 1 {
        s
    } else {
        let m = s.len() as int / 2;
        let lo = do_sort_spec(s.subrange(0, m), true, c);
        let hi = do_sort_spec(s.subrange(m, s.len() as int), false, c);
        sub_sort_spec(lo + hi, forward, c)
    }
}

/// A single exchange keeps the multiset of elements of the sequence.
pub proof fn lemma_swap_preserves_multiset<T>(s: Seq<T>, i: int, j: int)
    requires
        0 <= i < s.len(),
        0 <= j < s.len(),
    ensures
        s.update(i, s[j]).update(j, s[i]).to_multiset() == s.to_multiset(),
{
    broadcast use vstd::multiset::group_multiset_axioms;
    broadcast use vstd::seq_lib::group_to_multiset_ensures;

    if i == j {
        assert(s.update(i, s[j]).update(j, s[i]) =~= s);
    } else {
        let s1 = s.update(i, s[j]);
        assert(s1[j] == s[j]);
        assert(s1.update(j, s[i]).to_multiset() =~= s.to_multiset());
    }
}

/// The merge keeps the length of the sequence.
pub broadcast proof fn lemma_sub_sort_spec_len<T>(s: Seq<T>, forward: bool, c: SpecComparator<T>)
    ensures
        (#[trigger] sub_sort_spec(s, forward, c)).len() == s.len(),
    decreases s.len(),
{
    if s.len() > 1 {
        let m = s.len() as int / 2;
        let t = cas_spec(s, forward, c);
        lemma_sub_sort_spec_len(t.subrange(0, m), forward, c);
        lemma_sub_sort_spec_len(t.subrange(m, t.len() as int), forward, c);
    }
}

/// The sort keeps the length of the sequence.
pub broadcast proof fn lemma_do_sort_spec_len<T>(s: Seq<T>, forward: bool, c: SpecComparator<T>)
    ensures
        (#[trigger] do_sort_spec(s, forward, c)).len() == s.len(),
    decreases s.len(),
{
    if s.len() > 1 {
        let m = s.len() as int / 2;
        lemma_do_sort_spec_len(s.subrange(0, m), true, c);
        lemma_do_sort_spec_len(s.subrange(m, s.len() as int), false, c);
        lemma_sub_sort_spec_len(
            do_sort_spec(s.subrange(0, m), true, c) + do_sort_spec(
                s.subrange(m, s.len() as int),
                false,
                c,
            ),
            forward,
            c,
        );
    }
}

/// `a` is no greater than `b` under the comparator `c`.
pub open spec fn le<T>(c: SpecComparator<T>, a: T, b: T) -> bool {
    c(a, b) != Ordering::Greater
}

/// `s` is sorted in the requested direction under `c`: ascending when
/// `forward`, descending otherwise.
pub open spec fn sorted_by<T>(s: Seq<T>, forward: bool, c: SpecComparator<T>) -> bool {
    forall|i: int, j: int|
        0 <= i <= j < s.len() ==> if forward {
            le(c, s[i], s[j])
        } else {
            le(c, s[j], s[i])
        }
}

/// The comparator is a lawful total preorder: `Less` and `Greater` are
/// opposites of each other, and `le` is transitive.  Totality of `le` follows,
/// since a pair on which `le` fails one way compares `Greater`, hence `Less`
/// the other way.
pub open spec fn lawful<T>(c: SpecComparator<T>) -> bool {
    &&& forall|a: T, b: T| (#[trigger] c(a, b)) == Ordering::Less <==> c(b, a) == Ordering::Greater
    &&& forall|a: T, b: T, d: T|
        #[trigger] le(c, a, b) && #[trigger] le(c, b, d) ==> le(c, a, d)
}

/// The natural comparator on booleans: `false` is less than `true`.
pub open spec fn bool_cmp() -> SpecComparator<bool> {
    |a: bool, b: bool|
        if a == b {
            Ordering::Equal
        } else if b {
            Ordering::Less
        } else {
            Ordering::Greater
        }
}

/// The comparator derived from a type's natural ordering.
pub open spec fn natural<T: Ord>() -> SpecComparator<T> {
    |a: T, b: T| a.cmp_spec(&b)
}

/// The comparator `c` with its arguments exchanged.
pub open spec fn flipped<T>(c: SpecComparator<T>) -> SpecComparator<T> {
    |a: T, b: T| c(b, a)
}

} // verus!
