//! The executable bitonic sorting engine.

use vstd::prelude::*;
use vstd::seq_lib::lemma_multiset_commutative;
use vstd::std_specs::cmp::OrdSpec;
use core::cmp::Ordering;

use crate::model::{
    callable, cas_prefix_spec, cas_spec, do_sort_spec, lawful, lemma_swap_preserves_multiset,
    models, natural, sorted_by, sub_sort_spec, valid_length, SpecComparator,
};
use crate::transfer::lemma_do_sort_spec_sorts;
use crate::{SortError, SortOrder};

verus! {

broadcast use vstd::seq_lib::group_to_multiset_ensures;

/// Relies on the standard slice `swap`: it exchanges the elements at the two
/// indices, leaving every other element in place.
#[verifier::external_body]
fn swap_elements<T>(x: &mut [T], i: usize, j: usize)
    requires
        i < old(x)@.len(),
        j < old(x)@.len(),
    ensures
        final(x)@ == old(x)@.update(i as int, old(x)@[j as int]).update(j as int, old(x)@[i as int]),
{
    x.swap(i, j);
}

/// The comparator stage of the network: each element of the first half is
/// compared with its partner in the second half, and the pair is exchanged
/// when the verdict matches the direction.
fn compare_and_swap<T, F: Fn(&T, &T) -> Ordering>(x: &mut [T], forward: bool, comparator: &F)
    requires
        callable(*comparator),
    ensures
        final(x)@.len() == old(x)@.len(),
        final(x)@.to_multiset() == old(x)@.to_multiset(),
        forall|c: SpecComparator<T>| #[trigger] models(*comparator, c)
            ==> final(x)@ == cas_spec(old(x)@, forward, c),
{
    let ghost s = x@;
    let mid_point = x.len() / 2;
    let mut i: usize = 0;
    while i < mid_point
        invariant
            callable(*comparator),
            i <= mid_point,
            mid_point == s.len() / 2,
            x@.len() == s.len(),
            x@.to_multiset() == s.to_multiset(),
            forall|c: SpecComparator<T>| #[trigger] models(*comparator, c)
                ==> x@ == cas_prefix_spec(s, i as int, forward, c),
        decreases mid_point - i,
    {
        let verdict = comparator(&x[i], &x[mid_point + i]);
        let ghost prev = x@;
        let exchange = if forward {
            matches!(verdict, Ordering::Greater)
        } else {
            matches!(verdict, Ordering::Less)
        };
        if exchange {
            swap_elements(x, i, mid_point + i);
            proof {
                lemma_swap_preserves_multiset(prev, i as int, i as int + mid_point as int);
            }
        }
        proof {
            let m = s.len() as int / 2;
            assert forall|c: SpecComparator<T>| #[trigger] models(*comparator, c)
                implies x@ == cas_prefix_spec(s, i as int + 1, forward, c) by {
                assert(prev == cas_prefix_spec(s, i as int, forward, c));
                assert(prev[i as int] == s[i as int]);
                assert(prev[i as int + m] == s[i as int + m]);
                assert(verdict == c(s[i as int], s[i as int + m]));
                assert(x@ =~= cas_prefix_spec(s, i as int + 1, forward, c));
            }
        }
        i += 1;
    }
    proof {
        assert forall|c: SpecComparator<T>| #[trigger] models(*comparator, c)
            implies x@ == cas_spec(s, forward, c) by {
            assert(x@ =~= cas_spec(s, forward, c));
        }
    }
}

/// The bitonic merge: one comparator stage over the whole range, then the
/// same merge applied to both halves, towards the same direction.  Halves of
/// at least `threshold` elements are merged concurrently; the result does not
/// depend on that choice.
fn sub_sort<T, F>(x: &mut [T], forward: bool, comparator: &F, threshold: usize) where
    T: Send,
    F: Sync + Fn(&T, &T) -> Ordering,

    requires
        callable(*comparator),
    ensures
        final(x)@.len() == old(x)@.len(),
        final(x)@.to_multiset() == old(x)@.to_multiset(),
        forall|c: SpecComparator<T>| #[trigger] models(*comparator, c)
            ==> final(x)@ == sub_sort_spec(old(x)@, forward, c),
    decreases x@.len(),
{
    let ghost s = x@;
    if x.len() > 1 {
        compare_and_swap(x, forward, comparator);
        let mid_point = x.len() / 2;
        let ghost whole = x@;
        let (first, second) = x.split_at_mut(mid_point);
        if mid_point >= threshold {
            join_sub_sort(&mut *first, &mut *second, forward, comparator, threshold);
        } else {
            sub_sort(&mut *first, forward, comparator, threshold);
            sub_sort(&mut *second, forward, comparator, threshold);
        }
        proof {
            let m = mid_point as int;
            lemma_multiset_commutative(whole.subrange(0, m), whole.subrange(m, s.len() as int));
            lemma_multiset_commutative(first@, second@);
            assert(whole =~= whole.subrange(0, m) + whole.subrange(m, s.len() as int));
            assert forall|c: SpecComparator<T>| #[trigger] models(*comparator, c)
                implies x@ == sub_sort_spec(s, forward, c) by {
                assert(whole == cas_spec(s, forward, c));
            }
        }
    }
}

/// The recursive engine: the first half is sorted ascending and the second
/// half descending — so that together they form a bitonic sequence — and the
/// merge then resolves the whole range into `forward` order.  Halves of at
/// least `threshold` elements are sorted concurrently; the result does not
/// depend on that choice.
fn do_sort<T, F>(x: &mut [T], forward: bool, comparator: &F, threshold: usize) where
    T: Send,
    F: Sync + Fn(&T, &T) -> Ordering,

    requires
        callable(*comparator),
    ensures
        final(x)@.len() == old(x)@.len(),
        final(x)@.to_multiset() == old(x)@.to_multiset(),
        forall|c: SpecComparator<T>| #[trigger] models(*comparator, c)
            ==> final(x)@ == do_sort_spec(old(x)@, forward, c),
    decreases x@.len(),
{
    let ghost s = x@;
    if x.len() > 1 {
        let mid_point = x.len() / 2;
        let (first, second) = x.split_at_mut(mid_point);
        if mid_point >= threshold {
            join_do_sort(&mut *first, &mut *second, comparator, threshold);
        } else {
            do_sort(&mut *first, true, comparator, threshold);
            do_sort(&mut *second, false, comparator, threshold);
        }
        proof {
            let m = mid_point as int;
            lemma_multiset_commutative(s.subrange(0, m), s.subrange(m, s.len() as int));
            lemma_multiset_commutative(first@, second@);
            assert(s =~= s.subrange(0, m) + s.subrange(m, s.len() as int));
        }
        sub_sort(x, forward, comparator, threshold);
        proof {
            assert forall|c: SpecComparator<T>| #[trigger] models(*comparator, c)
                implies x@ == do_sort_spec(s, forward, c) by {
            }
        }
    }
}

/// Relies on `rayon::join`: it runs both closures to completion — in
/// parallel or not, at the scheduler's discretion — on the two disjoint
/// halves, and returns only after both have finished.  Each closure runs this
/// module's verified `do_sort` on its own half, whose contract gives the
/// clauses below.
#[verifier::external_body]
fn join_do_sort<T, F>(first: &mut [T], second: &mut [T], comparator: &F, threshold: usize) where
    T: Send,
    F: Sync + Fn(&T, &T) -> Ordering,

    requires
        callable(*comparator),
    ensures
        final(first)@.len() == old(first)@.len(),
        final(second)@.len() == old(second)@.len(),
        final(first)@.to_multiset() == old(first)@.to_multiset(),
        final(second)@.to_multiset() == old(second)@.to_multiset(),
        forall|c: SpecComparator<T>| #[trigger] models(*comparator, c)
            ==> final(first)@ == do_sort_spec(old(first)@, true, c) && final(second)@
                == do_sort_spec(old(second)@, false, c),
{
    rayon::join(
        || do_sort(first, true, comparator, threshold),
        || do_sort(second, false, comparator, threshold),
    );
}

/// Relies on `rayon::join`: it runs both closures to completion and returns
/// only after both have finished.  Each closure runs this module's verified
/// `sub_sort` on its own half, whose contract gives the clauses below.
#[verifier::external_body]
fn join_sub_sort<T, F>(
    first: &mut [T],
    second: &mut [T],
    forward: bool,
    comparator: &F,
    threshold: usize,
) where
    T: Send,
    F: Sync + Fn(&T, &T) -> Ordering,

    requires
        callable(*comparator),
    ensures
        final(first)@.len() == old(first)@.len(),
        final(second)@.len() == old(second)@.len(),
        final(first)@.to_multiset() == old(first)@.to_multiset(),
        final(second)@.to_multiset() == old(second)@.to_multiset(),
        forall|c: SpecComparator<T>| #[trigger] models(*comparator, c)
            ==> final(first)@ == sub_sort_spec(old(first)@, forward, c) && final(second)@
                == sub_sort_spec(old(second)@, forward, c),
{
    rayon::join(
        || sub_sort(first, forward, comparator, threshold),
        || sub_sort(second, forward, comparator, threshold),
    );
}

/// Number of elements a half must reach before it is handed to a concurrent
/// worker; below it the two recursive calls run sequentially in the calling
/// task.  The sorted result never depends on this choice.
pub const PARALLEL_THRESHOLD: usize = 4096;

/// Whether `n` is an accepted input length: zero, or a power of two.
fn length_is_valid(n: usize) -> (b: bool)
    ensures
        b == valid_length(n as nat),
    decreases n,
{
    if n <= 1 {
        true
    } else if n % 2 == 1 {
        false
    } else {
        length_is_valid(n / 2)
    }
}

/// Sorts `x` in place with the verdicts of `comparator`, dispatching halves
/// of at least `threshold` elements to concurrent workers.
///
/// The length must be a power of two (zero counts as one); any other length
/// leaves `x` untouched and reports it in the error.  On success the result
/// is exactly the sorting network's outcome `do_sort_spec` for every
/// mathematical comparator that pins `comparator` down — in particular it
/// does not depend on `threshold`.
pub fn sort_by_with_threshold<T, F>(x: &mut [T], comparator: &F, threshold: usize) -> (r: Result<
    (),
    SortError,
>) where T: Send, F: Sync + Fn(&T, &T) -> Ordering
    requires
        callable(*comparator),
    ensures
        r is Ok <==> valid_length(old(x)@.len()),
        final(x)@.len() == old(x)@.len(),
        final(x)@.to_multiset() == old(x)@.to_multiset(),
        !valid_length(old(x)@.len()) ==> final(x)@ == old(x)@ && r == Err::<(), SortError>(
            SortError::InvalidLength { len: old(x)@.len() as usize },
        ),
        valid_length(old(x)@.len()) ==> forall|c: SpecComparator<T>|
            #[trigger] models(*comparator, c) ==> final(x)@ == do_sort_spec(old(x)@, true, c),
        valid_length(old(x)@.len()) ==> forall|c: SpecComparator<T>|
            #[trigger] models(*comparator, c) && lawful(c) ==> sorted_by(final(x)@, true, c),
{
    let ghost s = x@;
    if length_is_valid(x.len()) {
        do_sort(x, true, comparator, threshold);
        proof {
            assert forall|c: SpecComparator<T>| models(*comparator, c) && lawful(
                c,
            ) implies sorted_by(x@, true, c) by {
                lemma_do_sort_spec_sorts(s, true, c);
            }
        }
        Ok(())
    } else {
        Err(SortError::InvalidLength { len: x.len() })
    }
}

/// Sorts `x` in place with the verdicts of `comparator`, using the default
/// parallel-dispatch threshold.  The contract is that of
/// `sort_by_with_threshold`.
pub fn sort_by<T, F>(x: &mut [T], comparator: &F) -> (r: Result<(), SortError>) where
    T: Send,
    F: Sync + Fn(&T, &T) -> Ordering,

    requires
        callable(*comparator),
    ensures
        r is Ok <==> valid_length(old(x)@.len()),
        final(x)@.len() == old(x)@.len(),
        final(x)@.to_multiset() == old(x)@.to_multiset(),
        !valid_length(old(x)@.len()) ==> final(x)@ == old(x)@ && r == Err::<(), SortError>(
            SortError::InvalidLength { len: old(x)@.len() as usize },
        ),
        valid_length(old(x)@.len()) ==> forall|c: SpecComparator<T>|
            #[trigger] models(*comparator, c) ==> final(x)@ == do_sort_spec(old(x)@, true, c),
        valid_length(old(x)@.len()) ==> forall|c: SpecComparator<T>|
            #[trigger] models(*comparator, c) && lawful(c) ==> sorted_by(final(x)@, true, c),
{
    sort_by_with_threshold(x, comparator, PARALLEL_THRESHOLD)
}

/// Sorts `x` in place by the natural order of its elements, ascending or
/// descending as `order` asks, dispatching halves of at least `threshold`
/// elements to concurrent workers.
///
/// The length must be a power of two (zero counts as one); any other length
/// leaves `x` untouched and reports it in the error.  Whenever the element
/// type's comparison is faithful to its mathematical order, the result is
/// exactly the sorting network's outcome for that order and direction — in
/// particular it does not depend on `threshold`.
pub fn sort_with_threshold<T>(x: &mut [T], order: &SortOrder, threshold: usize) -> (r: Result<
    (),
    SortError,
>) where T: Ord + Send
    ensures
        r is Ok <==> valid_length(old(x)@.len()),
        final(x)@.len() == old(x)@.len(),
        final(x)@.to_multiset() == old(x)@.to_multiset(),
        !valid_length(old(x)@.len()) ==> final(x)@ == old(x)@ && r == Err::<(), SortError>(
            SortError::InvalidLength { len: old(x)@.len() as usize },
        ),
        T::obeys_cmp_spec() && valid_length(old(x)@.len()) ==> final(x)@ == do_sort_spec(
            old(x)@,
            crate::forward_of(*order),
            natural::<T>(),
        ),
        T::obeys_cmp_spec() && lawful(natural::<T>()) && valid_length(old(x)@.len())
            ==> sorted_by(final(x)@, crate::forward_of(*order), natural::<T>()),
{
    let ghost s = x@;
    let comparator = |a: &T, b: &T| -> (v: Ordering)
        ensures
            T::obeys_cmp_spec() ==> v == a.cmp_spec(b),
        { T::cmp(a, b) };
    if length_is_valid(x.len()) {
        let forward = matches!(*order, SortOrder::Ascending);
        do_sort(x, forward, &comparator, threshold);
        proof {
            if T::obeys_cmp_spec() {
                assert(models(comparator, natural::<T>()));
                if lawful(natural::<T>()) {
                    lemma_do_sort_spec_sorts(s, crate::forward_of(*order), natural::<T>());
                }
            }
        }
        Ok(())
    } else {
        Err(SortError::InvalidLength { len: x.len() })
    }
}

/// Sorts `x` in place by the natural order of its elements, ascending or
/// descending as `order` asks, using the default parallel-dispatch
/// threshold.  The contract is that of `sort_with_threshold`.
pub fn sort<T>(x: &mut [T], order: &SortOrder) -> (r: Result<(), SortError>) where T: Ord + Send
    ensures
        r is Ok <==> valid_length(old(x)@.len()),
        final(x)@.len() == old(x)@.len(),
        final(x)@.to_multiset() == old(x)@.to_multiset(),
        !valid_length(old(x)@.len()) ==> final(x)@ == old(x)@ && r == Err::<(), SortError>(
            SortError::InvalidLength { len: old(x)@.len() as usize },
        ),
        T::obeys_cmp_spec() && valid_length(old(x)@.len()) ==> final(x)@ == do_sort_spec(
            old(x)@,
            crate::forward_of(*order),
            natural::<T>(),
        ),
        T::obeys_cmp_spec() && lawful(natural::<T>()) && valid_length(old(x)@.len())
            ==> sorted_by(final(x)@, crate::forward_of(*order), natural::<T>()),
{
    sort_with_threshold(x, order, PARALLEL_THRESHOLD)
}

} // verus!
