//! Helpers around the sorter: pairwise order checks and a reproducible
//! vector of pseudo-random values for exercising large inputs.

use vstd::prelude::*;
use vstd::std_specs::cmp::PartialOrdSpec;
use core::cmp::Ordering;

use rand::{RngExt, SeedableRng};

verus! {

/// Every adjacent pair of `s` compares `Less` or `Equal`.
pub open spec fn pairwise_ascending<T: PartialOrd>(s: Seq<T>) -> bool {
    forall|i: int|
        0 <= i && i + 1 < s.len() ==> (#[trigger] s[i].partial_cmp_spec(&s[i + 1])) matches Some(
            Ordering::Less
            | Ordering::Equal,
        )
}

/// Every adjacent pair of `s` compares `Greater` or `Equal`.
pub open spec fn pairwise_descending<T: PartialOrd>(s: Seq<T>) -> bool {
    forall|i: int|
        0 <= i && i + 1 < s.len() ==> (#[trigger] s[i].partial_cmp_spec(&s[i + 1])) matches Some(
            Ordering::Greater
            | Ordering::Equal,
        )
}

/// Whether every element of `x` is no greater than its successor.
pub fn is_sorted_ascending<T: Ord>(x: &[T]) -> (b: bool)
    ensures
        T::obeys_partial_cmp_spec() ==> b == pairwise_ascending(x@),
{
    let n = x.len();
    let mut i: usize = 1;
    while i < n
        invariant
            1 <= i,
            i <= n || n == 0,
            n == x@.len(),
            T::obeys_partial_cmp_spec() ==> forall|j: int|
                0 <= j && j + 1 < i ==> (#[trigger] x@[j].partial_cmp_spec(&x@[j + 1])) matches Some(
                    Ordering::Less
                    | Ordering::Equal,
                ),
        decreases n - i,
    {
        if !(x[i - 1] <= x[i]) {
            proof {
                if T::obeys_partial_cmp_spec() {
                    let j: int = i - 1;
                    assert(!(x@[j].partial_cmp_spec(&x@[j + 1]) matches Some(
                        Ordering::Less
                        | Ordering::Equal,
                    )));
                }
            }
            return false;
        }
        i += 1;
    }
    true
}

/// Whether every element of `x` is no less than its successor.
pub fn is_sorted_descending<T: Ord>(x: &[T]) -> (b: bool)
    ensures
        T::obeys_partial_cmp_spec() ==> b == pairwise_descending(x@),
{
    let n = x.len();
    let mut i: usize = 1;
    while i < n
        invariant
            1 <= i,
            i <= n || n == 0,
            n == x@.len(),
            T::obeys_partial_cmp_spec() ==> forall|j: int|
                0 <= j && j + 1 < i ==> (#[trigger] x@[j].partial_cmp_spec(&x@[j + 1])) matches Some(
                    Ordering::Greater
                    | Ordering::Equal,
                ),
        decreases n - i,
    {
        if !(x[i - 1] >= x[i]) {
            proof {
                if T::obeys_partial_cmp_spec() {
                    let j: int = i - 1;
                    assert(!(x@[j].partial_cmp_spec(&x@[j + 1]) matches Some(
                        Ordering::Greater
                        | Ordering::Equal,
                    )));
                }
            }
            return false;
        }
        i += 1;
    }
    true
}

/// Relies on `rand_pcg::Pcg64Mcg::from_seed` and `rand::RngExt::sample_iter`
/// with the uniform distribution: from the fixed seed the generator yields a
/// reproducible stream, and `take(n).collect()` gathers exactly `n` values.
#[verifier::external_body]
pub fn new_u32_vec(n: usize) -> (r: Vec<u32>)
    ensures
        r@.len() == n,
{
    let rng = rand_pcg::Pcg64Mcg::from_seed([0; 16]);
    rng.sample_iter(rand::distr::StandardUniform).take(n).collect()
}

} // verus!
