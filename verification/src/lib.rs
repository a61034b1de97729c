//! A comparator-driven parallel bitonic sorter.
//!
//! A sequence whose length is a power of two is sorted in place by a sorting
//! network: the two halves are recursively sorted into opposite directions,
//! so that together they form a bitonic sequence, and compare-and-swap
//! passes then resolve that sequence into the requested order.  Halves above
//! a configurable size are handed to concurrent workers on disjoint halves
//! of the buffer.
//!
//! The result is specified exactly: it equals the mathematical mirror of the
//! network (`model::do_sort_spec`) applied to the input, it always carries
//! the same multiset of elements, and under any lawful comparator it is
//! sorted (`transfer::lemma_do_sort_spec_sorts`).  Invalid lengths are
//! rejected without touching the sequence.

use vstd::prelude::*;

pub mod laws;
pub mod model;
pub mod sorter;
pub mod toyvec;
pub mod transfer;
pub mod utils;
pub mod zero_one;

pub use sorter::{sort, sort_by, sort_by_with_threshold, sort_with_threshold, PARALLEL_THRESHOLD};
pub use toyvec::{Iter, ToyVec};
pub use utils::{is_sorted_ascending, is_sorted_descending, new_u32_vec};

verus! {

/// Direction in which a sequence is to be ordered.
#[derive(Clone, Copy, Debug, PartialEq, Eq, Structural)]
pub enum SortOrder {
    Ascending,
    Descending,
}

/// The single domain error: the sequence length is not a power of two.
/// It carries the offending length for diagnostics.
#[derive(Clone, Copy, Debug, PartialEq, Eq, Structural)]
pub enum SortError {
    InvalidLength { len: usize },
}

/// The direction flag handed to the engine: `Ascending` sorts forward.
pub open spec fn forward_of(order: SortOrder) -> bool {
    order == SortOrder::Ascending
}

} // verus!
