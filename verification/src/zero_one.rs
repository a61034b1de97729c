//! The sorting network on two-valued sequences.
//!
//! The network compares fixed positions, so whether it sorts a sequence of
//! arbitrary elements can be reduced to whether it sorts sequences of
//! booleans (the zero-one principle; the reduction lives in `transfer`).
//! Here the network is proved to sort every boolean sequence of valid
//! length: a boolean bitonic sequence is a band of equal values with the
//! complementary value around it, the comparator stage turns such a band
//! into two shorter bands whose elements are ordered across the midpoint,
//! and the merge then finishes both halves.

use vstd::prelude::*;
use core::cmp::Ordering;

use crate::model::{
    bool_cmp, cas_spec, do_sort_spec, le, sorted_by, sub_sort_spec, valid_length,
};

verus! {

/// The elements of `s` equal `inner` exactly on the band `lo <= k < hi`,
/// and `!inner` outside it.
pub open spec fn banded(s: Seq<bool>, lo: int, hi: int, inner: bool) -> bool {
    &&& 0 <= lo <= hi <= s.len()
    &&& forall|k: int| 0 <= k < s.len() ==> s[k] == (inner == (lo <= k < hi))
}

/// A boolean sequence is bitonic when it is a single band of equal values
/// surrounded by the complementary value: a run of ones in the middle, or a
/// run of zeros in the middle (rotations of a monotone rise and fall).
pub open spec fn bitonic01(s: Seq<bool>) -> bool {
    exists|lo: int, hi: int, inner: bool| banded(s, lo, hi, inner)
}

/// A sequence whose value at `k` says whether `k` lies in the intersection
/// of the band and the band shifted down by `m` is itself a single band.
proof fn lemma_inter_banded(t: Seq<bool>, m: int, lo: int, hi: int, inner: bool)
    requires
        t.len() == m,
        0 <= lo <= hi <= 2 * m,
        forall|k: int|
            0 <= k < m ==> t[k] == (inner == ((lo <= k < hi) && (lo - m <= k < hi - m))),
    ensures
        bitonic01(t),
{
    let a = if lo <= m {
        lo
    } else {
        m
    };
    let b = if hi - m <= a {
        a
    } else if hi - m <= m {
        hi - m
    } else {
        m
    };
    assert(banded(t, a, b, inner));
}

/// A sequence whose value at `k` says whether `k` lies in the union of the
/// band and the band shifted down by `m` is a band, possibly of the
/// complementary value when the union wraps both ends.
proof fn lemma_union_banded(t: Seq<bool>, m: int, lo: int, hi: int, inner: bool)
    requires
        t.len() == m,
        0 <= lo <= hi <= 2 * m,
        forall|k: int|
            0 <= k < m ==> t[k] == (inner == ((lo <= k < hi) || (lo - m <= k < hi - m))),
    ensures
        bitonic01(t),
{
    if hi <= m {
        assert(banded(t, lo, hi, inner));
    } else if lo > m {
        assert(banded(t, lo - m, hi - m, inner));
    } else if hi - m >= lo {
        assert(banded(t, 0, m, inner));
    } else {
        assert(banded(t, hi - m, lo, !inner));
    }
}

/// The comparator stage on a bitonic boolean sequence of even length leaves
/// both halves bitonic and orders them across the midpoint in the requested
/// direction.
proof fn lemma_cas01(s: Seq<bool>, forward: bool)
    requires
        s.len() % 2 == 0,
        bitonic01(s),
    ensures
        ({
            let m = s.len() as int / 2;
            let t = cas_spec(s, forward, bool_cmp());
            &&& bitonic01(t.subrange(0, m))
            &&& bitonic01(t.subrange(m, 2 * m))
            &&& forall|i: int, j: int|
                0 <= i < m <= j < 2 * m ==> if forward {
                    le(bool_cmp(), t[i], t[j])
                } else {
                    le(bool_cmp(), t[j], t[i])
                }
        }),
{
    let m = s.len() as int / 2;
    let cb = bool_cmp();
    let t = cas_spec(s, forward, cb);
    let tl = t.subrange(0, m);
    let th = t.subrange(m, 2 * m);
    let (lo, hi, inner) = choose|lo: int, hi: int, inner: bool| banded(s, lo, hi, inner);
    assert(banded(s, lo, hi, inner));
    if forward {
        assert(forall|k: int| 0 <= k < m ==> tl[k] == (s[k] && s[k + m]));
        assert(forall|k: int| 0 <= k < m ==> th[k] == (s[k] || s[k + m]));
        if inner {
            lemma_inter_banded(tl, m, lo, hi, true);
            lemma_union_banded(th, m, lo, hi, true);
        } else {
            lemma_union_banded(tl, m, lo, hi, false);
            lemma_inter_banded(th, m, lo, hi, false);
        }
        assert forall|i: int, j: int| 0 <= i < m <= j < 2 * m implies le(cb, t[i], t[j]) by {
            assert(t[i] == (s[i] && s[i + m]));
            assert(t[j] == (s[j - m] || s[j]));
            assert(s[i] == (inner == (lo <= i < hi)));
            assert(s[i + m] == (inner == (lo <= i + m < hi)));
            assert(s[j - m] == (inner == (lo <= j - m < hi)));
            assert(s[j] == (inner == (lo <= j < hi)));
        }
    } else {
        assert(forall|k: int| 0 <= k < m ==> tl[k] == (s[k] || s[k + m]));
        assert(forall|k: int| 0 <= k < m ==> th[k] == (s[k] && s[k + m]));
        if inner {
            lemma_union_banded(tl, m, lo, hi, true);
            lemma_inter_banded(th, m, lo, hi, true);
        } else {
            lemma_inter_banded(tl, m, lo, hi, false);
            lemma_union_banded(th, m, lo, hi, false);
        }
        assert forall|i: int, j: int| 0 <= i < m <= j < 2 * m implies le(cb, t[j], t[i]) by {
            assert(t[i] == (s[i] || s[i + m]));
            assert(t[j] == (s[j - m] && s[j]));
            assert(s[i] == (inner == (lo <= i < hi)));
            assert(s[i + m] == (inner == (lo <= i + m < hi)));
            assert(s[j - m] == (inner == (lo <= j - m < hi)));
            assert(s[j] == (inner == (lo <= j < hi)));
        }
    }
}

/// The merge leaves a constant boolean sequence unchanged.
proof fn lemma_sub01_const(s: Seq<bool>, forward: bool, b: bool)
    requires
        forall|k: int| 0 <= k < s.len() ==> s[k] == b,
    ensures
        forall|k: int|
            0 <= k < s.len() ==> #[trigger] sub_sort_spec(s, forward, bool_cmp())[k] == b,
    decreases s.len(),
{
    broadcast use crate::model::lemma_sub_sort_spec_len;

    let cb = bool_cmp();
    if s.len() > 1 {
        let m = s.len() as int / 2;
        let t = cas_spec(s, forward, cb);
        assert(forall|k: int| 0 <= k < s.len() ==> t[k] == b);
        lemma_sub01_const(t.subrange(0, m), forward, b);
        lemma_sub01_const(t.subrange(m, s.len() as int), forward, b);
        assert(sub_sort_spec(s, forward, cb) == sub_sort_spec(t.subrange(0, m), forward, cb)
            + sub_sort_spec(t.subrange(m, s.len() as int), forward, cb));
    }
}

/// The merge sorts every bitonic boolean sequence of valid length into the
/// requested direction.
proof fn lemma_sub01_sorts(s: Seq<bool>, forward: bool)
    requires
        valid_length(s.len()),
        bitonic01(s),
    ensures
        sorted_by(sub_sort_spec(s, forward, bool_cmp()), forward, bool_cmp()),
    decreases s.len(),
{
    broadcast use crate::model::lemma_sub_sort_spec_len;

    let cb = bool_cmp();
    let r = sub_sort_spec(s, forward, cb);
    if s.len() <= 1 {
    } else {
        let m = s.len() as int / 2;
        lemma_cas01(s, forward);
        let t = cas_spec(s, forward, cb);
        let tl = t.subrange(0, m);
        let th = t.subrange(m, 2 * m);
        assert(valid_length(tl.len()) && valid_length(th.len()));
        lemma_sub01_sorts(tl, forward);
        lemma_sub01_sorts(th, forward);
        let rl = sub_sort_spec(tl, forward, cb);
        let rh = sub_sort_spec(th, forward, cb);
        assert(r == rl + rh);
        assert forall|i: int, j: int| 0 <= i <= j < r.len() implies (if forward {
            le(cb, r[i], r[j])
        } else {
            le(cb, r[j], r[i])
        }) by {
            if i < m && m <= j {
                // Across the midpoint: if the half that must stay low holds a
                // one, the comparator stage forced the whole high half to ones.
                if forward && r[i] && !r[j] {
                    assert(exists|k: int| 0 <= k < m && tl[k]) by {
                        if forall|k: int| 0 <= k < m ==> !(#[trigger] tl[k]) {
                            lemma_sub01_const(tl, forward, false);
                            assert(!rl[i]);
                        }
                    }
                    let k = choose|k: int| 0 <= k < m && tl[k];
                    assert(le(cb, t[k], t[m + (j - m)]));
                    assert(forall|q: int| 0 <= q < m ==> #[trigger] th[q]) by {
                        assert forall|q: int| 0 <= q < m implies #[trigger] th[q] by {
                            assert(le(cb, t[k], t[m + q]));
                        }
                    }
                    lemma_sub01_const(th, forward, true);
                    assert(rh[j - m]);
                }
                if !forward && r[j] && !r[i] {
                    assert(exists|k: int| 0 <= k < m && th[k]) by {
                        if forall|k: int| 0 <= k < m ==> !(#[trigger] th[k]) {
                            lemma_sub01_const(th, forward, false);
                            assert(!rh[j - m]);
                        }
                    }
                    let k = choose|k: int| 0 <= k < m && th[k];
                    assert(le(cb, t[m + k], t[i]));
                    assert(forall|q: int| 0 <= q < m ==> #[trigger] tl[q]) by {
                        assert forall|q: int| 0 <= q < m implies #[trigger] tl[q] by {
                            assert(le(cb, t[m + k], t[q]));
                        }
                    }
                    lemma_sub01_const(tl, forward, true);
                    assert(rl[i]);
                }
            }
        }
    }
}

/// A boolean sequence sorted ascending is a band of ones at its end.
proof fn lemma_sorted01_asc_shape(s: Seq<bool>)
    requires
        sorted_by(s, true, bool_cmp()),
    ensures
        exists|a: int| banded(s, a, s.len() as int, true),
{
    s.index_of_first_ensures(true);
    match s.index_of_first(true) {
        Some(a) => {
            assert forall|k: int| 0 <= k < s.len() implies s[k] == (true == (a <= k
                < s.len())) by {
                if a <= k {
                    assert(le(bool_cmp(), s[a], s[k]));
                }
            }
            assert(banded(s, a, s.len() as int, true));
        },
        None => {
            assert forall|k: int| 0 <= k < s.len() implies s[k] == (true == (s.len() as int <= k
                < s.len())) by {
                assert(!s[k]);
            }
            assert(banded(s, s.len() as int, s.len() as int, true));
        },
    }
}

/// A boolean sequence sorted descending is a band of ones at its start.
proof fn lemma_sorted01_desc_shape(s: Seq<bool>)
    requires
        sorted_by(s, false, bool_cmp()),
    ensures
        exists|b: int| banded(s, 0, b, true),
{
    s.index_of_first_ensures(false);
    match s.index_of_first(false) {
        Some(b) => {
            assert forall|k: int| 0 <= k < s.len() implies s[k] == (true == (0 <= k < b)) by {
                if b <= k {
                    assert(le(bool_cmp(), s[k], s[b]));
                }
            }
            assert(banded(s, 0, b, true));
        },
        None => {
            assert forall|k: int| 0 <= k < s.len() implies s[k] == (true == (0 <= k
                < s.len())) by {
                assert(s[k]);
            }
            assert(banded(s, 0, s.len() as int, true));
        },
    }
}

/// The full network sorts every boolean sequence of valid length into the
/// requested direction.
pub proof fn lemma_do01_sorts(s: Seq<bool>, forward: bool)
    requires
        valid_length(s.len()),
    ensures
        sorted_by(do_sort_spec(s, forward, bool_cmp()), forward, bool_cmp()),
    decreases s.len(),
{
    broadcast use crate::model::lemma_do_sort_spec_len;

    let cb = bool_cmp();
    if s.len() > 1 {
        let m = s.len() as int / 2;
        let lo = do_sort_spec(s.subrange(0, m), true, cb);
        let hi = do_sort_spec(s.subrange(m, s.len() as int), false, cb);
        lemma_do01_sorts(s.subrange(0, m), true);
        lemma_do01_sorts(s.subrange(m, s.len() as int), false);
        lemma_sorted01_asc_shape(lo);
        lemma_sorted01_desc_shape(hi);
        let a = choose|a: int| banded(lo, a, lo.len() as int, true);
        let b = choose|b: int| banded(hi, 0, b, true);
        assert(banded(lo + hi, a, m + b, true));
        lemma_sub01_sorts(lo + hi, forward);
    }
}

} // verus!
