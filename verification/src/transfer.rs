//! The zero-one principle: the network's compare-and-exchange schedule is
//! fixed, so mapping every element to a boolean through a threshold test
//! commutes with the network, and sortedness of the boolean outputs carries
//! over to arbitrary elements under any lawful comparator.

use vstd::prelude::*;
use core::cmp::Ordering;

use crate::model::{
    bool_cmp, cas_spec, do_sort_spec, lawful, le, sorted_by, sub_sort_spec, swaps, valid_length,
    SpecComparator,
};
use crate::zero_one::lemma_do01_sorts;

verus! {

/// Each element of `s` replaced by the verdict of the test `g`.
pub open spec fn map_bool<T>(s: Seq<T>, g: spec_fn(T) -> bool) -> Seq<bool> {
    Seq::new(s.len(), |i: int| g(s[i]))
}

/// On every pair where the boolean exchange decision under `g` disagrees
/// with the comparator's, `g` gives both elements the same value — so the
/// disagreement cannot be observed after mapping.
pub open spec fn compatible<T>(g: spec_fn(T) -> bool, c: SpecComparator<T>) -> bool {
    forall|a: T, b: T, forward: bool|
        (#[trigger] swaps(c, a, b, forward)) != swaps(bool_cmp(), g(a), g(b), forward) ==> g(a)
            == g(b)
}

/// The test "strictly above `w`" is compatible with any lawful comparator.
proof fn lemma_threshold_compatible<T>(c: SpecComparator<T>, w: T)
    requires
        lawful(c),
    ensures
        compatible(|x: T| !le(c, x, w), c),
{
    let g = |x: T| !le(c, x, w);
    assert forall|a: T, b: T, forward: bool|
        (#[trigger] swaps(c, a, b, forward)) != swaps(
            bool_cmp(),
            g(a),
            g(b),
            forward,
        ) implies g(a) == g(b) by {
        if forward {
            if swaps(c, a, b, true) {
                assert(c(b, a) == Ordering::Less);
                assert(le(c, b, a));
                if g(b) && !g(a) {
                    assert(le(c, b, a) && le(c, a, w));
                    assert(le(c, b, w));
                }
            } else {
                assert(le(c, a, b));
                if g(a) && !g(b) {
                    assert(le(c, a, b) && le(c, b, w));
                    assert(le(c, a, w));
                }
            }
        } else {
            if swaps(c, a, b, false) {
                assert(c(b, a) == Ordering::Greater);
                assert(le(c, a, b));
                if g(a) && !g(b) {
                    assert(le(c, a, b) && le(c, b, w));
                    assert(le(c, a, w));
                }
            } else {
                assert(c(b, a) != Ordering::Greater);
                assert(le(c, b, a));
                if g(b) && !g(a) {
                    assert(le(c, b, a) && le(c, a, w));
                    assert(le(c, b, w));
                }
            }
        }
    }
}

/// Mapping to booleans commutes with one comparator stage.
proof fn lemma_cas_commutes<T>(
    s: Seq<T>,
    forward: bool,
    c: SpecComparator<T>,
    g: spec_fn(T) -> bool,
)
    requires
        compatible(g, c),
    ensures
        map_bool(cas_spec(s, forward, c), g) == cas_spec(map_bool(s, g), forward, bool_cmp()),
{
    let left = map_bool(cas_spec(s, forward, c), g);
    let right = cas_spec(map_bool(s, g), forward, bool_cmp());
    let m = s.len() as int / 2;
    assert forall|i: int| 0 <= i < s.len() implies left[i] == right[i] by {
        if i < m {
            assert(swaps(c, s[i], s[i + m], forward) != swaps(
                bool_cmp(),
                g(s[i]),
                g(s[i + m]),
                forward,
            ) ==> g(s[i]) == g(s[i + m]));
        } else if i < 2 * m {
            assert(swaps(c, s[i - m], s[i], forward) != swaps(
                bool_cmp(),
                g(s[i - m]),
                g(s[i]),
                forward,
            ) ==> g(s[i - m]) == g(s[i]));
        }
    }
    assert(left =~= right);
}

/// Mapping to booleans commutes with the merge.
proof fn lemma_sub_commutes<T>(
    s: Seq<T>,
    forward: bool,
    c: SpecComparator<T>,
    g: spec_fn(T) -> bool,
)
    requires
        compatible(g, c),
    ensures
        map_bool(sub_sort_spec(s, forward, c), g) == sub_sort_spec(
            map_bool(s, g),
            forward,
            bool_cmp(),
        ),
    decreases s.len(),
{
    let cb = bool_cmp();
    let sb = map_bool(s, g);
    if s.len() <= 1 {
        assert(map_bool(sub_sort_spec(s, forward, c), g) =~= sub_sort_spec(sb, forward, cb));
    } else {
        let m = s.len() as int / 2;
        let t = cas_spec(s, forward, c);
        lemma_cas_commutes(s, forward, c, g);
        let tb = cas_spec(sb, forward, cb);
        assert(tb == map_bool(t, g));
        lemma_sub_commutes(t.subrange(0, m), forward, c, g);
        lemma_sub_commutes(t.subrange(m, t.len() as int), forward, c, g);
        assert(map_bool(t.subrange(0, m), g) =~= tb.subrange(0, m));
        assert(map_bool(t.subrange(m, t.len() as int), g) =~= tb.subrange(m, tb.len() as int));
        assert(map_bool(sub_sort_spec(s, forward, c), g) =~= map_bool(
            sub_sort_spec(t.subrange(0, m), forward, c),
            g,
        ) + map_bool(sub_sort_spec(t.subrange(m, t.len() as int), forward, c), g));
    }
}

/// Mapping to booleans commutes with the full network.
proof fn lemma_do_commutes<T>(
    s: Seq<T>,
    forward: bool,
    c: SpecComparator<T>,
    g: spec_fn(T) -> bool,
)
    requires
        compatible(g, c),
    ensures
        map_bool(do_sort_spec(s, forward, c), g) == do_sort_spec(
            map_bool(s, g),
            forward,
            bool_cmp(),
        ),
    decreases s.len(),
{
    let cb = bool_cmp();
    let sb = map_bool(s, g);
    if s.len() <= 1 {
        assert(map_bool(do_sort_spec(s, forward, c), g) =~= do_sort_spec(sb, forward, cb));
    } else {
        let m = s.len() as int / 2;
        let lo = do_sort_spec(s.subrange(0, m), true, c);
        let hi = do_sort_spec(s.subrange(m, s.len() as int), false, c);
        lemma_do_commutes(s.subrange(0, m), true, c, g);
        lemma_do_commutes(s.subrange(m, s.len() as int), false, c, g);
        assert(map_bool(s.subrange(0, m), g) =~= sb.subrange(0, m));
        assert(map_bool(s.subrange(m, s.len() as int), g) =~= sb.subrange(m, sb.len() as int));
        lemma_sub_commutes(lo + hi, forward, c, g);
        assert(map_bool(lo + hi, g) =~= map_bool(lo, g) + map_bool(hi, g));
    }
}

/// The central theorem: under any lawful comparator, the network sorts every
/// sequence of valid length into the requested direction.
pub proof fn lemma_do_sort_spec_sorts<T>(s: Seq<T>, forward: bool, c: SpecComparator<T>)
    requires
        lawful(c),
        valid_length(s.len()),
    ensures
        sorted_by(do_sort_spec(s, forward, c), forward, c),
{
    broadcast use crate::model::lemma_do_sort_spec_len;

    let t = do_sort_spec(s, forward, c);
    if !sorted_by(t, forward, c) {
        let (i, j) = choose|i: int, j: int|
            0 <= i <= j < t.len() && !(if forward {
                le(c, t[i], t[j])
            } else {
                le(c, t[j], t[i])
            });
        let w = if forward {
            t[j]
        } else {
            t[i]
        };
        assert(le(c, w, w)) by {
            assert(c(w, w) == Ordering::Less <==> c(w, w) == Ordering::Greater);
        }
        let g = |x: T| !le(c, x, w);
        lemma_threshold_compatible(c, w);
        lemma_do_commutes(s, forward, c, g);
        lemma_do01_sorts(map_bool(s, g), forward);
        let tb = do_sort_spec(map_bool(s, g), forward, bool_cmp());
        assert(tb == map_bool(t, g));
        if forward {
            assert(tb[i] && !tb[j]);
            assert(le(bool_cmp(), tb[i], tb[j]));
        } else {
            assert(tb[j] && !tb[i]);
            assert(le(bool_cmp(), tb[j], tb[i]));
        }
    }
}

} // verus!
