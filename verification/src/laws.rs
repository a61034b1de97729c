//! Laws of the sorting network, stated over the mathematical model that the
//! executable functions' contracts use.

use vstd::prelude::*;
use vstd::seq_lib::lemma_multiset_commutative;
use core::cmp::Ordering;

use crate::model::{
    cas_prefix_spec, cas_spec, do_sort_spec, flipped, lawful, le, lemma_swap_preserves_multiset,
    natural, sorted_by, sub_sort_spec, swaps, valid_length, SpecComparator,
};
use crate::utils::{pairwise_ascending, pairwise_descending};
use vstd::std_specs::cmp::{OrdSpec, PartialEqSpec, PartialOrdSpec};

verus! {

broadcast use vstd::seq_lib::group_to_multiset_ensures;

/// Under `c`, elements of `s` that compare `Equal` are the same value, so a
/// sorted arrangement of the elements of `s` is unique.
pub open spec fn ties_are_equal<T>(s: Seq<T>, c: SpecComparator<T>) -> bool {
    forall|i: int, j: int|
        0 <= i < s.len() && 0 <= j < s.len() && #[trigger] c(s[i], s[j]) == Ordering::Equal
            ==> s[i] == s[j]
}

proof fn lemma_cas_prefix_multiset<T>(s: Seq<T>, k: int, forward: bool, c: SpecComparator<T>)
    requires
        0 <= k <= s.len() as int / 2,
    ensures
        cas_prefix_spec(s, k, forward, c).to_multiset() == s.to_multiset(),
    decreases k,
{
    let m = s.len() as int / 2;
    if k == 0 {
        assert(cas_prefix_spec(s, 0, forward, c) =~= s);
    } else {
        lemma_cas_prefix_multiset(s, k - 1, forward, c);
        let p = cas_prefix_spec(s, k - 1, forward, c);
        let q = cas_prefix_spec(s, k, forward, c);
        if swaps(c, s[k - 1], s[k - 1 + m], forward) {
            assert(q =~= p.update(k - 1, p[k - 1 + m]).update(k - 1 + m, p[k - 1]));
            lemma_swap_preserves_multiset(p, k - 1, k - 1 + m);
        } else {
            assert(q =~= p);
        }
    }
}

/// One comparator stage keeps the multiset of elements.
pub proof fn lemma_cas_spec_multiset<T>(s: Seq<T>, forward: bool, c: SpecComparator<T>)
    ensures
        cas_spec(s, forward, c).to_multiset() == s.to_multiset(),
{
    let m = s.len() as int / 2;
    lemma_cas_prefix_multiset(s, m, forward, c);
    assert(cas_spec(s, forward, c) =~= cas_prefix_spec(s, m, forward, c));
}

/// The merge keeps the multiset of elements.
pub proof fn lemma_sub_sort_spec_multiset<T>(s: Seq<T>, forward: bool, c: SpecComparator<T>)
    ensures
        sub_sort_spec(s, forward, c).to_multiset() == s.to_multiset(),
    decreases s.len(),
{
    if s.len() > 1 {
        let m = s.len() as int / 2;
        let t = cas_spec(s, forward, c);
        lemma_cas_spec_multiset(s, forward, c);
        lemma_sub_sort_spec_multiset(t.subrange(0, m), forward, c);
        lemma_sub_sort_spec_multiset(t.subrange(m, t.len() as int), forward, c);
        lemma_multiset_commutative(t.subrange(0, m), t.subrange(m, t.len() as int));
        lemma_multiset_commutative(
            sub_sort_spec(t.subrange(0, m), forward, c),
            sub_sort_spec(t.subrange(m, t.len() as int), forward, c),
        );
        assert(t =~= t.subrange(0, m) + t.subrange(m, t.len() as int));
    }
}

/// No element is created, lost or duplicated: the network's result carries
/// exactly the elements of its input.
pub proof fn lemma_do_sort_spec_multiset<T>(s: Seq<T>, forward: bool, c: SpecComparator<T>)
    ensures
        do_sort_spec(s, forward, c).to_multiset() == s.to_multiset(),
    decreases s.len(),
{
    if s.len() > 1 {
        let m = s.len() as int / 2;
        let lo = do_sort_spec(s.subrange(0, m), true, c);
        let hi = do_sort_spec(s.subrange(m, s.len() as int), false, c);
        lemma_do_sort_spec_multiset(s.subrange(0, m), true, c);
        lemma_do_sort_spec_multiset(s.subrange(m, s.len() as int), false, c);
        lemma_sub_sort_spec_multiset(lo + hi, forward, c);
        lemma_multiset_commutative(s.subrange(0, m), s.subrange(m, s.len() as int));
        lemma_multiset_commutative(lo, hi);
        assert(s =~= s.subrange(0, m) + s.subrange(m, s.len() as int));
    }
}

/// Exchanging the arguments of a lawful comparator gives a lawful comparator.
pub proof fn lemma_flipped_lawful<T>(c: SpecComparator<T>)
    requires
        lawful(c),
    ensures
        lawful(flipped(c)),
{
    let f = flipped(c);
    assert forall|a: T, b: T| (#[trigger] f(a, b)) == Ordering::Less implies f(b, a)
        == Ordering::Greater by {
        assert(c(b, a) == Ordering::Less ==> c(a, b) == Ordering::Greater);
    }
    assert forall|a: T, b: T| f(b, a) == Ordering::Greater implies (#[trigger] f(a, b))
        == Ordering::Less by {
        assert(c(a, b) == Ordering::Greater ==> c(b, a) == Ordering::Less);
    }
    assert forall|a: T, b: T, d: T| #[trigger] le(f, a, b) && #[trigger] le(f, b, d) implies le(
        f,
        a,
        d,
    ) by {
        assert(le(c, d, b) && le(c, b, a) ==> le(c, d, a));
    }
}

/// Two sorted arrangements of the same elements coincide, provided elements
/// that compare `Equal` are the same value.
proof fn lemma_sorted_unique<T>(s1: Seq<T>, s2: Seq<T>, forward: bool, c: SpecComparator<T>)
    requires
        lawful(c),
        sorted_by(s1, forward, c),
        sorted_by(s2, forward, c),
        s1.to_multiset() == s2.to_multiset(),
        ties_are_equal(s1, c),
    ensures
        s1 == s2,
    decreases s1.len(),
{
    broadcast use vstd::multiset::group_multiset_axioms;

    assert(s1.len() == s1.to_multiset().len());
    assert(s2.len() == s2.to_multiset().len());
    if s1.len() > 0 {
        let a = s1[0];
        let b = s2[0];
        assert(s1.to_multiset().contains(b));
        assert(s1.contains(b));
        let ib = choose|ib: int| 0 <= ib < s1.len() && s1[ib] == b;
        assert(s2.to_multiset().contains(a));
        assert(s2.contains(a));
        let ja = choose|ja: int| 0 <= ja < s2.len() && s2[ja] == a;
        if forward {
            assert(le(c, a, s1[ib]));
            assert(le(c, b, s2[ja]));
        } else {
            assert(le(c, s1[ib], a));
            assert(le(c, s2[ja], b));
        }
        assert(c(a, b) == Ordering::Equal) by {
            assert(c(a, b) == Ordering::Less ==> c(b, a) == Ordering::Greater);
        }
        assert(c(s1[0], s1[ib]) == Ordering::Equal);
        assert(a == b);
        let t1 = s1.drop_first();
        let t2 = s2.drop_first();
        assert(t1 =~= s1.remove(0));
        assert(t2 =~= s2.remove(0));
        assert(t1.to_multiset() == t2.to_multiset());
        assert(sorted_by(t1, forward, c)) by {
            assert(forall|i: int| 0 <= i < t1.len() ==> t1[i] == s1[i + 1]);
        }
        assert(sorted_by(t2, forward, c)) by {
            assert(forall|i: int| 0 <= i < t2.len() ==> t2[i] == s2[i + 1]);
        }
        assert(ties_are_equal(t1, c)) by {
            assert(forall|i: int| 0 <= i < t1.len() ==> t1[i] == s1[i + 1]);
        }
        lemma_sorted_unique(t1, t2, forward, c);
        assert forall|i: int| 0 <= i < s1.len() implies s1[i] == s2[i] by {
            if i > 0 {
                assert(s1[i] == t1[i - 1]);
                assert(s2[i] == t2[i - 1]);
            }
        }
        assert(s1 =~= s2);
    } else {
        assert(s1 =~= s2);
    }
}

/// A sequence sorted by the natural order has every adjacent pair comparing
/// `Less` or `Equal` — the property `is_sorted_ascending` checks — whenever
/// the type's comparison operators obey the standard ordering laws.
pub proof fn lemma_sorted_by_natural_pairwise_asc<T: Ord>(s: Seq<T>)
    requires
        vstd::laws_cmp::obeys_cmp::<T>(),
        sorted_by(s, true, natural::<T>()),
    ensures
        pairwise_ascending(s),
{
    reveal(vstd::laws_cmp::obeys_cmp_ord);
    assert forall|i: int|
        0 <= i && i + 1 < s.len() implies (#[trigger] s[i].partial_cmp_spec(&s[i + 1])) matches Some(
        Ordering::Less
        | Ordering::Equal,
    ) by {
        assert(le(natural::<T>(), s[i], s[i + 1]));
        assert(s[i].partial_cmp_spec(&s[i + 1]) == Some(s[i].cmp_spec(&s[i + 1])));
    }
}

/// A sequence sorted against the natural order has every adjacent pair
/// comparing `Greater` or `Equal` — the property `is_sorted_descending`
/// checks — whenever the type's comparison operators obey the standard
/// ordering laws.
pub proof fn lemma_sorted_by_natural_pairwise_desc<T: Ord>(s: Seq<T>)
    requires
        vstd::laws_cmp::obeys_cmp::<T>(),
        sorted_by(s, false, natural::<T>()),
    ensures
        pairwise_descending(s),
{
    reveal(vstd::laws_cmp::obeys_cmp_ord);
    reveal(vstd::laws_cmp::obeys_partial_cmp_spec_properties);
    reveal(vstd::laws_eq::obeys_eq_spec_properties);
    assert forall|i: int|
        0 <= i && i + 1 < s.len() implies (#[trigger] s[i].partial_cmp_spec(&s[i + 1])) matches Some(
        Ordering::Greater
        | Ordering::Equal,
    ) by {
        assert(le(natural::<T>(), s[i + 1], s[i]));
        assert(s[i].partial_cmp_spec(&s[i + 1]) == Some(s[i].cmp_spec(&s[i + 1])));
        assert(s[i + 1].partial_cmp_spec(&s[i]) == Some(s[i + 1].cmp_spec(&s[i])));
        if s[i + 1].cmp_spec(&s[i]) == Ordering::Less {
            assert(s[i].partial_cmp_spec(&s[i + 1]) == Some(Ordering::Greater));
        } else {
            assert(s[i + 1].eq_spec(&s[i]));
            assert(s[i].eq_spec(&s[i + 1]));
            assert(s[i].partial_cmp_spec(&s[i + 1]) == Some(Ordering::Equal));
        }
    }
}

/// A sequence holding the same elements as `s` inherits the ties of `s`.
proof fn lemma_ties_transport<T>(s: Seq<T>, t: Seq<T>, c: SpecComparator<T>)
    requires
        t.to_multiset() == s.to_multiset(),
        ties_are_equal(s, c),
    ensures
        ties_are_equal(t, c),
{
    broadcast use vstd::multiset::group_multiset_axioms;

    assert forall|i: int, j: int|
        0 <= i < t.len() && 0 <= j < t.len() && #[trigger] c(t[i], t[j])
            == Ordering::Equal implies t[i] == t[j] by {
        assert(t.contains(t[i]) && t.contains(t[j]));
        assert(t.to_multiset().count(t[i]) > 0 && t.to_multiset().count(t[j]) > 0);
        assert(s.to_multiset().count(t[i]) > 0 && s.to_multiset().count(t[j]) > 0);
        assert(s.contains(t[i]) && s.contains(t[j]));
        let p = choose|p: int| 0 <= p < s.len() && s[p] == t[i];
        let q = choose|q: int| 0 <= q < s.len() && s[q] == t[j];
        assert(c(s[p], s[q]) == Ordering::Equal);
    }
}

/// Sorting a sequence that is already sorted in the requested direction
/// gives it back unchanged, provided elements that compare `Equal` are the
/// same value.
pub proof fn lemma_sorted_input_unchanged<T>(s: Seq<T>, forward: bool, c: SpecComparator<T>)
    requires
        lawful(c),
        valid_length(s.len()),
        sorted_by(s, forward, c),
        ties_are_equal(s, c),
    ensures
        do_sort_spec(s, forward, c) == s,
{
    let t = do_sort_spec(s, forward, c);
    crate::transfer::lemma_do_sort_spec_sorts(s, forward, c);
    lemma_do_sort_spec_multiset(s, forward, c);
    lemma_ties_transport(s, t, c);
    lemma_sorted_unique(t, s, forward, c);
}

/// A comparator and its inverse produce reversed results of each other,
/// provided elements that compare `Equal` are the same value.
pub proof fn lemma_inverse_comparator_reverses<T>(s: Seq<T>, c: SpecComparator<T>)
    requires
        lawful(c),
        valid_length(s.len()),
        ties_are_equal(s, c),
    ensures
        do_sort_spec(s, true, flipped(c)) == do_sort_spec(s, true, c).reverse(),
{
    let t1 = do_sort_spec(s, true, c);
    let t2 = do_sort_spec(s, true, flipped(c));
    let r = t1.reverse();
    lemma_flipped_lawful(c);
    crate::transfer::lemma_do_sort_spec_sorts(s, true, c);
    crate::transfer::lemma_do_sort_spec_sorts(s, true, flipped(c));
    lemma_do_sort_spec_multiset(s, true, c);
    lemma_do_sort_spec_multiset(s, true, flipped(c));
    t1.lemma_reverse_to_multiset();
    assert(sorted_by(t2, false, c)) by {
        assert forall|i: int, j: int| 0 <= i <= j < t2.len() implies le(c, t2[j], t2[i]) by {
            assert(le(flipped(c), t2[i], t2[j]));
        }
    }
    assert(sorted_by(r, false, c)) by {
        assert forall|i: int, j: int| 0 <= i <= j < r.len() implies le(c, r[j], r[i]) by {
            assert(r[i] == t1[r.len() - 1 - i]);
            assert(r[j] == t1[r.len() - 1 - j]);
            assert(le(c, t1[r.len() - 1 - j], t1[r.len() - 1 - i]));
        }
    }
    lemma_ties_transport(s, t2, c);
    lemma_sorted_unique(t2, r, false, c);
}

} // verus!
