//! Algebraic laws of the set operations, stated over what their contracts promise.
use vstd::prelude::*;
use vstd::set_lib::*;

use super::{lemma_compact_canonical, lemma_compact_size, Interval, IntervalUnion};

verus! {

/// An interval built from `min` and `max` is present exactly when `min <= max`.
pub proof fn lemma_new_present_iff_ordered(min_value: i64, max_value: i64)
    ensures
        Interval::spec_new(min_value, max_value).spec_as_option() is Some <==> min_value <= max_value,
{
}

/// Two well-formed sets that hold the same integers store the same intervals.
pub proof fn lemma_same_points_same_intervals(a: &IntervalUnion, b: &IntervalUnion)
    requires
        a.wf(),
        b.wf(),
        a@ == b@,
    ensures
        a.intervals() == b.intervals(),
{
    lemma_compact_canonical(a.intervals(), b.intervals());
}

/// Union is commutative: `a ∪ b` and `b ∪ a` store the same intervals.
pub proof fn lemma_union_commutative(
    a: &IntervalUnion,
    b: &IntervalUnion,
    ab: &IntervalUnion,
    ba: &IntervalUnion,
)
    requires
        a.wf(),
        b.wf(),
        ab.wf() && ab@ == a@ + b@,
        ba.wf() && ba@ == b@ + a@,
    ensures
        ab.intervals() == ba.intervals(),
{
    assert(a@ + b@ =~= b@ + a@);
    lemma_same_points_same_intervals(ab, ba);
}

/// Intersection is commutative: `a ∩ b` and `b ∩ a` store the same intervals.
pub proof fn lemma_intersection_commutative(
    a: &IntervalUnion,
    b: &IntervalUnion,
    ab: &IntervalUnion,
    ba: &IntervalUnion,
)
    requires
        a.wf(),
        b.wf(),
        ab.wf() && ab@ == a@.intersect(b@),
        ba.wf() && ba@ == b@.intersect(a@),
    ensures
        ab.intervals() == ba.intervals(),
{
    assert(a@.intersect(b@) =~= b@.intersect(a@));
    lemma_same_points_same_intervals(ab, ba);
}

/// Union is idempotent: `a ∪ a` stores the intervals of `a`.
pub proof fn lemma_union_idempotent(a: &IntervalUnion, aa: &IntervalUnion)
    requires
        a.wf(),
        aa.wf() && aa@ == a@ + a@,
    ensures
        aa.intervals() == a.intervals(),
{
    assert(a@ + a@ =~= a@);
    lemma_same_points_same_intervals(aa, a);
}

/// Intersection is idempotent: `a ∩ a` stores the intervals of `a`.
pub proof fn lemma_intersection_idempotent(a: &IntervalUnion, aa: &IntervalUnion)
    requires
        a.wf(),
        aa.wf() && aa@ == a@.intersect(a@),
    ensures
        aa.intervals() == a.intervals(),
{
    assert(a@.intersect(a@) =~= a@);
    lemma_same_points_same_intervals(aa, a);
}

/// Inclusion–exclusion: `size(a ∪ b) + size(a ∩ b) == size(a) + size(b)`.
pub proof fn lemma_inclusion_exclusion(
    a: &IntervalUnion,
    b: &IntervalUnion,
    u: &IntervalUnion,
    i: &IntervalUnion,
)
    requires
        a.wf(),
        b.wf(),
        u.wf() && u@ == a@ + b@,
        i.wf() && i@ == a@.intersect(b@),
    ensures
        u.spec_size() + i.spec_size() == a.spec_size() + b.spec_size(),
{
    lemma_compact_size(a.intervals());
    lemma_compact_size(b.intervals());
    lemma_compact_size(u.intervals());
    lemma_compact_size(i.intervals());
    lemma_set_intersect_union_lens(a@, b@);
}

/// Partition: with `d = a − b`, the set `d ∩ b` is empty and `d ∪ (a ∩ b)` stores the
/// intervals of `a`.
pub proof fn lemma_difference_partition(
    a: &IntervalUnion,
    b: &IntervalUnion,
    d: &IntervalUnion,
    e: &IntervalUnion,
    m: &IntervalUnion,
    u: &IntervalUnion,
)
    requires
        a.wf(),
        b.wf(),
        d.wf() && d@ == a@.difference(b@),
        e.wf() && e@ == d@.intersect(b@),
        m.wf() && m@ == a@.intersect(b@),
        u.wf() && u@ == d@ + m@,
    ensures
        e.intervals().len() == 0,
        u.intervals() == a.intervals(),
{
    assert(u@ =~= a@);
    lemma_same_points_same_intervals(u, a);
    assert(e@ =~= Set::<int>::empty());
    if e.intervals().len() > 0 {
        let first = e.intervals()[0];
        assert(first.is_range());
        assert(first.contains(first.lo()));
        assert(e@.contains(first.lo()));
    }
}

} // verus!
