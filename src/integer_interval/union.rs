//! Set union.
use vstd::prelude::*;

use super::{
    covered, gap_between, is_compact, lemma_points_from_ends, lemma_points_from_split, lemma_rep,
    lemma_single, points_from, points_of, push_merge, splice, Interval, IntervalUnion,
};

verus! {

broadcast use lemma_rep;

impl Interval {
    /// The union of two intervals: one merged range when they overlap or touch, the two in
    /// ascending order otherwise, and only the non-empty one when one of them is empty.
    pub fn union(self, rhs: Interval) -> (r: IntervalUnion)
        ensures
            r.wf(),
            r@ == self.points() + rhs.points(),
    {
        let mut v: Vec<Interval> = Vec::new();
        proof {
            assert(points_of(v@) =~= Set::<int>::empty());
        }
        if self.holds_some() && rhs.holds_some() {
            if self.start() <= rhs.start() {
                push_merge(&mut v, self);
                push_merge(&mut v, rhs);
            } else {
                push_merge(&mut v, rhs);
                push_merge(&mut v, self);
            }
        } else if self.holds_some() {
            push_merge(&mut v, self);
            assert(rhs.points() =~= Set::<int>::empty());
        } else if rhs.holds_some() {
            push_merge(&mut v, rhs);
            assert(self.points() =~= Set::<int>::empty());
        } else {
            assert(self.points() =~= Set::<int>::empty());
            assert(rhs.points() =~= Set::<int>::empty());
        }
        let r = IntervalUnion { ivs: v };
        assert(r@ =~= self.points() + rhs.points());
        r
    }

    /// The union of an interval and a set, in a new set.
    pub fn union_with(self, rhs: &IntervalUnion) -> (r: IntervalUnion)
        requires
            rhs.wf(),
        ensures
            r.wf(),
            r@ == self.points() + rhs@,
    {
        let r = rhs.union_interval(self);
        assert(r@ =~= self.points() + rhs@);
        r
    }
}

impl IntervalUnion {
    /// The union of two sets, in a new set: a merge of the two ascending sequences that takes
    /// the interval with the smaller least element next and merges it into the last interval
    /// of the result where the two touch.
    pub fn union(&self, rhs: &IntervalUnion) -> (r: IntervalUnion)
        requires
            self.wf(),
            rhs.wf(),
        ensures
            r.wf(),
            r@ == self@ + rhs@,
    {
        let a = &self.ivs;
        let b = &rhs.ivs;
        let mut result: Vec<Interval> = Vec::new();
        let mut i: usize = 0;
        let mut j: usize = 0;
        proof {
            lemma_points_from_ends(a@);
            lemma_points_from_ends(b@);
            assert(points_of(result@) =~= Set::<int>::empty());
        }
        while i < a.len() || j < b.len()
            invariant
                is_compact(a@),
                is_compact(b@),
                i <= a@.len(),
                j <= b@.len(),
                is_compact(result@),
                result@.len() > 0 ==> (i < a@.len() ==> result@.last().lo() <= a@[i as int].lo()),
                result@.len() > 0 ==> (j < b@.len() ==> result@.last().lo() <= b@[j as int].lo()),
                points_of(result@) + points_from(a@, i as int) + points_from(b@, j as int) == points_of(
                    a@,
                ) + points_of(b@),
            decreases a@.len() + b@.len() - i - j,
        {
            let take_a = if j >= b.len() {
                true
            } else if i >= a.len() {
                false
            } else {
                assert(a@[i as int].is_range() && b@[j as int].is_range());
                a[i].start() <= b[j].start()
            };
            let ghost before = result@;
            if take_a {
                let next = a[i];
                proof {
                    lemma_points_from_split(a@, i as int);
                    assert(a@[i as int].is_range());
                }
                push_merge(&mut result, next);
                proof {
                    if i + 1 < a@.len() {
                        assert(a@[i as int].hi() + 1 < a@[i + 1].lo());
                    }
                    assert(points_of(result@) + points_from(a@, i + 1) + points_from(b@, j as int)
                        =~= points_of(before) + points_from(a@, i as int) + points_from(
                        b@,
                        j as int,
                    ));
                }
                i = i + 1;
            } else {
                let next = b[j];
                proof {
                    lemma_points_from_split(b@, j as int);
                    assert(b@[j as int].is_range());
                }
                push_merge(&mut result, next);
                proof {
                    if j + 1 < b@.len() {
                        assert(b@[j as int].hi() + 1 < b@[j + 1].lo());
                    }
                    assert(points_of(result@) + points_from(a@, i as int) + points_from(b@, j + 1)
                        =~= points_of(before) + points_from(a@, i as int) + points_from(
                        b@,
                        j as int,
                    ));
                }
                j = j + 1;
            }
        }
        proof {
            lemma_points_from_ends(a@);
            lemma_points_from_ends(b@);
            assert(points_of(result@) =~= points_of(a@) + points_of(b@));
        }
        IntervalUnion { ivs: result }
    }

    /// The union of a set and an interval, in a new set.
    pub fn union_interval(&self, rhs: Interval) -> (r: IntervalUnion)
        requires
            self.wf(),
        ensures
            r.wf(),
            r@ == self@ + rhs.points(),
    {
        let mut r = self.clone();
        r.union_assign(rhs);
        r
    }

    /// Adds the integers of `rhs` to the set, in place: the stored intervals that overlap or
    /// touch `rhs` are merged with it into one, and `rhs` is inserted where none does.
    pub fn union_assign(&mut self, rhs: Interval)
        requires
            old(self).wf(),
        ensures
            final(self).wf(),
            final(self)@ == old(self)@ + rhs.points(),
    {
        if !rhs.holds_some() {
            assert(rhs.points() =~= Set::<int>::empty());
            assert(self@ =~= self@ + rhs.points());
            return;
        }
        let ghost s = self.ivs@;
        let bmin = rhs.start();
        let bmax = rhs.end();
        let n = self.ivs.len();
        let mut i: usize = 0;
        assert forall|k: int| 0 <= k < n implies (#[trigger] s[k]) is Interval by {
            assert(s[k].is_range());
        }
        while i < n && gap_between(self.ivs[i].end(), bmin)
            invariant
                forall|k: int| 0 <= k < n ==> (#[trigger] s[k]) is Interval,
                self.ivs@ == s,
                n == s.len(),
                is_compact(s),
                i <= n,
                forall|k: int| 0 <= k < i ==> #[trigger] s[k].hi() + 1 < bmin,
            decreases n - i,
        {
            i = i + 1;
        }
        let mut j: usize = i;
        while j < n && !gap_between(bmax, self.ivs[j].start())
            invariant
                forall|k: int| 0 <= k < n ==> (#[trigger] s[k]) is Interval,
                self.ivs@ == s,
                n == s.len(),
                is_compact(s),
                i <= j <= n,
                forall|k: int| i <= k < j ==> #[trigger] s[k].lo() <= bmax + 1,
            decreases n - j,
        {
            j = j + 1;
        }
        let merged = if i == j {
            rhs
        } else {
            assert(s[i as int].is_range() && s[j - 1].is_range());
            let lo = if self.ivs[i].start() <= bmin { self.ivs[i].start() } else { bmin };
            let hi = if self.ivs[j - 1].end() >= bmax { self.ivs[j - 1].end() } else { bmax };
            Interval::Interval(lo, hi)
        };
        let mut pieces: Vec<Interval> = Vec::new();
        pieces.push(merged);
        splice(&mut self.ivs, i, j, pieces);
        proof {
            let t = self.ivs@;
            assert(i < n ==> s[i as int].hi() + 1 >= bmin);
            assert(j < n ==> s[j as int].lo() > bmax + 1);
            assert forall|k: int| 0 <= k < t.len() implies #[trigger] t[k].is_range() by {
                if k < i {
                    assert(t[k] == s[k]);
                } else if k > i {
                    assert(t[k] == s[k - i - 1 + j]);
                }
            }
            assert forall|k: int, l: int| 0 <= k < l < t.len() implies #[trigger] t[k].hi() + 1
                < #[trigger] t[l].lo() by {
                if l < i {
                    assert(t[k] == s[k] && t[l] == s[l]);
                } else if l == i {
                    assert(t[k] == s[k]);
                    if i < j {
                        assert(s[k].hi() + 1 < s[i as int].lo());
                    }
                } else if k < i {
                    assert(t[k] == s[k]);
                    assert(t[l] == s[l - i - 1 + j]);
                    assert(s[k].hi() + 1 < s[l - i - 1 + j].lo());
                } else if k == i {
                    let m = l - i - 1 + j;
                    assert(t[l] == s[m]);
                    assert(s[j as int].is_range());
                    if m > j {
                        assert(s[j as int].hi() + 1 < s[m].lo());
                    }
                    if i < j {
                        assert(s[j - 1].hi() + 1 < s[j as int].lo());
                    }
                } else {
                    assert(t[k] == s[k - i - 1 + j]);
                    assert(t[l] == s[l - i - 1 + j]);
                }
            }
            assert forall|x: int| #[trigger] points_of(t).contains(x) == (points_of(s) + rhs.points()).contains(x) by {
                if covered(t, 0, t.len() as int, x) {
                    let k = choose|k: int| 0 <= k < t.len() && #[trigger] t[k].contains(x);
                    if k < i {
                        assert(s[k].contains(x));
                    } else if k > i {
                        assert(s[k - i - 1 + j].contains(x));
                    } else if rhs.contains(x) {
                    } else if x < bmin {
                        assert(s[i as int].contains(x));
                    } else {
                        assert(s[j - 1].contains(x));
                    }
                }
                if covered(s, 0, n as int, x) {
                    let k = choose|k: int| 0 <= k < n && #[trigger] s[k].contains(x);
                    if k < i {
                        assert(t[k].contains(x));
                    } else if k >= j {
                        assert(t[k - j + i + 1] == s[k]);
                        assert(t[k - j + i + 1].contains(x));
                    } else {
                        assert(s[i as int].lo() <= s[k].lo() || k == i);
                        assert(s[k].hi() <= s[j - 1].hi() || k == j - 1);
                        assert(s[k].hi() + 1 < s[j - 1].lo() || k == j - 1);
                        assert(s[i as int].hi() + 1 < s[k].lo() || k == i);
                        assert(t[i as int].contains(x));
                    }
                }
                if rhs.contains(x) {
                    assert(t[i as int].contains(x));
                }
            }
            assert(self@ =~= points_of(s) + rhs.points());
        }
    }

    /// Adds the integers of `rhs` to the set: in place when `rhs` holds at most one interval,
    /// else by a merge into a new sequence that replaces the stored one.
    pub fn union_assign_union(&mut self, rhs: IntervalUnion)
        requires
            old(self).wf(),
            rhs.wf(),
        ensures
            final(self).wf(),
            final(self)@ == old(self)@ + rhs@,
    {
        let n = rhs.ivs.len();
        if n == 0 {
            assert(rhs@ =~= Set::<int>::empty());
            assert(self@ =~= self@ + rhs@);
        } else if n == 1 {
            let only = rhs.ivs[0];
            self.union_assign(only);
            proof {
                lemma_single(&rhs);
            }
        } else {
            let r = self.union(&rhs);
            *self = r;
        }
    }
}

impl core::ops::BitOr<Interval> for Interval {
    type Output = IntervalUnion;

    /// The union of two intervals.
    fn bitor(self, rhs: Interval) -> (r: IntervalUnion)
        ensures
            r.wf(),
            r@ == self.points() + rhs.points(),
    {
        self.union(rhs)
    }
}

impl vstd::std_specs::ops::BitOrSpecImpl<Interval> for Interval {
    /// The result is stated by the `ensures` of `bitor` itself.
    open spec fn obeys_bitor_spec() -> bool {
        false
    }

    open spec fn bitor_req(self, rhs: Interval) -> bool {
        true
    }

    open spec fn bitor_spec(self, rhs: Interval) -> IntervalUnion {
        arbitrary()
    }
}

impl core::ops::BitOr<&IntervalUnion> for &IntervalUnion {
    type Output = IntervalUnion;

    /// The union of two sets, in a new set.
    fn bitor(self, rhs: &IntervalUnion) -> (r: IntervalUnion)
        ensures
            r.wf(),
            r@ == self@ + rhs@,
    {
        self.union(rhs)
    }
}

impl vstd::std_specs::ops::BitOrSpecImpl<&IntervalUnion> for &IntervalUnion {
    /// The result is stated by the `ensures` of `bitor` itself.
    open spec fn obeys_bitor_spec() -> bool {
        false
    }

    open spec fn bitor_req(self, rhs: &IntervalUnion) -> bool {
        self.wf() && rhs.wf()
    }

    open spec fn bitor_spec(self, rhs: &IntervalUnion) -> IntervalUnion {
        arbitrary()
    }
}

impl core::ops::BitOr<IntervalUnion> for IntervalUnion {
    type Output = IntervalUnion;

    /// The union of two sets, reusing the storage of whichever operand allows it: a set of one
    /// interval is merged into the other in place.
    fn bitor(self, rhs: IntervalUnion) -> (r: IntervalUnion)
        ensures
            r.wf(),
            r@ == self@ + rhs@,
    {
        let n = self.ivs.len();
        let m = rhs.ivs.len();
        if n == 0 {
            assert(self@ =~= Set::<int>::empty());
            assert(rhs@ =~= self@ + rhs@);
            rhs
        } else if m <= 1 {
            let mut r = self;
            r.union_assign_union(rhs);
            r
        } else if n == 1 {
            let only = self.ivs[0];
            proof {
                lemma_single(&self);
            }
            let mut r = rhs;
            r.union_assign(only);
            assert(r@ =~= self@ + rhs@);
            r
        } else {
            (&self).union(&rhs)
        }
    }
}

impl vstd::std_specs::ops::BitOrSpecImpl<IntervalUnion> for IntervalUnion {
    /// The result is stated by the `ensures` of `bitor` itself.
    open spec fn obeys_bitor_spec() -> bool {
        false
    }

    open spec fn bitor_req(self, rhs: IntervalUnion) -> bool {
        self.wf() && rhs.wf()
    }

    open spec fn bitor_spec(self, rhs: IntervalUnion) -> IntervalUnion {
        arbitrary()
    }
}

impl core::ops::BitOr<Interval> for &IntervalUnion {
    type Output = IntervalUnion;

    /// The union of a set and an interval, in a new set.
    fn bitor(self, rhs: Interval) -> (r: IntervalUnion)
        ensures
            r.wf(),
            r@ == self@ + rhs.points(),
    {
        self.union_interval(rhs)
    }
}

impl vstd::std_specs::ops::BitOrSpecImpl<Interval> for &IntervalUnion {
    /// The result is stated by the `ensures` of `bitor` itself.
    open spec fn obeys_bitor_spec() -> bool {
        false
    }

    open spec fn bitor_req(self, rhs: Interval) -> bool {
        self.wf()
    }

    open spec fn bitor_spec(self, rhs: Interval) -> IntervalUnion {
        arbitrary()
    }
}

impl core::ops::BitOr<Interval> for IntervalUnion {
    type Output = IntervalUnion;

    /// The union of a set and an interval, in place in the storage of `self`.
    fn bitor(self, rhs: Interval) -> (r: IntervalUnion)
        ensures
            r.wf(),
            r@ == self@ + rhs.points(),
    {
        let mut r = self;
        r.union_assign(rhs);
        r
    }
}

impl vstd::std_specs::ops::BitOrSpecImpl<Interval> for IntervalUnion {
    /// The result is stated by the `ensures` of `bitor` itself.
    open spec fn obeys_bitor_spec() -> bool {
        false
    }

    open spec fn bitor_req(self, rhs: Interval) -> bool {
        self.wf()
    }

    open spec fn bitor_spec(self, rhs: Interval) -> IntervalUnion {
        arbitrary()
    }
}

impl core::ops::BitOrAssign<Interval> for IntervalUnion {
    /// In place: see [`IntervalUnion::union_assign`].
    fn bitor_assign(&mut self, rhs: Interval)
        requires
            old(self).wf(),
        ensures
            final(self).wf(),
            final(self)@ == old(self)@ + rhs.points(),
    {
        self.union_assign(rhs)
    }
}

impl core::ops::BitOrAssign<IntervalUnion> for IntervalUnion {
    /// See [`IntervalUnion::union_assign_union`].
    fn bitor_assign(&mut self, rhs: IntervalUnion)
        requires
            old(self).wf(),
            rhs.wf(),
        ensures
            final(self).wf(),
            final(self)@ == old(self)@ + rhs@,
    {
        self.union_assign_union(rhs)
    }
}

impl core::ops::BitOr<&IntervalUnion> for Interval {
    type Output = IntervalUnion;

    /// The union of an interval and a set, in a new set.
    fn bitor(self, rhs: &IntervalUnion) -> (r: IntervalUnion)
        ensures
            r.wf(),
            r@ == self.points() + rhs@,
    {
        self.union_with(rhs)
    }
}

impl vstd::std_specs::ops::BitOrSpecImpl<&IntervalUnion> for Interval {
    /// The result is stated by the `ensures` of `bitor` itself.
    open spec fn obeys_bitor_spec() -> bool {
        false
    }

    open spec fn bitor_req(self, rhs: &IntervalUnion) -> bool {
        rhs.wf()
    }

    open spec fn bitor_spec(self, rhs: &IntervalUnion) -> IntervalUnion {
        arbitrary()
    }
}

impl core::ops::BitOr<IntervalUnion> for Interval {
    type Output = IntervalUnion;

    /// The union of an interval and a set.
    fn bitor(self, rhs: IntervalUnion) -> (r: IntervalUnion)
        ensures
            r.wf(),
            r@ == self.points() + rhs@,
    {
        self.union_with(&rhs)
    }
}

impl vstd::std_specs::ops::BitOrSpecImpl<IntervalUnion> for Interval {
    /// The result is stated by the `ensures` of `bitor` itself.
    open spec fn obeys_bitor_spec() -> bool {
        false
    }

    open spec fn bitor_req(self, rhs: IntervalUnion) -> bool {
        rhs.wf()
    }

    open spec fn bitor_spec(self, rhs: IntervalUnion) -> IntervalUnion {
        arbitrary()
    }
}

impl core::ops::BitOr<&IntervalUnion> for IntervalUnion {
    type Output = IntervalUnion;

    /// The union of two sets.
    fn bitor(self, rhs: &IntervalUnion) -> (r: IntervalUnion)
        ensures
            r.wf(),
            r@ == self@ + rhs@,
    {
        (&self).union(rhs)
    }
}

impl vstd::std_specs::ops::BitOrSpecImpl<&IntervalUnion> for IntervalUnion {
    /// The result is stated by the `ensures` of `bitor` itself.
    open spec fn obeys_bitor_spec() -> bool {
        false
    }

    open spec fn bitor_req(self, rhs: &IntervalUnion) -> bool {
        self.wf() && rhs.wf()
    }

    open spec fn bitor_spec(self, rhs: &IntervalUnion) -> IntervalUnion {
        arbitrary()
    }
}

impl core::ops::BitOr<IntervalUnion> for &IntervalUnion {
    type Output = IntervalUnion;

    /// The union of two sets.
    fn bitor(self, rhs: IntervalUnion) -> (r: IntervalUnion)
        ensures
            r.wf(),
            r@ == self@ + rhs@,
    {
        self.union(&rhs)
    }
}

impl vstd::std_specs::ops::BitOrSpecImpl<IntervalUnion> for &IntervalUnion {
    /// The result is stated by the `ensures` of `bitor` itself.
    open spec fn obeys_bitor_spec() -> bool {
        false
    }

    open spec fn bitor_req(self, rhs: IntervalUnion) -> bool {
        self.wf() && rhs.wf()
    }

    open spec fn bitor_spec(self, rhs: IntervalUnion) -> IntervalUnion {
        arbitrary()
    }
}

} // verus!
