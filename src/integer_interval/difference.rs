//! Set difference.
use vstd::prelude::*;

use super::{
    covered, is_compact, lemma_points_from_bounds, lemma_points_from_ends, lemma_points_from_split,
    lemma_rep, lemma_single, points_from, points_of, splice, Interval, IntervalUnion,
};

verus! {

broadcast use lemma_rep;

/// What is left of the sequence `a` from position `i` on, when its interval at `i` has been
/// trimmed to `cur`.
spec fn remaining(a: Seq<Interval>, i: int, cur: Interval) -> Set<int> {
    if i < a.len() {
        cur.points() + points_from(a, i + 1)
    } else {
        Set::empty()
    }
}

impl Interval {
    /// The integers of `self` that `rhs` does not hold: the part below `rhs` and the part above
    /// it, each when not empty.
    pub fn difference(self, rhs: Interval) -> (r: IntervalUnion)
        ensures
            r.wf(),
            r@ == self.points().difference(rhs.points()),
    {
        if !self.holds_some() {
            let r = IntervalUnion::new();
            assert(r@ =~= self.points().difference(rhs.points()));
            return r;
        }
        if !rhs.holds_some() {
            let r = self.union(Interval::Empty);
            assert(r@ =~= self.points().difference(rhs.points()));
            return r;
        }
        let amin = self.start();
        let amax = self.end();
        let bmin = rhs.start();
        let bmax = rhs.end();
        let left = if amin < bmin {
            Interval::new(amin, if amax <= bmin - 1 { amax } else { bmin - 1 })
        } else {
            Interval::Empty
        };
        let right = if amax > bmax {
            Interval::new(if amin >= bmax + 1 { amin } else { bmax + 1 }, amax)
        } else {
            Interval::Empty
        };
        let r = left.union(right);
        assert(r@ =~= self.points().difference(rhs.points()));
        r
    }

    /// The integers of `self` that the set `rhs` does not hold, in a new set.
    pub fn difference_with(self, rhs: &IntervalUnion) -> (r: IntervalUnion)
        requires
            rhs.wf(),
        ensures
            r.wf(),
            r@ == self.points().difference(rhs@),
    {
        let single = self.union(Interval::Empty);
        assert(Interval::Empty.points() =~= Set::<int>::empty());
        assert(single@ =~= self.points());
        single.difference(rhs)
    }
}

impl IntervalUnion {
    /// The integers of `self` that `rhs` does not hold, in a new set: a scan of the two
    /// ascending sequences that passes the intervals of `rhs` that lie below the current one of
    /// `self`, emits that one whole when it lies below the current one of `rhs`, and otherwise
    /// emits the part below `rhs` and goes on with the part above it.
    pub fn difference(&self, rhs: &IntervalUnion) -> (r: IntervalUnion)
        requires
            self.wf(),
            rhs.wf(),
        ensures
            r.wf(),
            r@ == self@.difference(rhs@),
    {
        let a = &self.ivs;
        let b = &rhs.ivs;
        let mut result: Vec<Interval> = Vec::new();
        let mut i: usize = 0;
        let mut j: usize = 0;
        let mut cur = if a.len() > 0 {
            a[0]
        } else {
            Interval::Empty
        };
        proof {
            lemma_points_from_ends(a@);
            lemma_points_from_ends(b@);
            assert(points_of(result@) =~= Set::<int>::empty());
            if a@.len() > 0 {
                lemma_points_from_split(a@, 0);
                assert(a@[0].is_range());
            }
            assert(remaining(a@, 0, cur) =~= points_of(a@));
        }
        while i < a.len()
            invariant
                is_compact(a@),
                is_compact(b@),
                i <= a@.len(),
                j <= b@.len(),
                i < a@.len() ==> cur.is_range() && cur.hi() == a@[i as int].hi() && cur.lo() >= a@[i as int].lo(),
                is_compact(result@),
                result@.len() > 0 && i < a@.len() ==> result@.last().hi() + 1 < cur.lo(),
                points_of(result@) + remaining(a@, i as int, cur).difference(points_from(b@, j as int))
                    == points_of(a@).difference(points_of(b@)),
            decreases a@.len() - i, b@.len() - j,
        {
            let ghost before = result@;
            let ghost old_cur = cur;
            let ghost i0 = i as int;
            let ghost j0 = j as int;
            proof {
                lemma_points_from_bounds(a@, i as int);
                if i + 1 < a@.len() {
                    assert(a@[i as int].hi() + 1 < a@[i + 1].lo());
                    lemma_points_from_bounds(a@, i + 1);
                }
                if j < b@.len() {
                    assert(b@[j as int].is_range());
                    lemma_points_from_split(b@, j as int);
                    lemma_points_from_bounds(b@, j as int);
                    if j + 1 < b@.len() {
                        assert(b@[j as int].hi() + 1 < b@[j + 1].lo());
                    }
                }
            }
            let cmin = cur.start();
            let cmax = cur.end();
            let mut emitted = Interval::Empty;
            let mut next_i = false;
            if j >= b.len() {
                emitted = cur;
                next_i = true;
                proof {
                    assert(points_from(b@, j as int) =~= Set::<int>::empty());
                }
            } else {
                let bmin = b[j].start();
                let bmax = b[j].end();
                if bmax < cmin {
                    j = j + 1;
                } else if cmax < bmin {
                    emitted = cur;
                    next_i = true;
                } else {
                    if cmin < bmin {
                        emitted = Interval::Interval(cmin, bmin - 1);
                    }
                    if cmax > bmax {
                        cur = Interval::Interval(bmax + 1, cmax);
                        j = j + 1;
                    } else {
                        next_i = true;
                    }
                }
            }
            if emitted.holds_some() {
                result.push(emitted);
                proof {
                    let t = result@;
                    assert forall|k: int, l: int| 0 <= k < l < t.len() implies #[trigger] t[k].hi() + 1
                        < #[trigger] t[l].lo() by {
                        if l == t.len() - 1 {
                            if k < l - 1 {
                                assert(before[k].hi() + 1 < before[l - 1].lo());
                                assert(before[l - 1].is_range());
                            }
                        } else {
                            assert(before[k].hi() + 1 < before[l].lo());
                        }
                    }
                    assert forall|k: int| 0 <= k < t.len() implies #[trigger] t[k].is_range() by {
                        if k < t.len() - 1 {
                            assert(before[k].is_range());
                        }
                    }
                    assert forall|x: int| points_of(t).contains(x) == (points_of(before)
                        + emitted.points()).contains(x) by {
                        if covered(t, 0, t.len() as int, x) {
                            let k = choose|k: int| 0 <= k < t.len() && #[trigger] t[k].contains(x);
                            if k < before.len() {
                                assert(before[k].contains(x));
                            }
                        }
                        if covered(before, 0, before.len() as int, x) {
                            let k = choose|k: int| 0 <= k < before.len() && #[trigger] before[k].contains(x);
                            assert(t[k].contains(x));
                        }
                        if emitted.contains(x) {
                            assert(t[t.len() - 1].contains(x));
                        }
                    }
                    assert(points_of(t) =~= points_of(before) + emitted.points());
                }
            } else {
                proof {
                    assert(emitted.points() =~= Set::<int>::empty());
                    assert(points_of(result@) =~= points_of(before) + emitted.points());
                }
            }
            if next_i {
                i = i + 1;
                if i < a.len() {
                    cur = a[i];
                }
            }
            proof {
                if i < a@.len() {
                    assert(a@[i as int].is_range());
                }
                if next_i && i < a@.len() {
                    lemma_points_from_split(a@, i as int);
                }
                assert(remaining(a@, i0, old_cur).difference(points_from(b@, j0)) =~= emitted.points() + remaining(a@, i as int, cur).difference(
                    points_from(b@, j as int),
                ));
            }
        }
        proof {
            assert(remaining(a@, i as int, cur) =~= Set::<int>::empty());
            assert(points_of(result@) =~= points_of(a@).difference(points_of(b@)));
        }
        IntervalUnion { ivs: result }
    }

    /// The integers of `self` that `rhs` does not hold, in a new set.
    pub fn difference_interval(&self, rhs: Interval) -> (r: IntervalUnion)
        requires
            self.wf(),
        ensures
            r.wf(),
            r@ == self@.difference(rhs.points()),
    {
        let mut r = self.clone();
        r.difference_assign(rhs);
        r
    }

    /// Removes the integers of `rhs` from the set, in place: the stored intervals that meet
    /// `rhs` give way to what is left of the first of them below `rhs` and of the last of them
    /// above it, so that an interval that straddles `rhs` splits in two.
    #[verifier::rlimit(60)]
    #[verifier::spinoff_prover]
    pub fn difference_assign(&mut self, rhs: Interval)
        requires
            old(self).wf(),
        ensures
            final(self).wf(),
            final(self)@ == old(self)@.difference(rhs.points()),
    {
        if !rhs.holds_some() {
            assert(rhs.points() =~= Set::<int>::empty());
            assert(self@ =~= self@.difference(rhs.points()));
            return;
        }
        let ghost s = self.ivs@;
        let n = self.ivs.len();
        let bmin = rhs.start();
        let bmax = rhs.end();
        assert forall|k: int| 0 <= k < n implies (#[trigger] s[k]) is Interval by {
            assert(s[k].is_range());
        }
        let mut i: usize = 0;
        while i < n && self.ivs[i].end() < bmin
            invariant
                forall|k: int| 0 <= k < n ==> (#[trigger] s[k]) is Interval,
                self.ivs@ == s,
                n == s.len(),
                is_compact(s),
                i <= n,
                forall|k: int| 0 <= k < i ==> #[trigger] s[k].hi() < bmin,
            decreases n - i,
        {
            i = i + 1;
        }
        let mut j: usize = i;
        while j < n && self.ivs[j].start() <= bmax
            invariant
                forall|k: int| 0 <= k < n ==> (#[trigger] s[k]) is Interval,
                self.ivs@ == s,
                n == s.len(),
                is_compact(s),
                i <= j <= n,
                forall|k: int| i <= k < j ==> #[trigger] s[k].lo() <= bmax,
            decreases n - j,
        {
            j = j + 1;
        }
        let mut pieces: Vec<Interval> = Vec::new();
        let mut left = Interval::Empty;
        let mut right = Interval::Empty;
        if i < j {
            let first = self.ivs[i];
            let last = self.ivs[j - 1];
            if first.start() < bmin {
                left = Interval::Interval(first.start(), bmin - 1);
                pieces.push(left);
            }
            if last.end() > bmax {
                right = Interval::Interval(bmax + 1, last.end());
                pieces.push(right);
            }
        }
        let ghost p = pieces@;
        splice(&mut self.ivs, i, j, pieces);
        proof {
            let t = self.ivs@;
            let np = p.len() as int;
            assert(i < n ==> s[i as int].hi() >= bmin);
            assert(j < n ==> s[j as int].lo() > bmax);
            if i < j {
                assert(s[i as int].is_range() && s[j - 1].is_range());
            }
            assert forall|k: int| 0 <= k < t.len() implies #[trigger] t[k].is_range() by {
                if k < i {
                    assert(t[k] == s[k]);
                } else if k >= i + np {
                    assert(t[k] == s[k - i - np + j]);
                }
            }
            assert forall|k: int, l: int| 0 <= k < l < t.len() implies #[trigger] t[k].hi() + 1
                < #[trigger] t[l].lo() by {
                if l < i {
                    assert(t[k] == s[k] && t[l] == s[l]);
                } else if k >= i + np {
                    assert(t[k] == s[k - i - np + j] && t[l] == s[l - i - np + j]);
                } else {
                    // k is kept from below, or is a piece
                    if k < i {
                        assert(t[k] == s[k]);
                        assert(s[k].hi() + 1 < s[i as int].lo() || i == j);
                        if l >= i + np {
                            assert(t[l] == s[l - i - np + j]);
                            assert(s[k].hi() + 1 < s[l - i - np + j].lo());
                        }
                    } else {
                        if l >= i + np {
                            let m = l - i - np + j;
                            assert(t[l] == s[m]);
                            assert(s[j as int].is_range());
                            if m > j {
                                assert(s[j as int].hi() + 1 < s[m].lo());
                            }
                            if i < j {
                                assert(s[j - 1].hi() + 1 < s[j as int].lo());
                            }
                        }
                    }
                }
            }
            assert forall|x: int| #[trigger] points_of(t).contains(x) == (points_of(s).difference(
                rhs.points(),
            )).contains(x) by {
                if covered(t, 0, t.len() as int, x) {
                    let k = choose|k: int| 0 <= k < t.len() && #[trigger] t[k].contains(x);
                    if k < i {
                        assert(s[k].contains(x));
                    } else if k >= i + np {
                        let m = k - i - np + j;
                        assert(s[m].contains(x));
                        assert(s[j as int].lo() <= s[m].lo()) by {
                            if m > j {
                                assert(s[j as int].hi() + 1 < s[m].lo());
                                assert(s[j as int].is_range());
                            }
                        }
                    } else if t[k] == left && left.contains(x) {
                        assert(s[i as int].contains(x));
                    } else {
                        assert(s[j - 1].contains(x));
                    }
                }
                if covered(s, 0, n as int, x) && !rhs.contains(x) {
                    let k = choose|k: int| 0 <= k < n && #[trigger] s[k].contains(x);
                    if k < i {
                        assert(t[k].contains(x));
                    } else if k >= j {
                        assert(t[k - j + i + np] == s[k]);
                        assert(t[k - j + i + np].contains(x));
                    } else if x < bmin {
                        assert(s[i as int].lo() <= s[k].lo()) by {
                            if k > i {
                                assert(s[i as int].hi() + 1 < s[k].lo());
                            }
                        }
                        assert(k == i) by {
                            if k > i {
                                assert(s[i as int].hi() + 1 < s[k].lo());
                            }
                        }
                        assert(t[i as int] == left);
                        assert(t[i as int].contains(x));
                    } else {
                        assert(k == j - 1) by {
                            if k < j - 1 {
                                assert(s[k].hi() + 1 < s[j - 1].lo());
                            }
                        }
                        assert(t[i + np - 1] == right);
                        assert(t[i + np - 1].contains(x));
                    }
                }
            }
            assert(self@ =~= points_of(s).difference(rhs.points()));
        }
    }

    /// Removes the integers of `rhs` from the set: in place when `rhs` holds at most one
    /// interval, else by a scan into a new sequence that replaces the stored one.
    pub fn difference_assign_union(&mut self, rhs: IntervalUnion)
        requires
            old(self).wf(),
            rhs.wf(),
        ensures
            final(self).wf(),
            final(self)@ == old(self)@.difference(rhs@),
    {
        let n = rhs.ivs.len();
        if n == 0 {
            assert(rhs@ =~= Set::<int>::empty());
            assert(self@ =~= self@.difference(rhs@));
        } else if n == 1 {
            let only = rhs.ivs[0];
            self.difference_assign(only);
            proof {
                lemma_single(&rhs);
            }
        } else {
            let r = self.difference(&rhs);
            *self = r;
        }
    }
}

impl core::ops::Sub<Interval> for Interval {
    type Output = IntervalUnion;

    /// The difference of two intervals.
    fn sub(self, rhs: Interval) -> (r: IntervalUnion)
        ensures
            r.wf(),
            r@ == self.points().difference(rhs.points()),
    {
        self.difference(rhs)
    }
}

impl vstd::std_specs::ops::SubSpecImpl<Interval> for Interval {
    /// The result is stated by the `ensures` of `sub` itself.
    open spec fn obeys_sub_spec() -> bool {
        false
    }

    open spec fn sub_req(self, rhs: Interval) -> bool {
        true
    }

    open spec fn sub_spec(self, rhs: Interval) -> IntervalUnion {
        arbitrary()
    }
}

impl core::ops::Sub<&IntervalUnion> for &IntervalUnion {
    type Output = IntervalUnion;

    /// The difference of two sets, in a new set.
    fn sub(self, rhs: &IntervalUnion) -> (r: IntervalUnion)
        ensures
            r.wf(),
            r@ == self@.difference(rhs@),
    {
        self.difference(rhs)
    }
}

impl vstd::std_specs::ops::SubSpecImpl<&IntervalUnion> for &IntervalUnion {
    /// The result is stated by the `ensures` of `sub` itself.
    open spec fn obeys_sub_spec() -> bool {
        false
    }

    open spec fn sub_req(self, rhs: &IntervalUnion) -> bool {
        self.wf() && rhs.wf()
    }

    open spec fn sub_spec(self, rhs: &IntervalUnion) -> IntervalUnion {
        arbitrary()
    }
}

impl core::ops::Sub<IntervalUnion> for IntervalUnion {
    type Output = IntervalUnion;

    /// The difference of two sets, reusing the storage of `self`.
    fn sub(self, rhs: IntervalUnion) -> (r: IntervalUnion)
        ensures
            r.wf(),
            r@ == self@.difference(rhs@),
    {
        let mut r = self;
        r.difference_assign_union(rhs);
        r
    }
}

impl vstd::std_specs::ops::SubSpecImpl<IntervalUnion> for IntervalUnion {
    /// The result is stated by the `ensures` of `sub` itself.
    open spec fn obeys_sub_spec() -> bool {
        false
    }

    open spec fn sub_req(self, rhs: IntervalUnion) -> bool {
        self.wf() && rhs.wf()
    }

    open spec fn sub_spec(self, rhs: IntervalUnion) -> IntervalUnion {
        arbitrary()
    }
}

impl core::ops::Sub<Interval> for &IntervalUnion {
    type Output = IntervalUnion;

    /// The difference of a set and an interval, in a new set.
    fn sub(self, rhs: Interval) -> (r: IntervalUnion)
        ensures
            r.wf(),
            r@ == self@.difference(rhs.points()),
    {
        self.difference_interval(rhs)
    }
}

impl vstd::std_specs::ops::SubSpecImpl<Interval> for &IntervalUnion {
    /// The result is stated by the `ensures` of `sub` itself.
    open spec fn obeys_sub_spec() -> bool {
        false
    }

    open spec fn sub_req(self, rhs: Interval) -> bool {
        self.wf()
    }

    open spec fn sub_spec(self, rhs: Interval) -> IntervalUnion {
        arbitrary()
    }
}

impl core::ops::Sub<Interval> for IntervalUnion {
    type Output = IntervalUnion;

    /// The difference of a set and an interval, in place in the storage of `self`.
    fn sub(self, rhs: Interval) -> (r: IntervalUnion)
        ensures
            r.wf(),
            r@ == self@.difference(rhs.points()),
    {
        let mut r = self;
        r.difference_assign(rhs);
        r
    }
}

impl vstd::std_specs::ops::SubSpecImpl<Interval> for IntervalUnion {
    /// The result is stated by the `ensures` of `sub` itself.
    open spec fn obeys_sub_spec() -> bool {
        false
    }

    open spec fn sub_req(self, rhs: Interval) -> bool {
        self.wf()
    }

    open spec fn sub_spec(self, rhs: Interval) -> IntervalUnion {
        arbitrary()
    }
}

impl core::ops::SubAssign<Interval> for IntervalUnion {
    /// In place: see [`IntervalUnion::difference_assign`].
    fn sub_assign(&mut self, rhs: Interval)
        requires
            old(self).wf(),
        ensures
            final(self).wf(),
            final(self)@ == old(self)@.difference(rhs.points()),
    {
        self.difference_assign(rhs)
    }
}

impl core::ops::SubAssign<IntervalUnion> for IntervalUnion {
    /// See [`IntervalUnion::difference_assign_union`].
    fn sub_assign(&mut self, rhs: IntervalUnion)
        requires
            old(self).wf(),
            rhs.wf(),
        ensures
            final(self).wf(),
            final(self)@ == old(self)@.difference(rhs@),
    {
        self.difference_assign_union(rhs)
    }
}

impl core::ops::Sub<&IntervalUnion> for Interval {
    type Output = IntervalUnion;

    /// The difference of an interval and a set, in a new set.
    fn sub(self, rhs: &IntervalUnion) -> (r: IntervalUnion)
        ensures
            r.wf(),
            r@ == self.points().difference(rhs@),
    {
        self.difference_with(rhs)
    }
}

impl vstd::std_specs::ops::SubSpecImpl<&IntervalUnion> for Interval {
    /// The result is stated by the `ensures` of `sub` itself.
    open spec fn obeys_sub_spec() -> bool {
        false
    }

    open spec fn sub_req(self, rhs: &IntervalUnion) -> bool {
        rhs.wf()
    }

    open spec fn sub_spec(self, rhs: &IntervalUnion) -> IntervalUnion {
        arbitrary()
    }
}

impl core::ops::Sub<IntervalUnion> for Interval {
    type Output = IntervalUnion;

    /// The difference of an interval and a set.
    fn sub(self, rhs: IntervalUnion) -> (r: IntervalUnion)
        ensures
            r.wf(),
            r@ == self.points().difference(rhs@),
    {
        self.difference_with(&rhs)
    }
}

impl vstd::std_specs::ops::SubSpecImpl<IntervalUnion> for Interval {
    /// The result is stated by the `ensures` of `sub` itself.
    open spec fn obeys_sub_spec() -> bool {
        false
    }

    open spec fn sub_req(self, rhs: IntervalUnion) -> bool {
        rhs.wf()
    }

    open spec fn sub_spec(self, rhs: IntervalUnion) -> IntervalUnion {
        arbitrary()
    }
}

impl core::ops::Sub<&IntervalUnion> for IntervalUnion {
    type Output = IntervalUnion;

    /// The difference of two sets.
    fn sub(self, rhs: &IntervalUnion) -> (r: IntervalUnion)
        ensures
            r.wf(),
            r@ == self@.difference(rhs@),
    {
        (&self).difference(rhs)
    }
}

impl vstd::std_specs::ops::SubSpecImpl<&IntervalUnion> for IntervalUnion {
    /// The result is stated by the `ensures` of `sub` itself.
    open spec fn obeys_sub_spec() -> bool {
        false
    }

    open spec fn sub_req(self, rhs: &IntervalUnion) -> bool {
        self.wf() && rhs.wf()
    }

    open spec fn sub_spec(self, rhs: &IntervalUnion) -> IntervalUnion {
        arbitrary()
    }
}

impl core::ops::Sub<IntervalUnion> for &IntervalUnion {
    type Output = IntervalUnion;

    /// The difference of two sets.
    fn sub(self, rhs: IntervalUnion) -> (r: IntervalUnion)
        ensures
            r.wf(),
            r@ == self@.difference(rhs@),
    {
        self.difference(&rhs)
    }
}

impl vstd::std_specs::ops::SubSpecImpl<IntervalUnion> for &IntervalUnion {
    /// The result is stated by the `ensures` of `sub` itself.
    open spec fn obeys_sub_spec() -> bool {
        false
    }

    open spec fn sub_req(self, rhs: IntervalUnion) -> bool {
        self.wf() && rhs.wf()
    }

    open spec fn sub_spec(self, rhs: IntervalUnion) -> IntervalUnion {
        arbitrary()
    }
}

} // verus!
