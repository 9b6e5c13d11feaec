//! Set intersection.
use vstd::prelude::*;

use super::{
    covered, is_compact, lemma_points_from_bounds, lemma_points_from_ends, lemma_points_from_split,
    lemma_rep, lemma_single, points_from, points_of, splice, Interval, IntervalUnion,
};

verus! {

broadcast use lemma_rep;

impl Interval {
    /// The common part of two intervals: `Interval(max(amin, bmin), min(amax, bmax))` when that
    /// range is not empty, and `Empty` otherwise.
    ///
    /// The result goes through [`Interval::new`], so two ranges that do not overlap give
    /// `Empty` rather than a range with `min > max`.
    pub fn intersection(self, rhs: Interval) -> (r: Interval)
        ensures
            r.wf(),
            r.points() == self.points().intersect(rhs.points()),
            (self.is_range() && rhs.is_range() && self.lo() <= rhs.hi() && rhs.lo() <= self.hi())
                ==> r == Interval::Interval(
                if self.lo() >= rhs.lo() { self.lo() as i64 } else { rhs.lo() as i64 },
                if self.hi() <= rhs.hi() { self.hi() as i64 } else { rhs.hi() as i64 },
            ),
            !(self.is_range() && rhs.is_range() && self.lo() <= rhs.hi() && rhs.lo() <= self.hi())
                ==> r == Interval::Empty,
    {
        let r = match (self, rhs) {
            (Interval::Interval(amin, amax), Interval::Interval(bmin, bmax)) => {
                let lo = if amin >= bmin { amin } else { bmin };
                let hi = if amax <= bmax { amax } else { bmax };
                Interval::new(lo, hi)
            },
            _ => Interval::Empty,
        };
        assert(r.points() =~= self.points().intersect(rhs.points()));
        r
    }

    /// The intersection of an interval and a set, in a new set.
    pub fn intersection_with(self, rhs: &IntervalUnion) -> (r: IntervalUnion)
        requires
            rhs.wf(),
        ensures
            r.wf(),
            r@ == self.points().intersect(rhs@),
    {
        let r = rhs.intersection_interval(self);
        assert(r@ =~= self.points().intersect(rhs@));
        r
    }
}

impl IntervalUnion {
    /// The intersection of two sets, in a new set: a scan of the two ascending sequences that
    /// skips the interval that ends first while the two heads do not overlap, and otherwise
    /// emits their common part and moves past the one that ends first (both when they end
    /// together).
    pub fn intersection(&self, rhs: &IntervalUnion) -> (r: IntervalUnion)
        requires
            self.wf(),
            rhs.wf(),
        ensures
            r.wf(),
            r@ == self@.intersect(rhs@),
    {
        let a = &self.ivs;
        let b = &rhs.ivs;
        let mut result: Vec<Interval> = Vec::new();
        let mut i: usize = 0;
        let mut j: usize = 0;
        proof {
            lemma_points_from_ends(a@);
            lemma_points_from_ends(b@);
            assert(points_of(result@) =~= Set::<int>::empty());
        }
        while i < a.len() && j < b.len()
            invariant
                is_compact(a@),
                is_compact(b@),
                i <= a@.len(),
                j <= b@.len(),
                is_compact(result@),
                result@.len() > 0 && i < a@.len() && j < b@.len() ==> (result@.last().hi() + 1 < a@[i as int].lo()
                    || result@.last().hi() + 1 < b@[j as int].lo()),
                points_of(result@) + points_from(a@, i as int).intersect(points_from(b@, j as int))
                    == points_of(a@).intersect(points_of(b@)),
            decreases a@.len() + b@.len() - i - j,
        {
            let ghost before = result@;
            let ghost ia = a@[i as int];
            let ghost jb = b@[j as int];
            proof {
                assert(ia.is_range() && jb.is_range());
                lemma_points_from_split(a@, i as int);
                lemma_points_from_split(b@, j as int);
                lemma_points_from_bounds(a@, i as int);
                lemma_points_from_bounds(b@, j as int);
            }
            let amin = a[i].start();
            let amax = a[i].end();
            let bmin = b[j].start();
            let bmax = b[j].end();
            if amax < bmin {
                proof {
                    assert(points_from(a@, i as int).intersect(points_from(b@, j as int))
                        =~= points_from(a@, i + 1).intersect(points_from(b@, j as int)));
                    if i + 1 < a@.len() {
                        assert(ia.hi() + 1 < a@[i + 1].lo());
                    }
                }
                i = i + 1;
            } else if bmax < amin {
                proof {
                    assert(points_from(a@, i as int).intersect(points_from(b@, j as int))
                        =~= points_from(a@, i as int).intersect(points_from(b@, j + 1)));
                    if j + 1 < b@.len() {
                        assert(jb.hi() + 1 < b@[j + 1].lo());
                    }
                }
                j = j + 1;
            } else {
                let lo = if amin >= bmin { amin } else { bmin };
                let hi = if amax <= bmax { amax } else { bmax };
                let piece = Interval::Interval(lo, hi);
                result.push(piece);
                let ni: usize = if amax <= bmax { i + 1 } else { i };
                let nj: usize = if amax >= bmax { j + 1 } else { j };
                proof {
                    let t = result@;
                    assert forall|k: int, l: int| 0 <= k < l < t.len() implies #[trigger] t[k].hi() + 1
                        < #[trigger] t[l].lo() by {
                        if l == t.len() - 1 {
                            if k < l - 1 {
                                assert(before[k].hi() + 1 < before[l - 1].lo());
                                assert(before[l - 1].is_range());
                            }
                        } else {
                            assert(before[k].hi() + 1 < before[l].lo());
                        }
                    }
                    assert forall|k: int| 0 <= k < t.len() implies #[trigger] t[k].is_range() by {
                        if k < t.len() - 1 {
                            assert(before[k].is_range());
                        }
                    }
                    assert(points_of(t) =~= points_of(before) + piece.points()) by {
                        assert forall|x: int| points_of(t).contains(x) == (points_of(before)
                            + piece.points()).contains(x) by {
                            if covered(t, 0, t.len() as int, x) {
                                let k = choose|k: int| 0 <= k < t.len() && #[trigger] t[k].contains(x);
                                if k < before.len() {
                                    assert(before[k].contains(x));
                                }
                            }
                            if covered(before, 0, before.len() as int, x) {
                                let k = choose|k: int| 0 <= k < before.len() && #[trigger] before[k].contains(x);
                                assert(t[k].contains(x));
                            }
                            if piece.contains(x) {
                                assert(t[t.len() - 1].contains(x));
                            }
                        }
                    }
                    if ni < a@.len() && ni > i {
                        assert(ia.hi() + 1 < a@[i + 1].lo());
                    }
                    if nj < b@.len() && nj > j {
                        assert(jb.hi() + 1 < b@[j + 1].lo());
                    }
                    if ni < a@.len() {
                        lemma_points_from_bounds(a@, ni as int);
                    }
                    if nj < b@.len() {
                        lemma_points_from_bounds(b@, nj as int);
                    }
                    assert(points_from(a@, i as int).intersect(points_from(b@, j as int))
                        =~= piece.points() + points_from(a@, ni as int).intersect(points_from(b@, nj as int)));
                }
                i = ni;
                j = nj;
            }
        }
        proof {
            lemma_points_from_ends(a@);
            lemma_points_from_ends(b@);
            assert(points_from(a@, i as int).intersect(points_from(b@, j as int)) =~= Set::<int>::empty());
            assert(points_of(result@) =~= points_of(a@).intersect(points_of(b@)));
        }
        IntervalUnion { ivs: result }
    }

    /// The intersection of a set and an interval, in a new set.
    pub fn intersection_interval(&self, rhs: Interval) -> (r: IntervalUnion)
        requires
            self.wf(),
        ensures
            r.wf(),
            r@ == self@.intersect(rhs.points()),
    {
        let mut r = self.clone();
        r.intersect_assign(rhs);
        r
    }

    /// Keeps only the integers that `rhs` holds, in place: the stored intervals before `rhs` are
    /// dropped, the sequence is cut after the last one that meets `rhs`, and the first and last
    /// of those that remain are narrowed to `rhs`.
    #[verifier::rlimit(60)]
    #[verifier::spinoff_prover]
    pub fn intersect_assign(&mut self, rhs: Interval)
        requires
            old(self).wf(),
        ensures
            final(self).wf(),
            final(self)@ == old(self)@.intersect(rhs.points()),
    {
        let ghost s = self.ivs@;
        let n = self.ivs.len();
        if !rhs.holds_some() {
            splice(&mut self.ivs, 0, n, Vec::new());
            assert(self.ivs@ =~= Seq::<Interval>::empty());
            assert(rhs.points() =~= Set::<int>::empty());
            assert(self@ =~= points_of(s).intersect(rhs.points()));
            return;
        }
        let bmin = rhs.start();
        let bmax = rhs.end();
        assert forall|k: int| 0 <= k < n implies (#[trigger] s[k]) is Interval by {
            assert(s[k].is_range());
        }
        let mut i: usize = 0;
        while i < n && self.ivs[i].end() < bmin
            invariant
                forall|k: int| 0 <= k < n ==> (#[trigger] s[k]) is Interval,
                self.ivs@ == s,
                n == s.len(),
                is_compact(s),
                i <= n,
                forall|k: int| 0 <= k < i ==> #[trigger] s[k].hi() < bmin,
            decreases n - i,
        {
            i = i + 1;
        }
        let mut j: usize = i;
        while j < n && self.ivs[j].start() <= bmax
            invariant
                forall|k: int| 0 <= k < n ==> (#[trigger] s[k]) is Interval,
                self.ivs@ == s,
                n == s.len(),
                is_compact(s),
                i <= j <= n,
                forall|k: int| i <= k < j ==> #[trigger] s[k].lo() <= bmax,
            decreases n - j,
        {
            j = j + 1;
        }
        if i == j {
            splice(&mut self.ivs, 0, n, Vec::new());
            proof {
                assert(self.ivs@ =~= Seq::<Interval>::empty());
                assert forall|x: int| points_of(s).contains(x) implies !rhs.contains(x) by {
                    let k = choose|k: int| 0 <= k < n && #[trigger] s[k].contains(x);
                    if k >= j && k > i {
                        assert(s[i as int].hi() + 1 < s[k].lo());
                        assert(s[i as int].is_range());
                    }
                }
                assert(self@ =~= points_of(s).intersect(rhs.points()));
            }
            return;
        }
        self.ivs.truncate(j);
        let first = self.ivs[i];
        let lo = if first.start() >= bmin { first.start() } else { bmin };
        self.ivs.set(i, Interval::Interval(lo, first.end()));
        let last = self.ivs[j - 1];
        let hi = if last.end() <= bmax { last.end() } else { bmax };
        self.ivs.set(j - 1, Interval::Interval(last.start(), hi));
        let ghost u = self.ivs@;
        splice(&mut self.ivs, 0, i, Vec::new());
        proof {
            let t = self.ivs@;
            assert(t.len() == j - i);
            assert forall|k: int| 0 <= k < t.len() implies t[k] == u[k + i] by {}
            assert(s[i as int].is_range() && s[j - 1].is_range());
            assert(i < n ==> s[i as int].hi() >= bmin);
            assert(j < n ==> s[j as int].lo() > bmax);
            // Each kept interval lies within the one stored at its place before.
            assert forall|k: int| i <= k < j implies #[trigger] u[k].lo() >= s[k].lo() && u[k].hi()
                <= s[k].hi() && u[k].is_range() && (u[k].lo() > s[k].lo() ==> u[k].lo() == bmin)
                && (u[k].hi() < s[k].hi() ==> u[k].hi() == bmax) && u[k].lo() >= bmin && u[k].hi() <= bmax
                by {
                assert(s[k].is_range());
                if k > i {
                    assert(s[i as int].hi() + 1 < s[k].lo());
                }
                if k < j - 1 {
                    assert(s[k].hi() + 1 < s[j - 1].lo());
                }
            }
            assert forall|k: int| 0 <= k < t.len() implies #[trigger] t[k].is_range() by {
                assert(t[k] == u[k + i]);
            }
            assert forall|k: int, l: int| 0 <= k < l < t.len() implies #[trigger] t[k].hi() + 1
                < #[trigger] t[l].lo() by {
                assert(t[k] == u[k + i] && t[l] == u[l + i]);
                assert(s[k + i].hi() + 1 < s[l + i].lo());
                assert(u[k + i].lo() >= s[k + i].lo());
                assert(u[l + i].lo() >= s[l + i].lo());
            }
            assert forall|x: int| #[trigger] points_of(t).contains(x) == (points_of(s).intersect(
                rhs.points(),
            )).contains(x) by {
                if covered(t, 0, t.len() as int, x) {
                    let k = choose|k: int| 0 <= k < t.len() && #[trigger] t[k].contains(x);
                    assert(t[k] == u[k + i]);
                    assert(u[k + i].lo() >= s[k + i].lo());
                    assert(s[k + i].contains(x));
                }
                if covered(s, 0, n as int, x) && rhs.contains(x) {
                    let k = choose|k: int| 0 <= k < n && #[trigger] s[k].contains(x);
                    if k < i {
                        assert(false);
                    } else if k >= j {
                        assert(s[j as int].lo() <= s[k].lo() || k == j) by {
                            if k > j {
                                assert(s[j as int].hi() + 1 < s[k].lo());
                                assert(s[j as int].is_range());
                            }
                        }
                        assert(false);
                    } else {
                        assert(u[k].lo() >= s[k].lo());
                        assert(t[k - i] == u[k]);
                        assert(t[k - i].contains(x));
                    }
                }
            }
            assert(self@ =~= points_of(s).intersect(rhs.points()));
        }
    }

    /// Keeps only the integers that `rhs` holds: in place when `rhs` holds at most one
    /// interval, else by a scan into a new sequence that replaces the stored one.
    pub fn intersect_assign_union(&mut self, rhs: IntervalUnion)
        requires
            old(self).wf(),
            rhs.wf(),
        ensures
            final(self).wf(),
            final(self)@ == old(self)@.intersect(rhs@),
    {
        let n = rhs.ivs.len();
        if n == 0 {
            let ghost s = self.ivs@;
            let len = self.ivs.len();
            splice(&mut self.ivs, 0, len, Vec::new());
            assert(self.ivs@ =~= Seq::<Interval>::empty());
            assert(rhs@ =~= Set::<int>::empty());
            assert(self@ =~= points_of(s).intersect(rhs@));
        } else if n == 1 {
            let only = rhs.ivs[0];
            self.intersect_assign(only);
            proof {
                lemma_single(&rhs);
            }
        } else {
            let r = self.intersection(&rhs);
            *self = r;
        }
    }
}

impl core::ops::BitAnd<Interval> for Interval {
    type Output = Interval;

    /// The intersection of two intervals.
    fn bitand(self, rhs: Interval) -> (r: Interval)
        ensures
            r.wf(),
            r.points() == self.points().intersect(rhs.points()),
    {
        self.intersection(rhs)
    }
}

impl vstd::std_specs::ops::BitAndSpecImpl<Interval> for Interval {
    /// The result is stated by the `ensures` of `bitand` itself.
    open spec fn obeys_bitand_spec() -> bool {
        false
    }

    open spec fn bitand_req(self, rhs: Interval) -> bool {
        true
    }

    open spec fn bitand_spec(self, rhs: Interval) -> Interval {
        arbitrary()
    }
}

impl core::ops::BitAnd<&IntervalUnion> for &IntervalUnion {
    type Output = IntervalUnion;

    /// The intersection of two sets, in a new set.
    fn bitand(self, rhs: &IntervalUnion) -> (r: IntervalUnion)
        ensures
            r.wf(),
            r@ == self@.intersect(rhs@),
    {
        self.intersection(rhs)
    }
}

impl vstd::std_specs::ops::BitAndSpecImpl<&IntervalUnion> for &IntervalUnion {
    /// The result is stated by the `ensures` of `bitand` itself.
    open spec fn obeys_bitand_spec() -> bool {
        false
    }

    open spec fn bitand_req(self, rhs: &IntervalUnion) -> bool {
        self.wf() && rhs.wf()
    }

    open spec fn bitand_spec(self, rhs: &IntervalUnion) -> IntervalUnion {
        arbitrary()
    }
}

impl core::ops::BitAnd<IntervalUnion> for IntervalUnion {
    type Output = IntervalUnion;

    /// The intersection of two sets, reusing the storage of `self`.
    fn bitand(self, rhs: IntervalUnion) -> (r: IntervalUnion)
        ensures
            r.wf(),
            r@ == self@.intersect(rhs@),
    {
        let mut r = self;
        r.intersect_assign_union(rhs);
        r
    }
}

impl vstd::std_specs::ops::BitAndSpecImpl<IntervalUnion> for IntervalUnion {
    /// The result is stated by the `ensures` of `bitand` itself.
    open spec fn obeys_bitand_spec() -> bool {
        false
    }

    open spec fn bitand_req(self, rhs: IntervalUnion) -> bool {
        self.wf() && rhs.wf()
    }

    open spec fn bitand_spec(self, rhs: IntervalUnion) -> IntervalUnion {
        arbitrary()
    }
}

impl core::ops::BitAnd<Interval> for &IntervalUnion {
    type Output = IntervalUnion;

    /// The intersection of a set and an interval, in a new set.
    fn bitand(self, rhs: Interval) -> (r: IntervalUnion)
        ensures
            r.wf(),
            r@ == self@.intersect(rhs.points()),
    {
        self.intersection_interval(rhs)
    }
}

impl vstd::std_specs::ops::BitAndSpecImpl<Interval> for &IntervalUnion {
    /// The result is stated by the `ensures` of `bitand` itself.
    open spec fn obeys_bitand_spec() -> bool {
        false
    }

    open spec fn bitand_req(self, rhs: Interval) -> bool {
        self.wf()
    }

    open spec fn bitand_spec(self, rhs: Interval) -> IntervalUnion {
        arbitrary()
    }
}

impl core::ops::BitAnd<Interval> for IntervalUnion {
    type Output = IntervalUnion;

    /// The intersection of a set and an interval, in place in the storage of `self`.
    fn bitand(self, rhs: Interval) -> (r: IntervalUnion)
        ensures
            r.wf(),
            r@ == self@.intersect(rhs.points()),
    {
        let mut r = self;
        r.intersect_assign(rhs);
        r
    }
}

impl vstd::std_specs::ops::BitAndSpecImpl<Interval> for IntervalUnion {
    /// The result is stated by the `ensures` of `bitand` itself.
    open spec fn obeys_bitand_spec() -> bool {
        false
    }

    open spec fn bitand_req(self, rhs: Interval) -> bool {
        self.wf()
    }

    open spec fn bitand_spec(self, rhs: Interval) -> IntervalUnion {
        arbitrary()
    }
}

impl core::ops::BitAndAssign<Interval> for IntervalUnion {
    /// In place: see [`IntervalUnion::intersect_assign`].
    fn bitand_assign(&mut self, rhs: Interval)
        requires
            old(self).wf(),
        ensures
            final(self).wf(),
            final(self)@ == old(self)@.intersect(rhs.points()),
    {
        self.intersect_assign(rhs)
    }
}

impl core::ops::BitAndAssign<IntervalUnion> for IntervalUnion {
    /// See [`IntervalUnion::intersect_assign_union`].
    fn bitand_assign(&mut self, rhs: IntervalUnion)
        requires
            old(self).wf(),
            rhs.wf(),
        ensures
            final(self).wf(),
            final(self)@ == old(self)@.intersect(rhs@),
    {
        self.intersect_assign_union(rhs)
    }
}

impl core::ops::BitAndAssign<Interval> for Interval {
    /// Narrows `self` to its common part with `rhs`.
    fn bitand_assign(&mut self, rhs: Interval)
        ensures
            final(self).wf(),
            final(self).points() == old(self).points().intersect(rhs.points()),
    {
        *self = self.intersection(rhs)
    }
}

impl core::ops::BitAnd<&IntervalUnion> for Interval {
    type Output = IntervalUnion;

    /// The intersection of an interval and a set, in a new set.
    fn bitand(self, rhs: &IntervalUnion) -> (r: IntervalUnion)
        ensures
            r.wf(),
            r@ == self.points().intersect(rhs@),
    {
        self.intersection_with(rhs)
    }
}

impl vstd::std_specs::ops::BitAndSpecImpl<&IntervalUnion> for Interval {
    /// The result is stated by the `ensures` of `bitand` itself.
    open spec fn obeys_bitand_spec() -> bool {
        false
    }

    open spec fn bitand_req(self, rhs: &IntervalUnion) -> bool {
        rhs.wf()
    }

    open spec fn bitand_spec(self, rhs: &IntervalUnion) -> IntervalUnion {
        arbitrary()
    }
}

impl core::ops::BitAnd<IntervalUnion> for Interval {
    type Output = IntervalUnion;

    /// The intersection of an interval and a set.
    fn bitand(self, rhs: IntervalUnion) -> (r: IntervalUnion)
        ensures
            r.wf(),
            r@ == self.points().intersect(rhs@),
    {
        self.intersection_with(&rhs)
    }
}

impl vstd::std_specs::ops::BitAndSpecImpl<IntervalUnion> for Interval {
    /// The result is stated by the `ensures` of `bitand` itself.
    open spec fn obeys_bitand_spec() -> bool {
        false
    }

    open spec fn bitand_req(self, rhs: IntervalUnion) -> bool {
        rhs.wf()
    }

    open spec fn bitand_spec(self, rhs: IntervalUnion) -> IntervalUnion {
        arbitrary()
    }
}

impl core::ops::BitAnd<&IntervalUnion> for IntervalUnion {
    type Output = IntervalUnion;

    /// The intersection of two sets.
    fn bitand(self, rhs: &IntervalUnion) -> (r: IntervalUnion)
        ensures
            r.wf(),
            r@ == self@.intersect(rhs@),
    {
        (&self).intersection(rhs)
    }
}

impl vstd::std_specs::ops::BitAndSpecImpl<&IntervalUnion> for IntervalUnion {
    /// The result is stated by the `ensures` of `bitand` itself.
    open spec fn obeys_bitand_spec() -> bool {
        false
    }

    open spec fn bitand_req(self, rhs: &IntervalUnion) -> bool {
        self.wf() && rhs.wf()
    }

    open spec fn bitand_spec(self, rhs: &IntervalUnion) -> IntervalUnion {
        arbitrary()
    }
}

impl core::ops::BitAnd<IntervalUnion> for &IntervalUnion {
    type Output = IntervalUnion;

    /// The intersection of two sets.
    fn bitand(self, rhs: IntervalUnion) -> (r: IntervalUnion)
        ensures
            r.wf(),
            r@ == self@.intersect(rhs@),
    {
        self.intersection(&rhs)
    }
}

impl vstd::std_specs::ops::BitAndSpecImpl<IntervalUnion> for &IntervalUnion {
    /// The result is stated by the `ensures` of `bitand` itself.
    open spec fn obeys_bitand_spec() -> bool {
        false
    }

    open spec fn bitand_req(self, rhs: IntervalUnion) -> bool {
        self.wf() && rhs.wf()
    }

    open spec fn bitand_spec(self, rhs: IntervalUnion) -> IntervalUnion {
        arbitrary()
    }
}

} // verus!
