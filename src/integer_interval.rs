//! Sets of integers held as a minimal ordered sequence of disjoint closed ranges.
use vstd::prelude::*;
use vstd::set_lib::*;

mod difference;
mod intersection;
pub mod laws;
mod union;

verus! {

/// A closed range of integers `[min, max]`, or the empty set.
///
/// The constructors never produce `Interval(min, max)` with `min > max`; a value built by hand
/// with `min > max` holds no integer and is treated as empty by every set operation.
#[derive(Debug, Clone, Copy, PartialEq, Eq, Structural, PartialOrd, Ord)]
pub enum Interval {
    Interval(i64, i64),
    Empty,
}

impl Interval {
    pub open spec fn lo(self) -> int {
        match self {
            Interval::Interval(a, _) => a as int,
            Interval::Empty => 0,
        }
    }

    pub open spec fn hi(self) -> int {
        match self {
            Interval::Interval(_, b) => b as int,
            Interval::Empty => -1,
        }
    }

    /// A range that holds at least one integer.
    pub open spec fn is_range(self) -> bool {
        self is Interval && self.lo() <= self.hi()
    }

    /// The constructors' invariant: a range never has `min > max`.
    pub open spec fn wf(self) -> bool {
        self is Interval ==> self.lo() <= self.hi()
    }

    pub open spec fn contains(self, x: int) -> bool {
        self is Interval && self.lo() <= x <= self.hi()
    }

    /// The integers the interval holds.
    pub open spec fn points(self) -> Set<int> {
        Set::new(|x: int| self.contains(x))
    }

    pub open spec fn spec_size(self) -> int {
        match self {
            Interval::Interval(a, b) => b - a + 1,
            Interval::Empty => 0,
        }
    }

    pub open spec fn spec_new(min_value: i64, max_value: i64) -> Interval {
        if min_value <= max_value {
            Interval::Interval(min_value, max_value)
        } else {
            Interval::Empty
        }
    }

    pub open spec fn spec_as_option(self) -> Option<Interval> {
        match self {
            Interval::Interval(_, _) => Some(self),
            Interval::Empty => None,
        }
    }

    /// Returns `Interval(min, max)` if `min <= max`, else `Empty`.
    pub fn new(min_value: i64, max_value: i64) -> (r: Interval)
        ensures
            r == Interval::spec_new(min_value, max_value),
            r.wf(),
            min_value <= max_value ==> r == Interval::Interval(min_value, max_value),
            min_value > max_value ==> r == Interval::Empty,
    {
        if min_value <= max_value {
            Interval::Interval(min_value, max_value)
        } else {
            Interval::Empty
        }
    }

    /// The interval of `size_value` integers starting at `min_value`.
    pub fn new_from_size(min_value: i64, size_value: i64) -> (r: Interval)
        requires
            size_value >= 1,
            min_value + size_value - 1 <= i64::MAX,
        ensures
            r == Interval::Interval(min_value, (min_value + size_value - 1) as i64),
            r.wf(),
            r.spec_size() == size_value,
    {
        Interval::Interval(min_value, min_value + (size_value - 1))
    }

    /// `max - min + 1` for a range, 0 for `Empty`.
    pub fn size(self) -> (r: i64)
        requires
            i64::MIN <= self.spec_size() <= i64::MAX,
        ensures
            r == self.spec_size(),
    {
        match self {
            Interval::Interval(a, b) => if a <= b {
                b - a + 1
            } else {
                b - (a - 1)
            },
            Interval::Empty => 0,
        }
    }

    /// `None` for `Empty`, the interval itself otherwise.
    pub fn as_option(self) -> (r: Option<Interval>)
        ensures
            r == self.spec_as_option(),
            self is Empty ==> r is None,
            self is Interval ==> r == Some(self),
    {
        match self {
            Interval::Interval(_, _) => Some(self),
            Interval::Empty => None,
        }
    }

    pub(crate) fn start(self) -> (r: i64)
        requires
            self is Interval,
        ensures
            r == self.lo(),
    {
        match self {
            Interval::Interval(a, _) => a,
            Interval::Empty => 0,
        }
    }

    pub(crate) fn end(self) -> (r: i64)
        requires
            self is Interval,
        ensures
            r == self.hi(),
    {
        match self {
            Interval::Interval(_, b) => b,
            Interval::Empty => 0,
        }
    }

    pub(crate) fn holds_some(self) -> (r: bool)
        ensures
            r == self.is_range(),
    {
        match self {
            Interval::Interval(a, b) => a <= b,
            Interval::Empty => false,
        }
    }
}

/// `hi + 1 < lo`, computed without overflow.
pub(crate) fn gap_between(hi: i64, lo: i64) -> (r: bool)
    ensures
        r == (hi + 1 < lo),
{
    hi < lo && hi < lo - 1
}

impl From<Option<Interval>> for Interval {
    fn from(value: Option<Interval>) -> (r: Interval) {
        match value {
            Some(i) => i,
            None => Interval::Empty,
        }
    }
}

impl vstd::std_specs::convert::FromSpecImpl<Option<Interval>> for Interval {
    open spec fn obeys_from_spec() -> bool {
        true
    }

    open spec fn from_spec(v: Option<Interval>) -> Interval {
        match v {
            Some(i) => i,
            None => Interval::Empty,
        }
    }
}

impl From<Option<&Interval>> for Interval {
    fn from(value: Option<&Interval>) -> (r: Interval) {
        match value {
            Some(i) => *i,
            None => Interval::Empty,
        }
    }
}

impl vstd::std_specs::convert::FromSpecImpl<Option<&Interval>> for Interval {
    open spec fn obeys_from_spec() -> bool {
        true
    }

    open spec fn from_spec(v: Option<&Interval>) -> Interval {
        match v {
            Some(i) => *i,
            None => Interval::Empty,
        }
    }
}

impl From<[i64; 2]> for Interval {
    /// `[min, max]`, through [`Interval::new`]: `Empty` when `min > max`.
    fn from(value: [i64; 2]) -> (r: Interval) {
        Interval::new(value[0], value[1])
    }
}

impl vstd::std_specs::convert::FromSpecImpl<[i64; 2]> for Interval {
    open spec fn obeys_from_spec() -> bool {
        true
    }

    open spec fn from_spec(v: [i64; 2]) -> Interval {
        Interval::spec_new(v@[0], v@[1])
    }
}

impl From<[i64; 0]> for Interval {
    /// No bounds: the empty interval.
    fn from(value: [i64; 0]) -> (r: Interval) {
        Interval::Empty
    }
}

impl vstd::std_specs::convert::FromSpecImpl<[i64; 0]> for Interval {
    open spec fn obeys_from_spec() -> bool {
        true
    }

    open spec fn from_spec(v: [i64; 0]) -> Interval {
        Interval::Empty
    }
}

impl From<(i64, i64)> for Interval {
    /// `(min, max)`, through [`Interval::new`]: `Empty` when `min > max`.
    fn from(value: (i64, i64)) -> (r: Interval) {
        Interval::new(value.0, value.1)
    }
}

impl vstd::std_specs::convert::FromSpecImpl<(i64, i64)> for Interval {
    open spec fn obeys_from_spec() -> bool {
        true
    }

    open spec fn from_spec(v: (i64, i64)) -> Interval {
        Interval::spec_new(v.0, v.1)
    }
}

/// Some interval among `s[lo..hi]` holds `x`.
pub open spec fn covered(s: Seq<Interval>, lo: int, hi: int, x: int) -> bool {
    exists|k: int| lo <= k < hi && #[trigger] s[k].contains(x)
}

/// The integers held by the intervals of `s`.
pub open spec fn points_of(s: Seq<Interval>) -> Set<int> {
    Set::new(|x: int| covered(s, 0, s.len() as int, x))
}

/// The first `n` intervals are non-empty ranges, in ascending order, and any two of them are
/// separated by a gap of at least one integer.
pub open spec fn compact_prefix(s: Seq<Interval>, n: int) -> bool {
    &&& forall|k: int| 0 <= k < n ==> #[trigger] s[k].is_range()
    &&& forall|k: int, l: int| 0 <= k < l < n ==> #[trigger] s[k].hi() + 1 < #[trigger] s[l].lo()
}

/// Every interval is a non-empty range, in ascending order, and any two are separated by a gap
/// of at least one integer: the canonical form of a set of integers.
pub open spec fn is_compact(s: Seq<Interval>) -> bool {
    compact_prefix(s, s.len() as int)
}

/// Non-empty ranges, ascending by their least element.
pub open spec fn sorted_ranges(s: Seq<Interval>) -> bool {
    &&& forall|k: int| 0 <= k < s.len() ==> #[trigger] s[k].is_range()
    &&& forall|k: int, l: int| 0 <= k < l < s.len() ==> #[trigger] s[k].lo() <= #[trigger] s[l].lo()
}

/// The sum of the sizes of the intervals.
pub open spec fn total_size(s: Seq<Interval>) -> int
    decreases s.len(),
{
    if s.len() == 0 {
        0
    } else {
        total_size(s.drop_last()) + s.last().spec_size()
    }
}

/// Two compact sequences that hold the same integers are the same sequence.
pub proof fn lemma_compact_canonical(s: Seq<Interval>, t: Seq<Interval>)
    requires
        is_compact(s),
        is_compact(t),
        points_of(s) == points_of(t),
    ensures
        s == t,
    decreases s.len() + t.len(),
{
    if s.len() == 0 || t.len() == 0 {
        if s.len() > 0 {
            assert(s[0].is_range());
            assert(s[0].contains(s[0].lo()));
            assert(points_of(s).contains(s[0].lo()));
        }
        if t.len() > 0 {
            assert(t[0].is_range());
            assert(t[0].contains(t[0].lo()));
            assert(points_of(t).contains(t[0].lo()));
        }
        assert(s =~= t);
    } else {
        let a1 = s[0].lo();
        let a2 = t[0].lo();
        let b1 = s[0].hi();
        let b2 = t[0].hi();
        assert(s[0].is_range() && t[0].is_range());
        assert(s[0].contains(a1) && t[0].contains(a2));
        assert(points_of(s).contains(a1));
        assert(points_of(t).contains(a2));
        let k1 = choose|k: int| 0 <= k < t.len() && #[trigger] t[k].contains(a1);
        let k2 = choose|k: int| 0 <= k < s.len() && #[trigger] s[k].contains(a2);
        if k1 > 0 {
            assert(t[0].hi() + 1 < t[k1].lo());
        }
        if k2 > 0 {
            assert(s[0].hi() + 1 < s[k2].lo());
        }
        assert(a1 == a2);
        if b1 < b2 {
            assert(t[0].contains(b1 + 1));
            assert(points_of(t).contains(b1 + 1));
            let k = choose|k: int| 0 <= k < s.len() && #[trigger] s[k].contains(b1 + 1);
            if k > 0 {
                assert(s[0].hi() + 1 < s[k].lo());
            }
            assert(false);
        }
        if b2 < b1 {
            assert(s[0].contains(b2 + 1));
            assert(points_of(s).contains(b2 + 1));
            let k = choose|k: int| 0 <= k < t.len() && #[trigger] t[k].contains(b2 + 1);
            if k > 0 {
                assert(t[0].hi() + 1 < t[k].lo());
            }
            assert(false);
        }
        assert(s[0] == t[0]);
        let s1 = s.drop_first();
        let t1 = t.drop_first();
        assert forall|x: int| points_of(s1).contains(x) == points_of(t1).contains(x) by {
            if points_of(s1).contains(x) {
                let k = choose|k: int| 0 <= k < s1.len() && #[trigger] s1[k].contains(x);
                assert(s[k + 1].contains(x));
                assert(points_of(s).contains(x));
                assert(points_of(t).contains(x));
                let l = choose|l: int| 0 <= l < t.len() && #[trigger] t[l].contains(x);
                assert(s[0].hi() + 1 < s[k + 1].lo());
                assert(l != 0);
                assert(t1[l - 1].contains(x));
            }
            if points_of(t1).contains(x) {
                let k = choose|k: int| 0 <= k < t1.len() && #[trigger] t1[k].contains(x);
                assert(t[k + 1].contains(x));
                assert(points_of(t).contains(x));
                assert(points_of(s).contains(x));
                let l = choose|l: int| 0 <= l < s.len() && #[trigger] s[l].contains(x);
                assert(t[0].hi() + 1 < t[k + 1].lo());
                assert(l != 0);
                assert(s1[l - 1].contains(x));
            }
        }
        assert(points_of(s1) =~= points_of(t1));
        assert(is_compact(s1)) by {
            assert forall|k: int, l: int| 0 <= k < l < s1.len() implies #[trigger] s1[k].hi() + 1
                < #[trigger] s1[l].lo() by {
                assert(s[k + 1] == s1[k] && s[l + 1] == s1[l]);
            }
        }
        assert(is_compact(t1)) by {
            assert forall|k: int, l: int| 0 <= k < l < t1.len() implies #[trigger] t1[k].hi() + 1
                < #[trigger] t1[l].lo() by {
                assert(t[k + 1] == t1[k] && t[l + 1] == t1[l]);
            }
        }
        lemma_compact_canonical(s1, t1);
        assert forall|i: int| 0 <= i < s.len() implies s[i] == t[i] by {
            if i > 0 {
                assert(s[i] == s1[i - 1]);
                assert(t[i] == t1[i - 1]);
            }
        }
        assert(s =~= t);
    }
}

/// A compact sequence holds finitely many integers, as many as the sum of its sizes.
pub proof fn lemma_compact_size(s: Seq<Interval>)
    requires
        is_compact(s),
    ensures
        points_of(s).finite(),
        points_of(s).len() == total_size(s),
    decreases s.len(),
{
    if s.len() == 0 {
        assert(points_of(s) =~= Set::empty());
    } else {
        let p = s.drop_last();
        let last = s.last();
        assert(is_compact(p)) by {
            assert forall|k: int, l: int| 0 <= k < l < p.len() implies #[trigger] p[k].hi() + 1
                < #[trigger] p[l].lo() by {
                assert(s[k] == p[k] && s[l] == p[l]);
            }
            assert forall|k: int| 0 <= k < p.len() implies #[trigger] p[k].is_range() by {
                assert(s[k] == p[k]);
            }
        }
        lemma_compact_size(p);
        assert(s[s.len() - 1].is_range());
        let r = set_int_range(last.lo(), last.hi() + 1);
        lemma_int_range(last.lo(), last.hi() + 1);
        assert forall|x: int| points_of(s).contains(x) == (points_of(p) + r).contains(x) by {
            if points_of(s).contains(x) {
                let k = choose|k: int| 0 <= k < s.len() && #[trigger] s[k].contains(x);
                if k < s.len() - 1 {
                    assert(p[k].contains(x));
                }
            }
            if points_of(p).contains(x) {
                let k = choose|k: int| 0 <= k < p.len() && #[trigger] p[k].contains(x);
                assert(s[k].contains(x));
            }
            if r.contains(x) {
                assert(s[s.len() - 1].contains(x));
            }
        }
        assert(points_of(s) =~= points_of(p) + r);
        assert(points_of(p).disjoint(r)) by {
            assert forall|x: int| points_of(p).contains(x) implies !r.contains(x) by {
                let k = choose|k: int| 0 <= k < p.len() && #[trigger] p[k].contains(x);
                assert(s[k].hi() + 1 < s[s.len() - 1].lo());
            }
        }
        lemma_set_disjoint_lens(points_of(p), r);
    }
}

/// A set of integers, held as a compact sequence of intervals.
#[derive(Debug)]
pub struct IntervalUnion {
    pub(crate) ivs: Vec<Interval>,
}

impl View for IntervalUnion {
    type V = Set<int>;

    /// The integers in the set.
    open spec fn view(&self) -> Set<int> {
        points_of(self.intervals())
    }
}

impl IntervalUnion {
    /// The stored sequence of intervals.
    pub closed spec fn intervals(&self) -> Seq<Interval> {
        self.ivs@
    }

    /// The stored sequence is compact.
    pub open spec fn wf(&self) -> bool {
        is_compact(self.intervals())
    }

    pub open spec fn spec_size(&self) -> int {
        total_size(self.intervals())
    }

    /// The empty set.
    pub fn new() -> (r: IntervalUnion)
        ensures
            r.wf(),
            r.intervals() == Seq::<Interval>::empty(),
    {
        IntervalUnion { ivs: Vec::new() }
    }

    /// The empty set, with room for `capacity` intervals.
    pub fn with_capacity(capacity: usize) -> (r: IntervalUnion)
        ensures
            r.wf(),
            r.intervals() == Seq::<Interval>::empty(),
    {
        IntervalUnion { ivs: Vec::with_capacity(capacity) }
    }

    /// The set of the integers held by any of the intervals of `v`.
    pub fn from_vec(v: Vec<Interval>) -> (r: IntervalUnion)
        ensures
            r.wf(),
            r@ == points_of(v@),
    {
        let mut sorted = sort_ranges(&v);
        compact_sorted(&mut sorted);
        IntervalUnion { ivs: sorted }
    }

    /// The set of the integers held by any of the ranges `[arr[k][0], arr[k][1]]`.
    pub fn from_array<const N: usize>(arr: [[i64; 2]; N]) -> (r: IntervalUnion)
        ensures
            r.wf(),
            forall|x: int| #[trigger] r@.contains(x) == exists|k: int|
                0 <= k < N && arr@[k]@[0] <= x <= #[trigger] arr@[k]@[1],
    {
        let mut v: Vec<Interval> = Vec::with_capacity(N);
        let mut i: usize = 0;
        while i < N
            invariant
                i <= N,
                arr@.len() == N,
                v@.len() == i,
                forall|k: int| 0 <= k < i ==> #[trigger] v@[k] == Interval::Interval(arr@[k]@[0], arr@[k]@[1]),
            decreases N - i,
        {
            let pair = arr[i];
            v.push(Interval::Interval(pair[0], pair[1]));
            i = i + 1;
        }
        let ghost w = v@;
        let r = IntervalUnion::from_vec(v);
        assert forall|x: int| #[trigger] r@.contains(x) == exists|k: int|
            0 <= k < N && arr@[k]@[0] <= x <= #[trigger] arr@[k]@[1] by {
            if r@.contains(x) {
                let k = choose|k: int| 0 <= k < w.len() && #[trigger] w[k].contains(x);
                assert(arr@[k]@[0] <= x <= arr@[k]@[1]);
            }
            if exists|k: int| 0 <= k < N && arr@[k]@[0] <= x <= #[trigger] arr@[k]@[1] {
                let k = choose|k: int| 0 <= k < N && arr@[k]@[0] <= x <= #[trigger] arr@[k]@[1];
                assert(w[k].contains(x));
                assert(covered(w, 0, w.len() as int, x));
            }
        }
        r
    }

    /// The set of the integers held by any of the intervals of `s`, built by sorting a copy
    /// and folding each interval into the last one of the result.
    pub fn from_slice(s: &[Interval]) -> (r: IntervalUnion)
        ensures
            r.wf(),
            r@ == points_of(s@),
    {
        let mut copy: Vec<Interval> = Vec::with_capacity(s.len());
        let mut i: usize = 0;
        while i < s.len()
            invariant
                i <= s@.len(),
                copy@ == s@.subrange(0, i as int),
            decreases s@.len() - i,
        {
            copy.push(s[i]);
            i = i + 1;
            assert(copy@ =~= s@.subrange(0, i as int));
        }
        assert(copy@ =~= s@);
        let sorted = sort_ranges(&copy);
        let mut result: Vec<Interval> = Vec::with_capacity(sorted.len());
        let mut k: usize = 0;
        proof {
            lemma_points_from_ends(sorted@);
            assert(points_of(result@) =~= Set::<int>::empty());
        }
        while k < sorted.len()
            invariant
                k <= sorted@.len(),
                sorted_ranges(sorted@),
                is_compact(result@),
                result@.len() > 0 && k < sorted@.len() ==> result@.last().lo() <= sorted@[k as int].lo(),
                points_of(result@) + points_from(sorted@, k as int) == points_of(sorted@),
            decreases sorted@.len() - k,
        {
            let ghost before = result@;
            proof {
                lemma_points_from_split(sorted@, k as int);
                assert(sorted@[k as int].is_range());
            }
            push_merge(&mut result, sorted[k]);
            proof {
                if k + 1 < sorted@.len() {
                    assert(sorted@[k as int].lo() <= sorted@[k + 1].lo());
                }
                assert(points_of(result@) + points_from(sorted@, k + 1) =~= points_of(before)
                    + points_from(sorted@, k as int));
            }
            k = k + 1;
        }
        proof {
            lemma_points_from_ends(sorted@);
            assert(points_of(result@) =~= points_of(sorted@));
        }
        IntervalUnion { ivs: result }
    }

    /// The number of integers in the set: the sum of the sizes of its intervals.
    pub fn size(&self) -> (r: i64)
        requires
            self.wf(),
            self.spec_size() <= i64::MAX,
        ensures
            r == self.spec_size(),
            r == self@.len(),
    {
        let s = &self.ivs;
        let mut total: i64 = 0;
        let mut i: usize = 0;
        proof {
            lemma_compact_size(s@);
        }
        while i < s.len()
            invariant
                i <= s@.len(),
                is_compact(s@),
                s@ == self.intervals(),
                total_size(s@) <= i64::MAX,
                total == total_size(s@.subrange(0, i as int)),
            decreases s@.len() - i,
        {
            proof {
                assert(s@[i as int].is_range());
                assert(s@.subrange(0, i + 1).drop_last() =~= s@.subrange(0, i as int));
                lemma_prefix_size_bounded(s@, i + 1);
                lemma_prefix_size_bounded(s@, i as int);
                assert(s@.subrange(0, i + 1).last() == s@[i as int]);
                assert(total_size(s@.subrange(0, i + 1)) == total_size(s@.subrange(0, i as int))
                    + s@[i as int].spec_size());
            }
            let one = s[i].size();
            total = total + one;
            i = i + 1;
        }
        assert(s@.subrange(0, i as int) =~= s@);
        proof {
            lemma_compact_size(s@);
        }
        total
    }

    /// The number of intervals.
    pub fn len(&self) -> (r: usize)
        ensures
            r == self.intervals().len(),
    {
        self.ivs.len()
    }

    /// The set holds no integer.
    pub fn is_empty(&self) -> (r: bool)
        requires
            self.wf(),
        ensures
            r == (self.intervals().len() == 0),
            r == (self@ == Set::<int>::empty()),
    {
        proof {
            let s = self.ivs@;
            if s.len() > 0 {
                assert(s[0].is_range());
                assert(s[0].contains(s[0].lo()));
                assert(self@.contains(s[0].lo()));
            } else {
                assert(self@ =~= Set::<int>::empty());
            }
        }
        self.ivs.len() == 0
    }

    /// The intervals of the set, in ascending order.
    pub fn iter(&self) -> (r: Vec<Interval>)
        ensures
            r@ == self.intervals(),
    {
        copy_intervals(&self.ivs)
    }

    /// Adds the integers of the intervals of `items`: they are appended, and the whole is
    /// sorted and compacted.
    pub fn extend(&mut self, items: Vec<Interval>)
        requires
            old(self).wf(),
        ensures
            final(self).wf(),
            final(self)@ == old(self)@ + points_of(items@),
    {
        let ghost before = self.ivs@;
        let mut i: usize = 0;
        while i < items.len()
            invariant
                i <= items@.len(),
                self.ivs@ == before + items@.subrange(0, i as int),
            decreases items@.len() - i,
        {
            self.ivs.push(items[i]);
            i = i + 1;
            assert(self.ivs@ =~= before + items@.subrange(0, i as int));
        }
        assert(items@.subrange(0, i as int) =~= items@);
        let ghost all = self.ivs@;
        assert forall|x: int| points_of(all).contains(x) == (points_of(before) + points_of(items@)).contains(x) by {
            if covered(all, 0, all.len() as int, x) {
                let k = choose|k: int| 0 <= k < all.len() && #[trigger] all[k].contains(x);
                if k < before.len() {
                    assert(before[k].contains(x));
                } else {
                    assert(items@[k - before.len()].contains(x));
                }
            }
            if covered(before, 0, before.len() as int, x) {
                let k = choose|k: int| 0 <= k < before.len() && #[trigger] before[k].contains(x);
                assert(all[k].contains(x));
            }
            if covered(items@, 0, items@.len() as int, x) {
                let k = choose|k: int| 0 <= k < items@.len() && #[trigger] items@[k].contains(x);
                assert(all[k + before.len()].contains(x));
            }
        }
        assert(points_of(all) =~= points_of(before) + points_of(items@));
        let mut sorted = sort_ranges(&self.ivs);
        compact_sorted(&mut sorted);
        self.ivs = sorted;
    }

    /// Removes every interval.
    pub fn clear(&mut self)
        ensures
            final(self).wf(),
            final(self).intervals() == Seq::<Interval>::empty(),
    {
        self.ivs.clear();
    }
}

/// The sizes of the first `i` intervals of a sequence of ranges add up to at most the total.
proof fn lemma_prefix_size_bounded(s: Seq<Interval>, i: int)
    requires
        0 <= i <= s.len(),
        forall|k: int| 0 <= k < s.len() ==> #[trigger] s[k].is_range(),
    ensures
        0 <= total_size(s.subrange(0, i)) <= total_size(s),
    decreases s.len(),
{
    if i == s.len() {
        assert(s.subrange(0, i) =~= s);
        lemma_size_nonnegative(s);
    } else {
        let p = s.drop_last();
        assert forall|k: int| 0 <= k < p.len() implies #[trigger] p[k].is_range() by {
            assert(s[k].is_range());
        }
        lemma_prefix_size_bounded(p, i);
        assert(p.subrange(0, i) =~= s.subrange(0, i));
        assert(s[s.len() - 1].is_range());
    }
}

proof fn lemma_size_nonnegative(s: Seq<Interval>)
    requires
        forall|k: int| 0 <= k < s.len() ==> #[trigger] s[k].is_range(),
    ensures
        total_size(s) >= 0,
    decreases s.len(),
{
    if s.len() > 0 {
        let p = s.drop_last();
        assert forall|k: int| 0 <= k < p.len() implies #[trigger] p[k].is_range() by {
            assert(s[k].is_range());
        }
        lemma_size_nonnegative(p);
        assert(s[s.len() - 1].is_range());
    }
}

impl PartialEq for IntervalUnion {
    /// The same sequence of intervals.
    fn eq(&self, other: &IntervalUnion) -> (r: bool) {
        let n = self.ivs.len();
        if n != other.ivs.len() {
            return false;
        }
        let mut i: usize = 0;
        while i < n
            invariant
                n == self.ivs@.len(),
                n == other.ivs@.len(),
                i <= n,
                forall|k: int| 0 <= k < i ==> self.ivs@[k] == other.ivs@[k],
            decreases n - i,
        {
            if self.ivs[i] != other.ivs[i] {
                return false;
            }
            i = i + 1;
        }
        assert(self.ivs@ =~= other.ivs@);
        true
    }
}

impl vstd::std_specs::cmp::PartialEqSpecImpl for IntervalUnion {
    open spec fn obeys_eq_spec() -> bool {
        true
    }

    open spec fn eq_spec(&self, other: &IntervalUnion) -> bool {
        self.intervals() == other.intervals()
    }
}

impl PartialEq<Interval> for IntervalUnion {
    /// A set of exactly one interval equals that interval.
    fn eq(&self, other: &Interval) -> (r: bool) {
        self.ivs.len() == 1 && self.ivs[0] == *other
    }
}

impl vstd::std_specs::cmp::PartialEqSpecImpl<Interval> for IntervalUnion {
    open spec fn obeys_eq_spec() -> bool {
        true
    }

    open spec fn eq_spec(&self, other: &Interval) -> bool {
        self.intervals().len() == 1 && self.intervals()[0] == *other
    }
}

impl Default for IntervalUnion {
    fn default() -> (r: IntervalUnion)
        ensures
            r.wf(),
            r.intervals() == Seq::<Interval>::empty(),
    {
        IntervalUnion::new()
    }
}

/// What the module's operators build on: the stored sequence is the field's contents.
pub(crate) broadcast proof fn lemma_rep(u: &IntervalUnion)
    ensures
        #[trigger] u.intervals() == u.ivs@,
{
}

/// A set stored as one interval holds exactly that interval's integers.
pub(crate) proof fn lemma_single(u: &IntervalUnion)
    requires
        u.wf(),
        u.intervals().len() == 1,
    ensures
        u@ == u.intervals()[0].points(),
{
    let only = u.ivs@[0];
    assert(only.is_range());
    assert forall|x: int| u@.contains(x) == only.points().contains(x) by {
        if only.contains(x) {
            assert(covered(u.ivs@, 0, 1, x));
        }
    }
    assert(u@ =~= only.points());
}

/// A copy of the intervals of `v`.
pub(crate) fn copy_intervals(v: &Vec<Interval>) -> (r: Vec<Interval>)
    ensures
        r@ == v@,
{
    let mut r: Vec<Interval> = Vec::with_capacity(v.len());
    let mut i: usize = 0;
    while i < v.len()
        invariant
            i <= v@.len(),
            r@ == v@.subrange(0, i as int),
        decreases v@.len() - i,
    {
        r.push(v[i]);
        i = i + 1;
        assert(r@ =~= v@.subrange(0, i as int));
    }
    assert(v@.subrange(0, i as int) =~= v@);
    r
}

impl Clone for IntervalUnion {
    fn clone(&self) -> (r: IntervalUnion)
        ensures
            r.intervals() == self.intervals(),
    {
        IntervalUnion { ivs: copy_intervals(&self.ivs) }
    }
}

/// The ranges among `v`, sorted by their least element.
fn sort_ranges(v: &Vec<Interval>) -> (r: Vec<Interval>)
    ensures
        sorted_ranges(r@),
        points_of(r@) == points_of(v@),
{
    let mut r: Vec<Interval> = Vec::with_capacity(v.len());
    let mut i: usize = 0;
    while i < v.len()
        invariant
            i <= v.len(),
            sorted_ranges(r@),
            forall|x: int| #[trigger] covered(r@, 0, r@.len() as int, x) == covered(v@, 0, i as int, x),
        decreases v.len() - i,
    {
        let x = v[i];
        if x.holds_some() {
            let lo = x.start();
            let mut p: usize = r.len();
            assert forall|t: int| 0 <= t < r@.len() implies (#[trigger] r@[t]) is Interval by {
                assert(r@[t].is_range());
            }
            while p > 0 && r[p - 1].start() > lo
                invariant
                    p <= r.len(),
                    sorted_ranges(r@),
                    forall|t: int| 0 <= t < r@.len() ==> (#[trigger] r@[t]) is Interval,
                    x.is_range(),
                    lo == x.lo(),
                    forall|t: int| p <= t < r.len() ==> #[trigger] r@[t].lo() > lo,
                decreases p,
            {
                p = p - 1;
            }
            let ghost old_r = r@;
            r.insert(p, x);
            proof {
                old_r.insert_ensures(p as int, x);
                assert forall|k: int, l: int| 0 <= k < l < r@.len() implies #[trigger] r@[k].lo()
                    <= #[trigger] r@[l].lo() by {
                    if l < p {
                    } else if l == p {
                        if k < p {
                            assert(old_r[k].lo() <= old_r[p - 1].lo());
                        }
                    } else if k < p {
                        assert(r@[l] == old_r[l - 1]);
                        assert(old_r[k].lo() <= old_r[p - 1].lo());
                    } else if k == p {
                        assert(r@[l] == old_r[l - 1]);
                    } else {
                        assert(r@[l] == old_r[l - 1]);
                        assert(r@[k] == old_r[k - 1]);
                    }
                }
                assert forall|k: int| 0 <= k < r@.len() implies #[trigger] r@[k].is_range() by {
                    if k > p {
                        assert(r@[k] == old_r[k - 1]);
                    }
                }
                assert forall|y: int| #[trigger] covered(r@, 0, r@.len() as int, y) == covered(
                    v@,
                    0,
                    i + 1,
                    y,
                ) by {
                    if covered(r@, 0, r@.len() as int, y) {
                        let k = choose|k: int| 0 <= k < r@.len() && #[trigger] r@[k].contains(y);
                        if k < p {
                            assert(old_r[k].contains(y));
                            assert(covered(old_r, 0, old_r.len() as int, y));
                        } else if k > p {
                            assert(old_r[k - 1].contains(y));
                            assert(covered(old_r, 0, old_r.len() as int, y));
                        } else {
                            assert(v@[i as int].contains(y));
                        }
                    }
                    if covered(v@, 0, i + 1, y) {
                        let k = choose|k: int| 0 <= k < i + 1 && #[trigger] v@[k].contains(y);
                        if k < i {
                            assert(covered(v@, 0, i as int, y));
                            assert(covered(old_r, 0, old_r.len() as int, y));
                            let m = choose|m: int| 0 <= m < old_r.len() && #[trigger] old_r[m].contains(y);
                            if m < p {
                                assert(r@[m].contains(y));
                            } else {
                                assert(r@[m + 1].contains(y));
                            }
                        } else {
                            assert(r@[p as int].contains(y));
                        }
                    }
                }
            }
        } else {
            proof {
                assert forall|y: int| #[trigger] covered(r@, 0, r@.len() as int, y) == covered(
                    v@,
                    0,
                    i + 1,
                    y,
                ) by {
                    if covered(v@, 0, i + 1, y) {
                        let k = choose|k: int| 0 <= k < i + 1 && #[trigger] v@[k].contains(y);
                        if k < i {
                            assert(covered(v@, 0, i as int, y));
                        }
                    }
                }
            }
        }
        i = i + 1;
    }
    assert(points_of(r@) =~= points_of(v@));
    r
}

/// Merges a sequence of ranges sorted by their least element into compact form, in place: a
/// write cursor keeps the last interval of the result, a read cursor walks the rest, and each
/// interval read either extends the one under the write cursor or starts the next one.
fn compact_sorted(v: &mut Vec<Interval>)
    requires
        sorted_ranges(old(v)@),
    ensures
        is_compact(final(v)@),
        points_of(final(v)@) == points_of(old(v)@),
{
    if v.len() == 0 {
        return;
    }
    let ghost orig = v@;
    let mut updating: usize = 0;
    let mut reading: usize = 1;
    while reading < v.len()
        invariant
            v@.len() == orig.len(),
            sorted_ranges(orig),
            updating < reading <= v@.len(),
            compact_prefix(v@, updating + 1),
            forall|t: int| reading <= t < v@.len() ==> #[trigger] v@[t] == orig[t],
            forall|t: int| reading <= t < v@.len() ==> v@[updating as int].lo() <= #[trigger] orig[t].lo(),
            forall|x: int| #[trigger] covered(v@, 0, updating + 1, x) == covered(orig, 0, reading as int, x),
        decreases v@.len() - reading,
    {
        let cur = v[updating];
        let next = v[reading];
        let ghost before = v@;
        assert(next == orig[reading as int]);
        assert(next.is_range());
        assert(v@[updating as int].is_range());
        if gap_between(cur.end(), next.start()) {
            updating = updating + 1;
            v.set(updating, next);
            proof {
                assert forall|k: int, l: int| 0 <= k < l < updating + 1 implies #[trigger] v@[k].hi()
                    + 1 < #[trigger] v@[l].lo() by {
                    if l == updating {
                        assert(before[k].hi() + 1 < before[updating - 1].lo() || k == updating - 1);
                    }
                }
                assert forall|t: int| reading + 1 <= t < v@.len() implies v@[updating as int].lo()
                    <= #[trigger] orig[t].lo() by {
                    assert(orig[reading as int].lo() <= orig[t].lo());
                }
                assert forall|x: int| #[trigger] covered(v@, 0, updating + 1, x) == covered(
                    orig,
                    0,
                    reading + 1,
                    x,
                ) by {
                    if covered(v@, 0, updating + 1, x) {
                        let k = choose|k: int| 0 <= k < updating + 1 && #[trigger] v@[k].contains(x);
                        if k < updating {
                            assert(before[k].contains(x));
                            assert(covered(before, 0, updating as int, x));
                            assert(covered(orig, 0, reading as int, x));
                            let m = choose|m: int| 0 <= m < reading && #[trigger] orig[m].contains(x);
                            assert(covered(orig, 0, reading + 1, x));
                        } else {
                            assert(orig[reading as int].contains(x));
                        }
                    }
                    if covered(orig, 0, reading + 1, x) {
                        let k = choose|k: int| 0 <= k < reading + 1 && #[trigger] orig[k].contains(x);
                        if k < reading {
                            assert(covered(orig, 0, reading as int, x));
                            assert(covered(before, 0, updating as int, x));
                            let m = choose|m: int| 0 <= m < updating && #[trigger] before[m].contains(x);
                            assert(v@[m].contains(x));
                        } else {
                            assert(v@[updating as int].contains(x));
                        }
                    }
                }
            }
        } else {
            let hi = if cur.end() >= next.end() { cur.end() } else { next.end() };
            v.set(updating, Interval::Interval(cur.start(), hi));
            proof {
                assert forall|k: int, l: int| 0 <= k < l < updating + 1 implies #[trigger] v@[k].hi()
                    + 1 < #[trigger] v@[l].lo() by {
                    assert(before[k].hi() + 1 < before[l].lo());
                }
                assert forall|t: int| reading + 1 <= t < v@.len() implies v@[updating as int].lo()
                    <= #[trigger] orig[t].lo() by {
                    assert(before[updating as int].lo() <= orig[t].lo());
                }
                assert forall|x: int| #[trigger] covered(v@, 0, updating + 1, x) == covered(
                    orig,
                    0,
                    reading + 1,
                    x,
                ) by {
                    if covered(v@, 0, updating + 1, x) {
                        let k = choose|k: int| 0 <= k < updating + 1 && #[trigger] v@[k].contains(x);
                        if k < updating {
                            assert(before[k].contains(x));
                            assert(covered(before, 0, updating + 1, x));
                        } else if before[k].contains(x) {
                            assert(covered(before, 0, updating + 1, x));
                        } else {
                            assert(orig[reading as int].contains(x));
                        }
                    }
                    if covered(orig, 0, reading + 1, x) {
                        let k = choose|k: int| 0 <= k < reading + 1 && #[trigger] orig[k].contains(x);
                        if k < reading {
                            assert(covered(orig, 0, reading as int, x));
                            assert(covered(before, 0, updating + 1, x));
                            let m = choose|m: int| 0 <= m < updating + 1 && #[trigger] before[m].contains(x);
                            assert(v@[m].contains(x));
                        } else {
                            assert(v@[updating as int].contains(x));
                        }
                    }
                }
            }
        }
        reading = reading + 1;
    }
    let ghost full = v@;
    v.truncate(updating + 1);
    proof {
        assert forall|x: int| points_of(v@).contains(x) == points_of(orig).contains(x) by {
            if covered(full, 0, updating + 1, x) {
                let k = choose|k: int| 0 <= k < updating + 1 && #[trigger] full[k].contains(x);
                assert(v@[k].contains(x));
            }
            if covered(v@, 0, v@.len() as int, x) {
                let k = choose|k: int| 0 <= k < v@.len() && #[trigger] v@[k].contains(x);
                assert(full[k].contains(x));
            }
        }
        assert(points_of(v@) =~= points_of(orig));
        assert forall|k: int, l: int| 0 <= k < l < v@.len() implies #[trigger] v@[k].hi() + 1
            < #[trigger] v@[l].lo() by {
            assert(full[k].hi() + 1 < full[l].lo());
        }
        assert forall|k: int| 0 <= k < v@.len() implies #[trigger] v@[k].is_range() by {
            assert(full[k].is_range());
        }
    }
}

/// The integers held by the intervals `s[i..]`.
pub open spec fn points_from(s: Seq<Interval>, i: int) -> Set<int> {
    Set::new(|x: int| covered(s, i, s.len() as int, x))
}

/// Splitting off the first of the remaining intervals.
pub proof fn lemma_points_from_split(s: Seq<Interval>, i: int)
    requires
        0 <= i < s.len(),
    ensures
        points_from(s, i) == s[i].points() + points_from(s, i + 1),
{
    assert forall|x: int| points_from(s, i).contains(x) == (s[i].points() + points_from(s, i + 1)).contains(x) by {
        if covered(s, i, s.len() as int, x) {
            let k = choose|k: int| i <= k < s.len() && #[trigger] s[k].contains(x);
            if k > i {
                assert(covered(s, i + 1, s.len() as int, x));
            }
        }
        if covered(s, i + 1, s.len() as int, x) {
            let k = choose|k: int| i + 1 <= k < s.len() && #[trigger] s[k].contains(x);
            assert(covered(s, i, s.len() as int, x));
        }
        if s[i].contains(x) {
            assert(covered(s, i, s.len() as int, x));
        }
    }
    assert(points_from(s, i) =~= s[i].points() + points_from(s, i + 1));
}

/// The ends of a sequence hold nothing, and its start holds all of it.
pub proof fn lemma_points_from_ends(s: Seq<Interval>)
    ensures
        points_from(s, s.len() as int) == Set::<int>::empty(),
        points_from(s, 0) == points_of(s),
{
    assert(points_from(s, s.len() as int) =~= Set::<int>::empty());
    assert(points_from(s, 0) =~= points_of(s));
}

/// In a compact sequence, what follows `s[j]` lies beyond it with a gap, and what starts at
/// `s[j]` lies at or beyond its least element.
pub proof fn lemma_points_from_bounds(s: Seq<Interval>, j: int)
    requires
        is_compact(s),
        0 <= j < s.len(),
    ensures
        forall|x: int| #[trigger] points_from(s, j).contains(x) ==> x >= s[j].lo(),
        forall|x: int| #[trigger] points_from(s, j + 1).contains(x) ==> x > s[j].hi() + 1,
{
    assert forall|x: int| #[trigger] points_from(s, j).contains(x) implies x >= s[j].lo() by {
        let k = choose|k: int| j <= k < s.len() && #[trigger] s[k].contains(x);
        if k > j {
            assert(s[j].hi() + 1 < s[k].lo());
            assert(s[j].is_range());
        }
    }
    assert forall|x: int| #[trigger] points_from(s, j + 1).contains(x) implies x > s[j].hi() + 1 by {
        let k = choose|k: int| j + 1 <= k < s.len() && #[trigger] s[k].contains(x);
        assert(s[j].hi() + 1 < s[k].lo());
    }
}

/// Appends the range `x` to the compact `v`, whose last interval starts no later than `x`:
/// `x` extends that last interval when the two touch or overlap, and is pushed otherwise.
pub(crate) fn push_merge(v: &mut Vec<Interval>, x: Interval)
    requires
        is_compact(old(v)@),
        x.is_range(),
        old(v)@.len() > 0 ==> old(v)@.last().lo() <= x.lo(),
    ensures
        is_compact(final(v)@),
        points_of(final(v)@) == points_of(old(v)@) + x.points(),
        final(v)@.len() > 0,
        final(v)@.last().lo() <= x.lo(),
        final(v)@.last().hi() >= x.hi(),
{
    let ghost before = v@;
    let n = v.len();
    if n > 0 {
        let last = v[n - 1];
        assert(before[n - 1].is_range());
        if !gap_between(last.end(), x.start()) {
            let hi = if last.end() >= x.end() { last.end() } else { x.end() };
            v.set(n - 1, Interval::Interval(last.start(), hi));
            proof {
                assert forall|k: int, l: int| 0 <= k < l < v@.len() implies #[trigger] v@[k].hi() + 1
                    < #[trigger] v@[l].lo() by {
                    assert(before[k].hi() + 1 < before[l].lo());
                }
                assert forall|k: int| 0 <= k < v@.len() implies #[trigger] v@[k].is_range() by {
                    assert(before[k].is_range());
                }
                assert forall|y: int| points_of(v@).contains(y) == (points_of(before) + x.points()).contains(y) by {
                    if covered(v@, 0, n as int, y) {
                        let k = choose|k: int| 0 <= k < n && #[trigger] v@[k].contains(y);
                        if k < n - 1 {
                            assert(before[k].contains(y));
                        } else if before[k].contains(y) {
                        } else {
                            assert(x.contains(y));
                        }
                    }
                    if covered(before, 0, n as int, y) {
                        let k = choose|k: int| 0 <= k < n && #[trigger] before[k].contains(y);
                        assert(v@[k].contains(y));
                    }
                    if x.contains(y) {
                        assert(v@[n - 1].contains(y));
                    }
                }
                assert(points_of(v@) =~= points_of(before) + x.points());
            }
            return;
        }
    }
    v.push(x);
    proof {
        assert forall|k: int, l: int| 0 <= k < l < v@.len() implies #[trigger] v@[k].hi() + 1
            < #[trigger] v@[l].lo() by {
            if l == n {
                if k < n - 1 {
                    assert(before[k].hi() + 1 < before[n - 1].lo());
                    assert(before[n - 1].is_range());
                }
            } else {
                assert(before[k].hi() + 1 < before[l].lo());
            }
        }
        assert forall|k: int| 0 <= k < v@.len() implies #[trigger] v@[k].is_range() by {
            if k < n {
                assert(before[k].is_range());
            }
        }
        assert forall|y: int| points_of(v@).contains(y) == (points_of(before) + x.points()).contains(y) by {
            if covered(v@, 0, n + 1, y) {
                let k = choose|k: int| 0 <= k < n + 1 && #[trigger] v@[k].contains(y);
                if k < n {
                    assert(before[k].contains(y));
                }
            }
            if covered(before, 0, n as int, y) {
                let k = choose|k: int| 0 <= k < n && #[trigger] before[k].contains(y);
                assert(v@[k].contains(y));
            }
            if x.contains(y) {
                assert(v@[n as int].contains(y));
            }
        }
        assert(points_of(v@) =~= points_of(before) + x.points());
    }
}

/// Replaces `v[from..to]` by `pieces`, in place.
pub(crate) fn splice(v: &mut Vec<Interval>, from: usize, to: usize, pieces: Vec<Interval>)
    requires
        from <= to <= old(v)@.len(),
    ensures
        final(v)@ == old(v)@.subrange(0, from as int) + pieces@ + old(v)@.subrange(
            to as int,
            old(v)@.len() as int,
        ),
{
    let ghost orig = v@;
    let n = v.len();
    let gap = to - from;
    let mut t: usize = to;
    while t < n
        invariant
            from <= to <= t <= n,
            n == orig.len(),
            gap == to - from,
            v@.len() == n,
            forall|k: int| 0 <= k < from ==> #[trigger] v@[k] == orig[k],
            forall|k: int| from <= k < t - gap ==> #[trigger] v@[k] == orig[k + gap],
            forall|k: int| t <= k < n ==> #[trigger] v@[k] == orig[k],
        decreases n - t,
    {
        let moved = v[t];
        v.set(t - gap, moved);
        t = t + 1;
    }
    v.truncate(n - gap);
    assert(v@ =~= orig.subrange(0, from as int) + pieces@.subrange(0, 0) + orig.subrange(
        to as int,
        n as int,
    ));
    let mut p: usize = 0;
    while p < pieces.len()
        invariant
            p <= pieces@.len(),
            from <= to <= n,
            n == orig.len(),
            v@.len() == from + p + (n - to),
            v@ == orig.subrange(0, from as int) + pieces@.subrange(0, p as int) + orig.subrange(
                to as int,
                n as int,
            ),
        decreases pieces@.len() - p,
    {
        let ghost before = v@;
        let cur_len = v.len();
        assert(from + p <= cur_len);
        v.insert(from + p, pieces[p]);
        proof {
            before.insert_ensures(from + p, pieces@[p as int]);
            assert(v@ =~= orig.subrange(0, from as int) + pieces@.subrange(0, p + 1)
                + orig.subrange(to as int, n as int));
        }
        p = p + 1;
    }
    assert(pieces@.subrange(0, p as int) =~= pieces@);
}

} // verus!
