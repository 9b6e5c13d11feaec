//! Keeps the `N` smallest of the values pushed into it.
use vstd::prelude::*;
use vstd::std_specs::iter::IteratorSpec;

use crate::smallvec::SmallVec;

verus! {

/// At most `N` values, with the largest of them and where it is stored.
#[derive(Debug, Clone, Copy)]
pub struct SmallestItems<T, const N: usize> {
    data: SmallVec<T, N>,
    largest_value_kept: T,
    largest_value_kept_index: usize,
}

impl<const N: usize> SmallestItems<i64, N> {
    /// The values kept, in the order of their slots.
    pub closed spec fn items(&self) -> Seq<i64> {
        self.data@
    }

    /// The largest value kept.
    pub closed spec fn largest(&self) -> i64 {
        self.largest_value_kept
    }

    /// At most `N` values are kept, and when there are any, the recorded largest one is
    /// stored where it is recorded and no value kept exceeds it.
    pub closed spec fn wf(&self) -> bool {
        &&& N > 0
        &&& self.data.wf()
        &&& self.data@.len() > 0 ==> {
            &&& self.largest_value_kept_index < self.data@.len()
            &&& self.data@[self.largest_value_kept_index as int] == self.largest_value_kept
            &&& forall|k: int| 0 <= k < self.data@.len() ==> #[trigger] self.data@[k] <= self.largest_value_kept
        }
    }

    pub proof fn lemma_wf_bounds(&self)
        requires
            self.wf(),
        ensures
            self.items().len() <= N,
            self.items().len() > 0 ==> self.items().contains(self.largest()),
            forall|k: int| 0 <= k < self.items().len() ==> #[trigger] self.items()[k] <= self.largest(),
    {
        self.data.lemma_len_bounded();
        if self.data@.len() > 0 {
            assert(self.data@[self.largest_value_kept_index as int] == self.largest_value_kept);
        }
    }

    /// Nothing kept yet.
    pub fn new() -> (r: SmallestItems<i64, N>)
        requires
            N > 0,
        ensures
            r.wf(),
            r.items() == Seq::<i64>::empty(),
    {
        SmallestItems { data: SmallVec::new(), largest_value_kept: 0, largest_value_kept_index: 0 }
    }

    /// Keeps `value` while fewer than `N` values are kept; once `N` are, `value` takes the
    /// place of the largest one kept when it is smaller than that.
    pub fn push(&mut self, value: i64)
        requires
            old(self).wf(),
        ensures
            final(self).wf(),
            final(self).items().len() <= N,
            final(self).items().len() > 0 ==> final(self).items().contains(final(self).largest()),
            forall|k: int| 0 <= k < final(self).items().len() ==> #[trigger] final(self).items()[k]
                <= final(self).largest(),
            old(self).items().len() < N ==> final(self).items() == old(self).items().push(value),
            old(self).items().len() >= N && value < old(self).largest() ==> exists|i: int|
                0 <= i < old(self).items().len() && old(self).items()[i] == old(self).largest()
                    && #[trigger] final(self).items() == old(self).items().update(i, value),
            old(self).items().len() >= N && value >= old(self).largest() ==> final(self).items()
                == old(self).items(),
    {
        proof {
            self.data.lemma_len_bounded();
        }
        if self.data.is_empty() {
            self.data.push(value);
            self.largest_value_kept = value;
            self.largest_value_kept_index = 0;
        } else if self.data.len() < N {
            if value > self.largest_value_kept {
                self.largest_value_kept = value;
                self.largest_value_kept_index = self.data.len();
            }
            self.data.push(value);
        } else if value < self.largest_value_kept {
            let at = self.largest_value_kept_index;
            self.data.set(at, value);
            self.largest_value_kept = value;
            self.largest_value_kept_index = at;
            let n = self.data.len();
            let mut i: usize = 0;
            while i < n
                invariant
                    self.data.wf(),
                    n == self.data@.len(),
                    n > 0,
                    N > 0,
                    at < n,
                    i <= n,
                    self.data@ == old(self).data@.update(at as int, value),
                    self.largest_value_kept_index < n,
                    self.data@[self.largest_value_kept_index as int] == self.largest_value_kept,
                    forall|k: int| 0 <= k < i ==> #[trigger] self.data@[k] <= self.largest_value_kept,
                    value <= self.largest_value_kept,
                decreases n - i,
            {
                let v = self.data[i];
                if v > self.largest_value_kept {
                    self.largest_value_kept = v;
                    self.largest_value_kept_index = i;
                }
                i = i + 1;
            }
            assert(self.data@ == old(self).data@.update(at as int, value));
        }
        proof {
            self.lemma_wf_bounds();
        }
    }

    /// How many values are kept.
    pub fn len(&self) -> (r: usize)
        requires
            self.wf(),
        ensures
            r == self.items().len(),
    {
        self.data.len()
    }

    /// The largest value kept.
    pub fn largest_value_kept(&self) -> (r: i64)
        ensures
            r == self.largest(),
    {
        self.largest_value_kept
    }

    /// A walk over the values kept, in the order of their slots.
    pub fn iter(&self) -> (r: core::slice::Iter<'_, i64>)
        requires
            self.wf(),
        ensures
            r.remaining() == self.items().as_ref(),
    {
        self.data.iter()
    }
}

} // verus!
