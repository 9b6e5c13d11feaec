//! A queue of a fixed number of values, newest first, where each push drops the oldest.
use vstd::prelude::*;

verus! {

/// `COUNT` values, the newest at index 0.
#[derive(Debug, Clone, Copy, PartialEq)]
pub struct FixedQueue<T, const COUNT: usize>(pub [T; COUNT]);

impl<T: Default + Copy, const COUNT: usize> Default for FixedQueue<T, COUNT> {
    /// Every slot holds `T::default()`.
    fn default() -> (r: FixedQueue<T, COUNT>)
        ensures
            forall|i: int| 0 <= i < COUNT ==> call_ensures(T::default, (), #[trigger] r.0@[i]),
    {
        let d = T::default();
        FixedQueue([d; COUNT])
    }
}

impl<T: Default + Copy, const COUNT: usize> FixedQueue<T, COUNT> {
    /// Shifts every value one place back, dropping the last, and stores `new_value` first.
    pub fn push(&mut self, new_value: T)
        requires
            COUNT > 0,
        ensures
            final(self).0@ == seq![new_value] + old(self).0@.subrange(0, COUNT - 1),
    {
        let mut i: usize = COUNT - 1;
        while i > 0
            invariant
                0 <= i < COUNT,
                self.0@.len() == COUNT,
                forall|k: int| 0 <= k <= i ==> #[trigger] self.0@[k] == old(self).0@[k],
                forall|k: int| i < k < COUNT ==> #[trigger] self.0@[k] == old(self).0@[k - 1],
            decreases i,
        {
            let moved = self.0[i - 1];
            self.0[i] = moved;
            i = i - 1;
        }
        self.0[0] = new_value;
        assert(self.0@ =~= seq![new_value] + old(self).0@.subrange(0, COUNT - 1));
    }

    /// The newest value.
    pub fn top(&self) -> (r: T)
        requires
            COUNT > 0,
        ensures
            r == self.0@[0],
    {
        self.0[0]
    }
}

impl<const COUNT: usize> FixedQueue<i64, COUNT> {
    /// The newest value less the one before it.
    pub fn delta(&self) -> (r: i64)
        requires
            COUNT > 1,
            i64::MIN <= self.0@[0] - self.0@[1] <= i64::MAX,
        ensures
            r == self.0@[0] - self.0@[1],
    {
        self.0[0] - self.0[1]
    }
}

} // verus!
