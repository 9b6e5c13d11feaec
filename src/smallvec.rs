//! A vector of at most `N` values stored inline in an array.
use vstd::prelude::*;
use vstd::std_specs::iter::IteratorSpec;

verus! {

/// The first `length` slots of `data` hold the values.
#[derive(Copy, Clone, Debug)]
pub struct SmallVec<T, const N: usize> {
    data: [T; N],
    length: usize,
}

impl<T: Copy + Default, const N: usize> View for SmallVec<T, N> {
    type V = Seq<T>;

    closed spec fn view(&self) -> Seq<T> {
        self.data@.subrange(0, self.length as int)
    }
}

impl<T: Copy + Default, const N: usize> SmallVec<T, N> {
    /// The length never exceeds the capacity.
    pub closed spec fn wf(&self) -> bool {
        self.length <= N
    }

    pub proof fn lemma_len_bounded(&self)
        requires
            self.wf(),
        ensures
            self@.len() <= N,
    {
    }

    /// An empty vector.
    pub fn new() -> (r: SmallVec<T, N>)
        requires
            N > 0,
        ensures
            r.wf(),
            r@ == Seq::<T>::empty(),
    {
        let d = T::default();
        let data = [d; N];
        let r = SmallVec { data, length: 0 };
        assert(r@ =~= Seq::<T>::empty());
        r
    }

    pub fn len(&self) -> (r: usize)
        requires
            self.wf(),
        ensures
            r == self@.len(),
    {
        self.length
    }

    /// Appends `value`; the vector must not be full.
    pub fn push(&mut self, value: T)
        requires
            old(self).wf(),
            old(self)@.len() < N,
        ensures
            final(self).wf(),
            final(self)@ == old(self)@.push(value),
    {
        let i = self.length;
        self.data[i] = value;
        self.length = i + 1;
        assert(self@ =~= old(self)@.push(value));
    }

    /// Removes and returns the last value; the vector must not be empty.
    pub fn pop(&mut self) -> (r: T)
        requires
            old(self).wf(),
            old(self)@.len() > 0,
        ensures
            final(self).wf(),
            r == old(self)@.last(),
            final(self)@ == old(self)@.drop_last(),
    {
        self.length = self.length - 1;
        let r = self.data[self.length];
        assert(self@ =~= old(self)@.drop_last());
        r
    }

    pub fn clear(&mut self)
        requires
            old(self).wf(),
        ensures
            final(self).wf(),
            final(self)@ == Seq::<T>::empty(),
    {
        self.length = 0;
        assert(self@ =~= Seq::<T>::empty());
    }

    /// Appends the values of `other`, which must fit.
    pub fn append(&mut self, other: SmallVec<T, N>)
        requires
            old(self).wf(),
            other.wf(),
            old(self)@.len() + other@.len() <= N,
        ensures
            final(self).wf(),
            final(self)@ == old(self)@ + other@,
    {
        let mut i: usize = 0;
        while i < other.length
            invariant
                self.wf(),
                other.wf(),
                i <= other.length,
                old(self)@.len() + other@.len() <= N,
                self@ == old(self)@ + other@.subrange(0, i as int),
            decreases other.length - i,
        {
            let v = other.data[i];
            assert(other@[i as int] == v);
            self.push(v);
            i = i + 1;
            assert(self@ =~= old(self)@ + other@.subrange(0, i as int));
        }
        assert(other@.subrange(0, i as int) =~= other@);
    }

    /// Exchanges the values at `a` and `b`, which must both be in range.
    pub fn swap(&mut self, a: usize, b: usize)
        requires
            old(self).wf(),
            a < old(self)@.len(),
            b < old(self)@.len(),
        ensures
            final(self).wf(),
            final(self)@ == old(self)@.update(a as int, old(self)@[b as int]).update(
                b as int,
                old(self)@[a as int],
            ),
    {
        let va = self.data[a];
        let vb = self.data[b];
        self.data[a] = vb;
        self.data[b] = va;
        assert(self@ =~= old(self)@.update(a as int, old(self)@[b as int]).update(
            b as int,
            old(self)@[a as int],
        ));
    }

    pub fn is_empty(&self) -> (r: bool)
        requires
            self.wf(),
        ensures
            r == (self@.len() == 0),
    {
        self.length == 0
    }

    /// The values, as a slice.
    pub fn as_slice(&self) -> (r: &[T])
        requires
            self.wf(),
        ensures
            r@ == self@,
    {
        let all: &[T] = self.data.as_slice();
        let (front, _) = all.split_at(self.length);
        front
    }

    /// The values, as a slice that can be changed in place.
    pub fn as_slice_mut(&mut self) -> (r: &mut [T])
        requires
            old(self).wf(),
        ensures
            r@ == old(self)@,
            final(self).wf(),
            final(self)@.len() == old(self)@.len(),
            final(self)@ == final(r)@,
    {
        let len = self.length;
        let all = vstd::array::ref_mut_array_unsizing_coercion(&mut self.data);
        let (front, _) = all.split_at_mut(len);
        front
    }

    /// A walk over the values, in order.
    pub fn iter(&self) -> (r: core::slice::Iter<'_, T>)
        requires
            self.wf(),
        ensures
            r.remaining() == self@.as_ref(),
    {
        let values = self.as_slice();
        proof {
            vstd::std_specs::slice::axiom_spec_slice_iter(values);
        }
        values.iter()
    }

    /// Stores `value` at `index`, which must be in range.
    pub(crate) fn set(&mut self, index: usize, value: T)
        requires
            old(self).wf(),
            index < old(self)@.len(),
        ensures
            final(self).wf(),
            final(self)@ == old(self)@.update(index as int, value),
    {
        self.data[index] = value;
        assert(self@ =~= old(self)@.update(index as int, value));
    }
}

impl<T: Copy + Default, const N: usize> Default for SmallVec<T, N> {
    /// An empty vector.
    fn default() -> (r: SmallVec<T, N>)
        ensures
            r.wf(),
            r@ == Seq::<T>::empty(),
    {
        let d = T::default();
        let r = SmallVec { data: [d; N], length: 0 };
        assert(r@ =~= Seq::<T>::empty());
        r
    }
}

impl<T: Copy + Default, const N: usize> core::ops::Index<usize> for SmallVec<T, N> {
    type Output = T;

    /// The value at `index`, which must be in range.
    fn index(&self, index: usize) -> (r: &T)
        ensures
            *r == self@[index as int],
    {
        &self.data[index]
    }
}

impl<T: Copy + Default, const N: usize> vstd::std_specs::core::IndexSpecImpl<usize> for SmallVec<T, N> {
    open spec fn index_req(&self, index: &usize) -> bool {
        self.wf() && *index < self@.len()
    }
}

} // verus!
