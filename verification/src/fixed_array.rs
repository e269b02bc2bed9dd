use vstd::prelude::*;
use vstd::slice::slice_subrange;

use crate::logs::{Logger, LOG};

verus! {

/// Reason why a `FixedArray` refused to take new elements.
#[derive(Debug, PartialEq, Eq, Structural)]
pub enum FixeArrayError {
    /// A ranged operation reached past the capacity of the array.
    OutOfTheBounds,
    /// The elements would not fit into the remaining free space.
    FullCapacity,
    /// The input held no element at all.
    ElementNotFound,
}

/// A bounded, ordered sequence of `T`: it holds at most `N` elements, and
/// instead of growing past that it reports a capacity error and stays
/// unchanged. Its view is the sequence of currently held elements.
pub struct FixedArray<T, const N: usize> {
    data: Vec<T>,
}

impl<T, const N: usize> View for FixedArray<T, N> {
    type V = Seq<T>;

    closed spec fn view(&self) -> Seq<T> {
        self.data@
    }
}

impl<T: Copy, const N: usize> FixedArray<T, N> {
    /// The capacity bound that every operation preserves.
    pub open spec fn wf(&self) -> bool {
        self@.len() <= N
    }

    pub fn new() -> (r: Self)
        ensures
            r.wf(),
            r@ == Seq::<T>::empty(),
    {
        Self { data: Vec::new() }
    }

    /// Appends `element` at the end if there is room; a push onto a full
    /// array is reported and leaves the array unchanged.
    pub fn push(&mut self, element: T)
        requires
            old(self).wf(),
        ensures
            final(self).wf(),
            old(self)@.len() < N ==> final(self)@ == old(self)@.push(element),
            old(self)@.len() >= N ==> final(self)@ == old(self)@,
    {
        if self.data.len() < N {
            self.data.push(element);
        } else {
            LOG.error("array is out of the bounds");
        }
    }

    /// Read-only view of the held elements in `[range.start, range.end)`;
    /// `None` when the range is reversed or reaches past the held elements.
    pub fn get(&self, range: core::ops::Range<usize>) -> (r: Option<&[T]>)
        ensures
            match r {
                Some(s) => range.start <= range.end <= self@.len()
                    && s@ == self@.subrange(range.start as int, range.end as int),
                None => !(range.start <= range.end <= self@.len()),
            },
    {
        if range.start <= range.end && range.end <= self.data.len() {
            Some(slice_subrange(self.data.as_slice(), range.start, range.end))
        } else {
            None
        }
    }

    /// Drops every held element, so that nothing stale can be read back.
    pub fn clear(&mut self)
        ensures
            final(self).wf(),
            final(self)@ == Seq::<T>::empty(),
    {
        self.data.clear();
    }

    pub fn is_empty(&self) -> (r: bool)
        ensures
            r == (self@.len() == 0),
    {
        self.data.len() == 0
    }

    /// The held elements, in order, as a read-only slice.
    pub fn iter(&self) -> (r: &[T])
        ensures
            r@ == self@,
    {
        self.data.as_slice()
    }

    pub fn len(&self) -> (r: usize)
        ensures
            r == self@.len(),
    {
        self.data.len()
    }

    /// Appends every element of `slice` when it is non-empty and fits into
    /// the free space; otherwise reports why nothing was appended.
    pub fn extend_by_slice(&mut self, slice: &[T]) -> (r: Result<(), FixeArrayError>)
        requires
            old(self).wf(),
        ensures
            final(self).wf(),
            (if slice@.len() == 0 {
                r == Err::<(), FixeArrayError>(FixeArrayError::ElementNotFound)
                    && final(self)@ == old(self)@
            } else if slice@.len() > N {
                r == Err::<(), FixeArrayError>(FixeArrayError::OutOfTheBounds)
                    && final(self)@ == old(self)@
            } else if slice@.len() > N - old(self)@.len() {
                r == Err::<(), FixeArrayError>(FixeArrayError::FullCapacity)
                    && final(self)@ == old(self)@
            } else {
                r == Ok::<(), FixeArrayError>(()) && final(self)@ == old(self)@ + slice@
            }),
    {
        let size: usize = slice.len();
        let free_size: usize = N - self.data.len();
        if size == 0 {
            LOG.error("slice has no element");
            return Err(FixeArrayError::ElementNotFound);
        }

        if size > N {
            LOG.error("slice size is bigger than size of array, cannot add all elements");
            return Err(FixeArrayError::OutOfTheBounds);
        }

        if size > free_size {
            LOG.error(
                "capacity of array would be exceeded, try to delete old data in array and continue",
            );
            Err(FixeArrayError::FullCapacity)
        } else {
            let mut i: usize = 0;
            while i < size
                invariant
                    i <= size,
                    size == slice@.len(),
                    size <= N - old(self)@.len(),
                    self.data@ == old(self)@ + slice@.take(i as int),
                decreases size - i,
            {
                self.data.push(slice[i]);
                assert(slice@.take(i + 1) == slice@.take(i as int).push(slice@[i as int]));
                i += 1;
            }
            assert(slice@.take(size as int) == slice@);
            Ok(())
        }
    }

    /// Mirrors `extend_by_slice` for another bounded array of the same
    /// capacity: appends all of its held elements, with the same errors.
    pub fn extend_by_array(&mut self, array: &FixedArray<T, N>) -> (r: Result<(), FixeArrayError>)
        requires
            old(self).wf(),
        ensures
            final(self).wf(),
            (if array@.len() == 0 {
                r == Err::<(), FixeArrayError>(FixeArrayError::ElementNotFound)
                    && final(self)@ == old(self)@
            } else if array@.len() > N {
                r == Err::<(), FixeArrayError>(FixeArrayError::OutOfTheBounds)
                    && final(self)@ == old(self)@
            } else if array@.len() > N - old(self)@.len() {
                r == Err::<(), FixeArrayError>(FixeArrayError::FullCapacity)
                    && final(self)@ == old(self)@
            } else {
                r == Ok::<(), FixeArrayError>(()) && final(self)@ == old(self)@ + array@
            }),
    {
        self.extend_by_slice(array.iter())
    }
}

} // verus!
