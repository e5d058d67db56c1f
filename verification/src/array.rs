//! A bounded sequence with a compile-time capacity, used by callers for
//! frame history. Pushing beyond the capacity is a caller error and is
//! excluded by contract rather than detected at run time.

use vstd::prelude::*;

verus! {

/// A sequence holding at most `N` elements.
#[derive(Clone, Debug)]
pub struct Array<T, const N: usize> {
    inner: Vec<T>,
}

impl<T, const N: usize> Array<T, N> {
    /// The capacity bound: never more elements than `N`. Constructors
    /// establish it and every mutation preserves it.
    pub open spec fn wf(self) -> bool {
        self@.len() <= N
    }

    /// An empty array.
    pub fn new() -> (r: Self)
        ensures
            r@ == Seq::<T>::empty(),
            r.wf(),
    {
        Self { inner: Vec::new() }
    }

    /// Append `value` at the end; the array must not be full.
    pub fn push(&mut self, value: T)
        requires
            old(self)@.len() < N,
        ensures
            final(self)@ == old(self)@.push(value),
            final(self).wf(),
    {
        self.inner.push(value);
    }

    /// Remove the element at `index`, shifting the later ones left.
    pub fn remove(&mut self, index: usize)
        requires
            index < old(self)@.len(),
        ensures
            final(self)@ == old(self)@.remove(index as int),
            old(self).wf() ==> final(self).wf(),
    {
        self.inner.remove(index);
    }

    /// The number of elements held.
    pub fn len(&self) -> (r: usize)
        ensures
            r == self@.len(),
    {
        self.inner.len()
    }

    /// The element at `index`.
    pub fn get(&self, index: usize) -> (r: &T)
        requires
            index < self@.len(),
        ensures
            *r == self@[index as int],
    {
        &self.inner[index]
    }

    /// A cursor over borrowed elements, starting at the front.
    pub fn iter(&self) -> (r: ArrayIterator<'_, T, N>)
        ensures
            r.elements() == self@,
            r.pos() == 0,
    {
        ArrayIterator { array: self, index: 0 }
    }

    /// A cursor that takes the elements out, front first.
    pub fn into_iter(self) -> (r: ArrayIntoIterator<T, N>)
        ensures
            r@ == self@,
    {
        ArrayIntoIterator { rest: self.inner }
    }

    /// An array holding the elements of `values` in order; their number
    /// must not exceed the capacity.
    pub fn from_vec(values: Vec<T>) -> (r: Self)
        requires
            values@.len() <= N,
        ensures
            r@ == values@,
            r.wf(),
    {
        Self { inner: values }
    }
}

impl<T, const N: usize> View for Array<T, N> {
    type V = Seq<T>;

    closed spec fn view(&self) -> Seq<T> {
        self.inner@
    }
}

impl<T, const N: usize> Default for Array<T, N> {
    /// An empty array.
    fn default() -> (r: Self)
        ensures
            r@ == Seq::<T>::empty(),
            r.wf(),
    {
        Self::new()
    }
}

/// A position in a borrowed [`Array`], handing out its elements in
/// order.
pub struct ArrayIterator<'a, T, const N: usize> {
    array: &'a Array<T, N>,
    index: usize,
}

impl<'a, T, const N: usize> ArrayIterator<'a, T, N> {
    /// The elements walked over.
    pub closed spec fn elements(self) -> Seq<T> {
        self.array@
    }

    /// How many elements were already handed out.
    pub closed spec fn pos(self) -> int {
        self.index as int
    }

    /// The next element, or `None` when the array is exhausted.
    pub fn next(&mut self) -> (r: Option<&'a T>)
        ensures
            final(self).elements() == old(self).elements(),
            if old(self).pos() < old(self).elements().len() {
                &&& r matches Some(v) && *v == old(self).elements()[old(self).pos()]
                &&& final(self).pos() == old(self).pos() + 1
            } else {
                &&& r is None
                &&& final(self).pos() == old(self).pos()
            },
    {
        if self.index >= self.array.len() {
            return None;
        }
        let index = self.index;
        self.index += 1;
        Some(self.array.get(index))
    }
}

/// An [`Array`] being consumed, handing out its elements in order.
pub struct ArrayIntoIterator<T, const N: usize> {
    rest: Vec<T>,
}

impl<T, const N: usize> ArrayIntoIterator<T, N> {
    /// The next element, or `None` when all were taken.
    pub fn next(&mut self) -> (r: Option<T>)
        ensures
            if old(self)@.len() > 0 {
                &&& r matches Some(v) && v == old(self)@[0]
                &&& final(self)@ == old(self)@.drop_first()
            } else {
                &&& r is None
                &&& final(self)@ == old(self)@
            },
    {
        if self.rest.len() == 0 {
            return None;
        }
        Some(self.rest.remove(0))
    }
}

impl<T, const N: usize> View for ArrayIntoIterator<T, N> {
    type V = Seq<T>;

    closed spec fn view(&self) -> Seq<T> {
        self.rest@
    }
}

} // verus!
