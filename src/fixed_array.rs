use vstd::prelude::*;

use crate::error::ContainerError;
use crate::ordering::{sort_vec, sorted};
use vstd::laws_cmp::obeys_cmp;

verus! {

/// A contiguous sequence whose length never exceeds the capacity fixed at construction.
#[derive(Debug)]
pub struct FixedArray<T> {
    items: Vec<T>,
    capacity: usize,
}

impl<T> View for FixedArray<T> {
    type V = Seq<T>;

    closed spec fn view(&self) -> Seq<T> {
        self.items@
    }
}

impl<T> FixedArray<T> {
    /// The capacity fixed at construction.
    pub closed spec fn spec_capacity(&self) -> nat {
        self.capacity as nat
    }

    /// The length never exceeds the capacity, and the capacity is positive.
    pub closed spec fn wf(&self) -> bool {
        &&& 0 < self.capacity
        &&& self.items@.len() <= self.capacity
    }

    /// A fresh array of capacity `cap` takes `cap` appends: before the `k`-th append
    /// (counting from zero) it holds the first `k` values, fewer than `cap`, so the append
    /// succeeds; after `cap` appends it holds every value and is full, so the next append
    /// fails with `Full`.
    pub proof fn lemma_fill_to_capacity(a: Self, vs: Seq<T>)
        requires
            a.wf(),
            a@ == Seq::<T>::empty(),
            vs.len() == a.spec_capacity(),
        ensures
            forall|k: int|
                0 <= k < vs.len() ==> (#[trigger] vs.take(k)).len() < a.spec_capacity() && vs.take(
                    k,
                ).push(vs[k]) == vs.take(k + 1),
            a@ == vs.take(0),
            vs.take(vs.len() as int) == vs,
            vs.len() == a.spec_capacity(),
    {
        assert forall|k: int| 0 <= k < vs.len() implies (#[trigger] vs.take(k)).len()
            < a.spec_capacity() && vs.take(k).push(vs[k]) == vs.take(k + 1) by {
            assert(vs.take(k).push(vs[k]) =~= vs.take(k + 1));
        }
        assert(vs.take(0) =~= Seq::<T>::empty());
        assert(vs.take(vs.len() as int) =~= vs);
    }

    /// An empty array that can hold up to `capacity` elements; a zero capacity is refused.
    pub fn new(capacity: usize) -> (r: Result<FixedArray<T>, ContainerError>)
        ensures
            match r {
                Ok(a) => capacity > 0 && a.wf() && a@ == Seq::<T>::empty()
                    && a.spec_capacity() == capacity,
                Err(e) => capacity == 0 && e == ContainerError::InvalidArgument,
            },
    {
        if capacity == 0 {
            return Err(ContainerError::InvalidArgument);
        }
        Ok(FixedArray { items: Vec::new(), capacity })
    }

    fn check_index(&self, index: usize) -> (r: Result<(), ContainerError>)
        ensures
            r is Ok <==> index < self@.len(),
            r is Err ==> r == Err::<(), ContainerError>(ContainerError::IndexOutOfRange),
    {
        if index >= self.items.len() {
            return Err(ContainerError::IndexOutOfRange);
        }
        Ok(())
    }

    fn check_capacity(&self) -> (r: Result<(), ContainerError>)
        requires
            self.wf(),
        ensures
            r is Ok <==> self@.len() < self.spec_capacity(),
            r is Err ==> r == Err::<(), ContainerError>(ContainerError::Full),
    {
        if self.items.len() >= self.capacity {
            return Err(ContainerError::Full);
        }
        Ok(())
    }

    /// Places `element` at the end, unless the array is full.
    pub fn append(&mut self, element: T) -> (r: Result<(), ContainerError>)
        requires
            old(self).wf(),
        ensures
            final(self).wf(),
            final(self).spec_capacity() == old(self).spec_capacity(),
            old(self)@.len() < old(self).spec_capacity() ==> r is Ok && final(self)@ == old(
                self,
            )@.push(element),
            old(self)@.len() == old(self).spec_capacity() ==> r == Err::<(), ContainerError>(
                ContainerError::Full,
            ) && final(self)@ == old(self)@,
    {
        self.check_capacity()?;
        self.items.push(element);
        Ok(())
    }

    /// Inserts `element` at the front, shifting every element up by one, unless the array is full.
    pub fn prepend(&mut self, element: T) -> (r: Result<(), ContainerError>)
        requires
            old(self).wf(),
        ensures
            final(self).wf(),
            final(self).spec_capacity() == old(self).spec_capacity(),
            old(self)@.len() < old(self).spec_capacity() ==> r is Ok && final(self)@ == old(
                self,
            )@.insert(0, element),
            old(self)@.len() == old(self).spec_capacity() ==> r == Err::<(), ContainerError>(
                ContainerError::Full,
            ) && final(self)@ == old(self)@,
    {
        self.add_at(0, element)
    }

    /// Inserts `element` at `index`, shifting later elements up by one.
    /// An index past the length is refused first; then a full array.
    pub fn add_at(&mut self, index: usize, element: T) -> (r: Result<(), ContainerError>)
        requires
            old(self).wf(),
        ensures
            final(self).wf(),
            final(self).spec_capacity() == old(self).spec_capacity(),
            index > old(self)@.len() ==> r == Err::<(), ContainerError>(
                ContainerError::IndexOutOfRange,
            ) && final(self)@ == old(self)@,
            index <= old(self)@.len() && old(self)@.len() == old(self).spec_capacity() ==> r
                == Err::<(), ContainerError>(ContainerError::Full) && final(self)@ == old(self)@,
            index <= old(self)@.len() && old(self)@.len() < old(self).spec_capacity() ==> r is Ok
                && final(self)@ == old(self)@.insert(index as int, element),
    {
        let size = self.items.len();
        if index > size {
            return Err(ContainerError::IndexOutOfRange);
        }
        self.check_capacity()?;
        self.items.insert(index, element);
        Ok(())
    }

    /// Removes and returns the element at `index`, shifting later elements down by one.
    pub fn remove(&mut self, index: usize) -> (r: Result<T, ContainerError>)
        requires
            old(self).wf(),
        ensures
            final(self).wf(),
            final(self).spec_capacity() == old(self).spec_capacity(),
            index < old(self)@.len() ==> r == Ok::<T, ContainerError>(old(self)@[index as int])
                && final(self)@ == old(self)@.remove(index as int),
            index >= old(self)@.len() ==> r == Err::<T, ContainerError>(
                ContainerError::IndexOutOfRange,
            ) && final(self)@ == old(self)@,
    {
        self.check_index(index)?;
        Ok(self.items.remove(index))
    }

    /// Removes and returns the first element.
    pub fn pop_front(&mut self) -> (r: Result<T, ContainerError>)
        requires
            old(self).wf(),
        ensures
            final(self).wf(),
            final(self).spec_capacity() == old(self).spec_capacity(),
            old(self)@.len() > 0 ==> r == Ok::<T, ContainerError>(old(self)@[0])
                && final(self)@ == old(self)@.remove(0),
            old(self)@.len() == 0 ==> r == Err::<T, ContainerError>(
                ContainerError::IndexOutOfRange,
            ) && final(self)@ == old(self)@,
    {
        self.remove(0)
    }

    /// Removes and returns the last element.
    pub fn pop_back(&mut self) -> (r: Result<T, ContainerError>)
        requires
            old(self).wf(),
        ensures
            final(self).wf(),
            final(self).spec_capacity() == old(self).spec_capacity(),
            old(self)@.len() > 0 ==> r == Ok::<T, ContainerError>(old(self)@.last())
                && final(self)@ == old(self)@.drop_last(),
            old(self)@.len() == 0 ==> r == Err::<T, ContainerError>(
                ContainerError::IndexOutOfRange,
            ) && final(self)@ == old(self)@,
    {
        let size = self.items.len();
        if size == 0 {
            return Err(ContainerError::IndexOutOfRange);
        }
        let r = self.remove(size - 1);
        assert(old(self)@.remove(size - 1) =~= old(self)@.drop_last());
        r
    }

    /// The element at `index`.
    pub fn get(&self, index: usize) -> (r: Result<Option<&T>, ContainerError>)
        ensures
            match r {
                Ok(Some(x)) => index < self@.len() && *x == self@[index as int],
                Ok(None) => false,
                Err(e) => index >= self@.len() && e == ContainerError::IndexOutOfRange,
            },
    {
        self.check_index(index)?;
        Ok(Some(&self.items[index]))
    }

    /// Replaces the element at `index` with `element`.
    pub fn set(&mut self, index: usize, element: T) -> (r: Result<(), ContainerError>)
        requires
            old(self).wf(),
        ensures
            final(self).wf(),
            final(self).spec_capacity() == old(self).spec_capacity(),
            index < old(self)@.len() ==> r is Ok && final(self)@ == old(self)@.update(
                index as int,
                element,
            ),
            index >= old(self)@.len() ==> r == Err::<(), ContainerError>(
                ContainerError::IndexOutOfRange,
            ) && final(self)@ == old(self)@,
    {
        self.check_index(index)?;
        self.items.set(index, element);
        Ok(())
    }

    /// The first element, or nothing on an empty array.
    pub fn get_first(&self) -> (r: Option<&T>)
        ensures
            match r {
                Some(x) => self@.len() > 0 && *x == self@[0],
                None => self@.len() == 0,
            },
    {
        if self.items.len() == 0 {
            None
        } else {
            Some(&self.items[0])
        }
    }

    /// The last element, or nothing on an empty array.
    pub fn get_last(&self) -> (r: Option<&T>)
        ensures
            match r {
                Some(x) => self@.len() > 0 && *x == self@.last(),
                None => self@.len() == 0,
            },
    {
        let size = self.items.len();
        if size == 0 {
            None
        } else {
            Some(&self.items[size - 1])
        }
    }

    /// Sorts the elements in ascending order.
    pub fn sort(&mut self)
        where
            T: Ord,
        requires
            old(self).wf(),
            obeys_cmp::<T>(),
        ensures
            final(self).wf(),
            final(self).spec_capacity() == old(self).spec_capacity(),
            sorted(final(self)@),
            final(self)@.to_multiset() == old(self)@.to_multiset(),
    {
        sort_vec(&mut self.items);
        proof {
            vstd::seq_lib::to_multiset_len(old(self)@);
            vstd::seq_lib::to_multiset_len(self@);
        }
    }

    /// The number of elements held.
    pub fn get_size(&self) -> (r: usize)
        ensures
            r == self@.len(),
    {
        self.items.len()
    }

    /// The capacity fixed at construction.
    pub fn get_capacity(&self) -> (r: usize)
        ensures
            r == self.spec_capacity(),
    {
        self.capacity
    }

    /// The elements, in order.
    pub fn get_elements(&self) -> (r: &Vec<T>)
        ensures
            r@ == self@,
    {
        &self.items
    }
}

} // verus!
