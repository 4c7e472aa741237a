use vstd::prelude::*;

use crate::error::ContainerError;
use crate::ordering::{sort_vec, sorted};
use vstd::laws_cmp::obeys_cmp;

verus! {

/// The growth factor used by [`DynamicArray::new`].
pub const DEFAULT_GROWTH_FACTOR: usize = 2;

/// The capacity after growing `capacity` by `factor`, held to what a `usize` can count.
pub open spec fn grown_capacity(capacity: nat, factor: nat) -> nat {
    if capacity * factor <= usize::MAX {
        capacity * factor
    } else {
        usize::MAX as nat
    }
}

/// The capacity after one insertion into an array of length `len` and capacity `cap`
/// with growth factor `factor`: grown when the array was full.
pub open spec fn next_capacity(len: nat, cap: nat, factor: nat) -> nat {
    if len == cap {
        grown_capacity(cap, factor)
    } else {
        cap
    }
}

/// The capacity after `k` appends to an array of length `len` and capacity `cap`.
pub open spec fn capacity_after_appends(len: nat, cap: nat, factor: nat, k: nat) -> nat
    decreases k,
{
    if k == 0 {
        cap
    } else {
        next_capacity(
            (len + k - 1) as nat,
            capacity_after_appends(len, cap, factor, (k - 1) as nat),
            factor,
        )
    }
}

/// Appends to an empty array leave the capacity alone until the array is full.
proof fn lemma_no_growth_until_full(cap: nat, factor: nat, k: nat)
    requires
        k <= cap,
    ensures
        capacity_after_appends(0, cap, factor, k) == cap,
    decreases k,
{
    if k > 0 {
        lemma_no_growth_until_full(cap, factor, (k - 1) as nat);
    }
}

/// The append that finds an array of capacity `cap` full grows it by the factor two.
proof fn lemma_growth_when_full(cap: nat)
    requires
        2 * cap <= usize::MAX,
    ensures
        capacity_after_appends(0, cap, 2, cap + 1) == 2 * cap,
{
    lemma_no_growth_until_full(cap, 2, cap);
    assert(capacity_after_appends(0, cap, 2, cap + 1) == next_capacity(cap, cap, 2));
}

/// A contiguous sequence that grows its capacity geometrically when it fills up.
#[derive(Debug)]
pub struct DynamicArray<T> {
    items: Vec<T>,
    capacity: usize,
    growth_factor: usize,
}

impl<T> View for DynamicArray<T> {
    type V = Seq<T>;

    closed spec fn view(&self) -> Seq<T> {
        self.items@
    }
}

impl<T> DynamicArray<T> {
    /// The current capacity.
    pub closed spec fn spec_capacity(&self) -> nat {
        self.capacity as nat
    }

    /// The factor by which the capacity grows.
    pub closed spec fn spec_growth_factor(&self) -> nat {
        self.growth_factor as nat
    }

    /// The length never exceeds the capacity, the capacity is positive and the
    /// growth factor is at least two.
    pub closed spec fn wf(&self) -> bool {
        &&& 0 < self.capacity
        &&& self.items@.len() <= self.capacity
        &&& 2 <= self.growth_factor
    }

    /// The capacity that an insertion into `old` leaves: grown when `old` was full.
    pub open spec fn capacity_after_insert(old: &Self) -> nat {
        next_capacity(old@.len(), old.spec_capacity(), old.spec_growth_factor())
    }

    /// With growth factor two, a fresh array of capacity `c` takes `c + 1` appends: before
    /// the `k`-th append (counting from zero) it holds the first `k` values, and after it
    /// the capacity covers the `k + 1` values; the final capacity is at least `2 * c`.
    /// Capacities whose double exceeds `usize::MAX` are left out: there the capacity stops
    /// at `usize::MAX`.
    pub proof fn lemma_growth_by_two(a: Self, vs: Seq<T>)
        requires
            a.wf(),
            a@ == Seq::<T>::empty(),
            a.spec_growth_factor() == 2,
            vs.len() == a.spec_capacity() + 1,
            2 * a.spec_capacity() <= usize::MAX,
        ensures
            forall|k: int|
                0 <= k < vs.len() ==> (#[trigger] vs.take(k)).push(vs[k]) == vs.take(k + 1)
                    && k + 1 <= capacity_after_appends(0, a.spec_capacity(), 2, (k + 1) as nat),
            a@ == vs.take(0),
            vs.take(vs.len() as int) == vs,
            capacity_after_appends(0, a.spec_capacity(), 2, vs.len()) >= 2 * a.spec_capacity(),
    {
        let c = a.spec_capacity();
        assert forall|k: int| 0 <= k < vs.len() implies (#[trigger] vs.take(k)).push(vs[k])
            == vs.take(k + 1) && k + 1 <= capacity_after_appends(0, c, 2, (k + 1) as nat) by {
            assert(vs.take(k).push(vs[k]) =~= vs.take(k + 1));
            if k + 1 <= c {
                lemma_no_growth_until_full(c, 2, (k + 1) as nat);
            } else {
                lemma_growth_when_full(c);
            }
        }
        lemma_growth_when_full(c);
        assert(vs.take(0) =~= Seq::<T>::empty());
        assert(vs.take(vs.len() as int) =~= vs);
    }

    /// An empty array of capacity `initial_capacity` that doubles when full;
    /// a zero capacity is refused.
    pub fn new(initial_capacity: usize) -> (r: Result<DynamicArray<T>, ContainerError>)
        ensures
            match r {
                Ok(a) => initial_capacity > 0 && a.wf() && a@ == Seq::<T>::empty()
                    && a.spec_capacity() == initial_capacity && a.spec_growth_factor()
                    == DEFAULT_GROWTH_FACTOR,
                Err(e) => initial_capacity == 0 && e == ContainerError::InvalidArgument,
            },
    {
        Self::with_growth_factor(initial_capacity, DEFAULT_GROWTH_FACTOR)
    }

    /// An empty array of capacity `initial_capacity` that grows by `growth_factor`
    /// when full; a zero capacity or a factor below two is refused.
    pub fn with_growth_factor(initial_capacity: usize, growth_factor: usize) -> (r: Result<
        DynamicArray<T>,
        ContainerError,
    >)
        ensures
            match r {
                Ok(a) => initial_capacity > 0 && growth_factor >= 2 && a.wf() && a@ == Seq::<
                    T,
                >::empty() && a.spec_capacity() == initial_capacity && a.spec_growth_factor()
                    == growth_factor,
                Err(e) => (initial_capacity == 0 || growth_factor < 2) && e
                    == ContainerError::InvalidArgument,
            },
    {
        if initial_capacity == 0 || growth_factor < 2 {
            return Err(ContainerError::InvalidArgument);
        }
        Ok(DynamicArray { items: Vec::new(), capacity: initial_capacity, growth_factor })
    }

    /// Grows the capacity by the growth factor when the array is full.
    fn ensure_capacity(&mut self)
        requires
            old(self).wf(),
        ensures
            final(self).wf(),
            final(self)@ == old(self)@,
            final(self).spec_growth_factor() == old(self).spec_growth_factor(),
            final(self).spec_capacity() == Self::capacity_after_insert(old(self)),
            old(self)@.len() < usize::MAX ==> final(self)@.len() < final(self).spec_capacity(),
    {
        let size = self.items.len();
        if size == self.capacity {
            let grown = match self.capacity.checked_mul(self.growth_factor) {
                Some(c) => c,
                None => usize::MAX,
            };
            proof {
                assert(self.capacity * self.growth_factor >= 2 * self.capacity) by (nonlinear_arith)
                    requires
                        self.growth_factor >= 2,
                        self.capacity > 0,
                ;
            }
            self.items.reserve(grown - size);
            self.capacity = grown;
        }
    }

    fn check_index(&self, index: usize) -> (r: Result<(), ContainerError>)
        ensures
            r is Ok <==> index < self@.len(),
            r is Err ==> r == Err::<(), ContainerError>(ContainerError::IndexOutOfRange),
    {
        if index >= self.items.len() {
            return Err(ContainerError::IndexOutOfRange);
        }
        Ok(())
    }

    /// Places `element` at the end, growing the capacity first when the array is full.
    pub fn append(&mut self, element: T) -> (r: Result<(), ContainerError>)
        requires
            old(self).wf(),
            old(self)@.len() < usize::MAX,
        ensures
            r is Ok,
            final(self).wf(),
            final(self)@ == old(self)@.push(element),
            final(self).spec_growth_factor() == old(self).spec_growth_factor(),
            final(self).spec_capacity() == Self::capacity_after_insert(old(self)),
    {
        let size = self.items.len();
        self.add_at(size, element)
    }

    /// Inserts `element` at the front, growing the capacity first when the array is full.
    pub fn prepend(&mut self, element: T) -> (r: Result<(), ContainerError>)
        requires
            old(self).wf(),
            old(self)@.len() < usize::MAX,
        ensures
            r is Ok,
            final(self).wf(),
            final(self)@ == old(self)@.insert(0, element),
            final(self).spec_growth_factor() == old(self).spec_growth_factor(),
            final(self).spec_capacity() == Self::capacity_after_insert(old(self)),
    {
        self.add_at(0, element)
    }

    /// Inserts `element` at `index`, shifting later elements up by one; an index past
    /// the length is refused. The capacity grows first when the array is full.
    pub fn add_at(&mut self, index: usize, element: T) -> (r: Result<(), ContainerError>)
        requires
            old(self).wf(),
            old(self)@.len() < usize::MAX,
        ensures
            final(self).wf(),
            final(self).spec_growth_factor() == old(self).spec_growth_factor(),
            index > old(self)@.len() ==> r == Err::<(), ContainerError>(
                ContainerError::IndexOutOfRange,
            ) && final(self)@ == old(self)@ && final(self).spec_capacity()
                == old(self).spec_capacity(),
            index <= old(self)@.len() ==> r is Ok && final(self)@ == old(self)@.insert(
                index as int,
                element,
            ) && final(self).spec_capacity() == Self::capacity_after_insert(old(self)),
    {
        let size = self.items.len();
        if index > size {
            return Err(ContainerError::IndexOutOfRange);
        }
        self.ensure_capacity();
        self.items.insert(index, element);
        Ok(())
    }

    /// Removes and returns the element at `index`, shifting later elements down by one.
    pub fn remove(&mut self, index: usize) -> (r: Result<T, ContainerError>)
        requires
            old(self).wf(),
        ensures
            final(self).wf(),
            final(self).spec_capacity() == old(self).spec_capacity(),
            final(self).spec_growth_factor() == old(self).spec_growth_factor(),
            index < old(self)@.len() ==> r == Ok::<T, ContainerError>(old(self)@[index as int])
                && final(self)@ == old(self)@.remove(index as int),
            index >= old(self)@.len() ==> r == Err::<T, ContainerError>(
                ContainerError::IndexOutOfRange,
            ) && final(self)@ == old(self)@,
    {
        self.check_index(index)?;
        Ok(self.items.remove(index))
    }

    /// Removes and returns the first element.
    pub fn pop_front(&mut self) -> (r: Result<T, ContainerError>)
        requires
            old(self).wf(),
        ensures
            final(self).wf(),
            final(self).spec_capacity() == old(self).spec_capacity(),
            final(self).spec_growth_factor() == old(self).spec_growth_factor(),
            old(self)@.len() > 0 ==> r == Ok::<T, ContainerError>(old(self)@[0])
                && final(self)@ == old(self)@.remove(0),
            old(self)@.len() == 0 ==> r == Err::<T, ContainerError>(
                ContainerError::IndexOutOfRange,
            ) && final(self)@ == old(self)@,
    {
        self.remove(0)
    }

    /// Removes and returns the last element.
    pub fn pop_back(&mut self) -> (r: Result<T, ContainerError>)
        requires
            old(self).wf(),
        ensures
            final(self).wf(),
            final(self).spec_capacity() == old(self).spec_capacity(),
            final(self).spec_growth_factor() == old(self).spec_growth_factor(),
            old(self)@.len() > 0 ==> r == Ok::<T, ContainerError>(old(self)@.last())
                && final(self)@ == old(self)@.drop_last(),
            old(self)@.len() == 0 ==> r == Err::<T, ContainerError>(
                ContainerError::IndexOutOfRange,
            ) && final(self)@ == old(self)@,
    {
        let size = self.items.len();
        if size == 0 {
            return Err(ContainerError::IndexOutOfRange);
        }
        let r = self.remove(size - 1);
        assert(old(self)@.remove(size - 1) =~= old(self)@.drop_last());
        r
    }

    /// The element at `index`.
    pub fn get(&self, index: usize) -> (r: Result<Option<&T>, ContainerError>)
        ensures
            match r {
                Ok(Some(x)) => index < self@.len() && *x == self@[index as int],
                Ok(None) => false,
                Err(e) => index >= self@.len() && e == ContainerError::IndexOutOfRange,
            },
    {
        self.check_index(index)?;
        Ok(Some(&self.items[index]))
    }

    /// Replaces the element at `index` with `element`.
    pub fn set(&mut self, index: usize, element: T) -> (r: Result<(), ContainerError>)
        requires
            old(self).wf(),
        ensures
            final(self).wf(),
            final(self).spec_capacity() == old(self).spec_capacity(),
            final(self).spec_growth_factor() == old(self).spec_growth_factor(),
            index < old(self)@.len() ==> r is Ok && final(self)@ == old(self)@.update(
                index as int,
                element,
            ),
            index >= old(self)@.len() ==> r == Err::<(), ContainerError>(
                ContainerError::IndexOutOfRange,
            ) && final(self)@ == old(self)@,
    {
        self.check_index(index)?;
        self.items.set(index, element);
        Ok(())
    }

    /// The first element, or nothing on an empty array.
    pub fn get_first(&self) -> (r: Option<&T>)
        ensures
            match r {
                Some(x) => self@.len() > 0 && *x == self@[0],
                None => self@.len() == 0,
            },
    {
        if self.items.len() == 0 {
            None
        } else {
            Some(&self.items[0])
        }
    }

    /// The last element, or nothing on an empty array.
    pub fn get_last(&self) -> (r: Option<&T>)
        ensures
            match r {
                Some(x) => self@.len() > 0 && *x == self@.last(),
                None => self@.len() == 0,
            },
    {
        let size = self.items.len();
        if size == 0 {
            None
        } else {
            Some(&self.items[size - 1])
        }
    }

    /// Sorts the elements in ascending order.
    pub fn sort(&mut self)
        where
            T: Ord,
        requires
            old(self).wf(),
            obeys_cmp::<T>(),
        ensures
            final(self).wf(),
            final(self).spec_capacity() == old(self).spec_capacity(),
            final(self).spec_growth_factor() == old(self).spec_growth_factor(),
            sorted(final(self)@),
            final(self)@.to_multiset() == old(self)@.to_multiset(),
    {
        sort_vec(&mut self.items);
        proof {
            vstd::seq_lib::to_multiset_len(old(self)@);
            vstd::seq_lib::to_multiset_len(self@);
        }
    }

    /// The number of elements held.
    pub fn get_size(&self) -> (r: usize)
        ensures
            r == self@.len(),
    {
        self.items.len()
    }

    /// The current capacity.
    pub fn get_capacity(&self) -> (r: usize)
        ensures
            r == self.spec_capacity(),
    {
        self.capacity
    }

    /// The factor by which the capacity grows.
    pub fn get_growth_factor(&self) -> (r: usize)
        ensures
            r == self.spec_growth_factor(),
    {
        self.growth_factor
    }

    /// The elements, in order.
    pub fn get_elements(&self) -> (r: &Vec<T>)
        ensures
            r@ == self@,
    {
        &self.items
    }
}

} // verus!
