//! Typed view over the toolkit's dynamic-array descriptor.
//!
//! The external system describes a growable array by a logical size, an
//! allocated capacity and the elements themselves. This module models
//! that descriptor with plain values: the elements live in a vector whose
//! length is the logical size, and the capacity is carried alongside.
//! Replacing the contents resizes the storage exactly to the replacement
//! slice, mirroring the descriptor's replace operation, which frees the
//! old storage and allocates anew through the external allocator.

use vstd::prelude::*;
use vstd::slice::slice_index_get;

verus! {

/// A generic view of the dynamic-array descriptor: logical size,
/// allocated capacity, and the elements. The size and capacity are kept
/// in the descriptor's own 32-bit signed width.
pub struct ImVector<T> {
    size: i32,
    capacity: i32,
    data: Vec<T>,
}

impl<T> View for ImVector<T> {
    type V = Seq<T>;

    closed spec fn view(&self) -> Seq<T> {
        self.data@
    }
}

impl<T> ImVector<T> {
    /// The descriptor's logical size field.
    pub closed spec fn spec_size(&self) -> int {
        self.size as int
    }

    /// The descriptor's capacity field.
    pub closed spec fn spec_capacity(&self) -> int {
        self.capacity as int
    }

    /// Descriptor invariant: the size is non-negative, never exceeds the
    /// capacity, and counts exactly the elements held.
    pub open spec fn wf(&self) -> bool {
        &&& 0 <= self.spec_size()
        &&& self.spec_size() <= self.spec_capacity()
        &&& self@.len() == self.spec_size()
    }

    /// Builds a descriptor owning exactly the given elements, sized and
    /// allocated to fit them. This is where converted foreign array
    /// contents enter the model.
    pub fn from_vec(data: Vec<T>) -> (r: ImVector<T>)
        requires
            data@.len() <= i32::MAX,
        ensures
            r.wf(),
            r@ == data@,
            r.spec_capacity() == data@.len(),
    {
        let n = data.len();
        ImVector { size: n as i32, capacity: n as i32, data }
    }

    /// The logical number of elements.
    pub fn len(&self) -> (r: usize)
        requires
            self.wf(),
        ensures
            r == self@.len(),
    {
        self.size as usize
    }

    /// The allocated capacity; informational, since the view itself
    /// never grows in place.
    pub fn capacity(&self) -> (r: usize)
        requires
            self.wf(),
        ensures
            r == self.spec_capacity(),
    {
        self.capacity as usize
    }

    /// Zero-copy read view of the logical elements.
    pub fn as_slice(&self) -> (r: &[T])
        requires
            self.wf(),
        ensures
            r@ == self@,
    {
        self.data.as_slice()
    }

    /// Zero-copy write view of the logical elements. Writes through the
    /// slice become the new contents; the size and capacity fields are
    /// untouched, so the descriptor stays well formed.
    pub fn as_slice_mut(&mut self) -> (r: &mut [T])
        requires
            old(self).wf(),
        ensures
            r@ == old(self)@,
            final(self)@ == final(r)@,
            final(self).spec_size() == old(self).spec_size(),
            final(self).spec_capacity() == old(self).spec_capacity(),
            final(r)@.len() == old(self)@.len() ==> final(self).wf(),
    {
        self.data.as_mut_slice()
    }

    /// Bounds-checked access: an absent result for every out-of-range
    /// index, never a wrong value.
    pub fn get(&self, index: usize) -> (r: Option<&T>)
        requires
            self.wf(),
        ensures
            index < self@.len() ==> (r matches Some(e) && *e == self@[index as int]),
            index >= self@.len() ==> r is None,
    {
        if index < self.len() {
            Some(slice_index_get(self.data.as_slice(), index))
        } else {
            None
        }
    }

    /// Bounds-checked mutable access: an absent result for every
    /// out-of-range index; in range, the element can be rewritten in
    /// place and everything else is untouched.
    pub fn get_mut(&mut self, index: usize) -> (r: Option<&mut T>)
        requires
            old(self).wf(),
        ensures
            index >= old(self)@.len() ==> r is None && *final(self) == *old(self),
            index < old(self)@.len() ==> (r matches Some(e) && *e == old(self)@[index as int]
                && final(self)@ == old(self)@.update(index as int, *final(e))
                && final(self).spec_size() == old(self).spec_size()
                && final(self).spec_capacity() == old(self).spec_capacity() && final(self).wf()),
    {
        if index < self.len() {
            Some(&mut self.data[index])
        } else {
            None
        }
    }

    /// Asserting access: the index must be in range, mirroring the
    /// indexed-access idiom that treats an out-of-range index as a fatal
    /// logic error rather than a recoverable one.
    pub fn index(&self, index: usize) -> (r: &T)
        requires
            self.wf(),
            index < self@.len(),
        ensures
            *r == self@[index as int],
    {
        slice_index_get(self.data.as_slice(), index)
    }

    /// Asserting mutable access, under the same in-range obligation as
    /// `index`.
    pub fn index_mut(&mut self, index: usize) -> (r: &mut T)
        requires
            old(self).wf(),
            index < old(self)@.len(),
        ensures
            *r == old(self)@[index as int],
            final(self)@ == old(self)@.update(index as int, *final(r)),
            final(self).spec_size() == old(self).spec_size(),
            final(self).spec_capacity() == old(self).spec_capacity(),
            final(self).wf(),
    {
        &mut self.data[index]
    }

    /// Replaces the whole contents: afterwards the elements, the size
    /// and the capacity all match the replacement slice exactly — no
    /// spare capacity is retained.
    pub fn replace_from_slice(&mut self, data: &[T]) where T: Copy
        requires
            data@.len() <= i32::MAX,
        ensures
            final(self).wf(),
            final(self)@ == data@,
            final(self).spec_size() == data@.len(),
            final(self).spec_capacity() == data@.len(),
    {
        let n = data.len();
        self.data.clear();
        let mut i: usize = 0;
        while i < n
            invariant
                i <= n,
                n == data@.len(),
                self.data@ == data@.take(i as int),
            decreases n - i,
        {
            self.data.push(*slice_index_get(data, i));
            proof {
                assert(data@.take(i + 1) =~= data@.take(i as int).push(data@[i as int]));
            }
            i += 1;
        }
        proof {
            assert(data@.take(n as int) =~= data@);
        }
        self.size = n as i32;
        self.capacity = n as i32;
    }
}

} // verus!
