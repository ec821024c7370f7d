//! A fixed-capacity arena array whose elements are not initialized yet; it
//! becomes a [`FixedArray`](crate::array_fixed::FixedArray) once its
//! initialized length is fixed.

use vstd::prelude::*;
use crate::arena::ArenaMetadata;
use crate::array_fixed::{FixedArray, ArrayInitializer};

verus! {

/// Continuous arena region for elements of one type, with no elements
/// initialized yet; the registered sweep destroys nothing until the
/// initialized length is set.
pub struct UninitArray<T> {
    /// Index of the array's record in the arena.
    pub rec: usize,
    /// Capacity the region was reserved for.
    pub capacity: usize,
    /// The initialized elements, none at the start.
    pub values: Vec<T>,
}

impl<T> UninitArray<T> {
    /// The handle matches an arena record whose sweep is still empty and
    /// whose region has room for `capacity` elements.
    pub open spec fn wf(&self, md: &ArenaMetadata) -> bool {
        &&& self.rec < md.fixed_arrays@.len()
        &&& md.fixed_arrays@[self.rec as int].len == 0
        &&& md.fixed_arrays@[self.rec as int].stride == vstd::layout::size_of::<T>()
        &&& md.fixed_arrays@[self.rec as int].data_addr + self.capacity as int
            * md.fixed_arrays@[self.rec as int].stride as int <= usize::MAX
        &&& self.values@.len() <= self.capacity
    }

    /// Returns the number of initialized items in the array if the arena
    /// is alive; the record's count stays zero until initialization is
    /// finalized.
    pub fn len(&self, md: &ArenaMetadata) -> (r: usize)
        requires
            self.rec < md.fixed_arrays@.len(),
        ensures
            r == if md.is_alive() {
                md.fixed_arrays@[self.rec as int].len as int
            } else {
                0
            },
    {
        if md.strong_rc > 0 {
            md.fixed_arrays[self.rec].len
        } else {
            0
        }
    }

    /// Returns the capacity, or maximum allowed items in the array.
    pub fn capacity(&self) -> (r: usize)
        ensures
            r == self.capacity,
    {
        self.capacity
    }

    /// Fix the initialized length: the registered sweep will destroy
    /// exactly the `len` items pushed so far. Any uninitialized tail of the
    /// region is not reclaimed.
    pub fn initialized_to_len(self, md: &mut ArenaMetadata, len: usize) -> (r: FixedArray<T>)
        requires
            old(md).wf(),
            self.wf(old(md)),
            len == self.values@.len(),
        ensures
            final(md).wf(),
            r.rec == self.rec,
            r.values == self.values,
            r.wf(final(md)),
            final(md).fixed_arrays@ == old(md).fixed_arrays@.update(
                self.rec as int,
                (crate::arena::FixedArrayRecord {
                    len,
                    ..old(md).fixed_arrays@[self.rec as int]
                }),
            ),
            *final(md) == (ArenaMetadata { fixed_arrays: final(md).fixed_arrays, ..*old(md) }),
    {
        let data_addr = md.fixed_arrays[self.rec].data_addr;
        proof {
            let stride = md.fixed_arrays@[self.rec as int].stride as int;
            assert(len * stride <= self.capacity as int * stride) by (nonlinear_arith)
                requires
                    len <= self.capacity,
                    stride >= 0,
            ;
        }
        md.fixed_array_set_data(self.rec, data_addr, len);
        FixedArray { rec: self.rec, values: self.values }
    }

    /// Returns the helper to safely initialize the array one item at a
    /// time.
    pub fn start_initializer(self) -> (r: ArrayInitializer<T>)
        ensures
            r.uninit_array == self,
            r.initialized_len == 0,
    {
        ArrayInitializer { uninit_array: self, initialized_len: 0 }
    }
}

} // verus!
