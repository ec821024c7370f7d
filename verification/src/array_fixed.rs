//! A fixed-length contiguous arena array: its elements are placed in one
//! aligned region and destroyed by one registered sweep, in index order,
//! when the arena drains.

use vstd::prelude::*;
use crate::memory::Memory;
use crate::block::{MAX_SUPPORTED_ALIGN, BLOCK_HEADER_SIZE};
use crate::arena::{Arena, ArenaMetadata, UploadError, FixedArrayRecord,
    lemma_can_take_all_monotone};
use crate::array_uninit::UninitArray;
use crate::droplist::{DropItem, DropFn};

verus! {

/// Arena footprint in bytes of a fixed array's metadata cell (length and
/// data pointer).
pub const FIXED_ARRAY_META_SIZE: usize = 16;

/// Alignment of a fixed array's metadata cell.
pub const FIXED_ARRAY_META_ALIGN: usize = 8;

/// A helper to safely initialize the items of an
/// [`UninitArray`](crate::array_uninit::UninitArray).
pub struct ArrayInitializer<T> {
    pub uninit_array: UninitArray<T>,
    pub initialized_len: usize,
}

impl<T> ArrayInitializer<T> {
    pub open spec fn wf(&self, md: &ArenaMetadata) -> bool {
        &&& self.uninit_array.wf(md)
        &&& self.initialized_len == self.uninit_array.values@.len()
    }

    /// Push a new item. Feeding the initializer more items than its
    /// capacity is an invariant violation, so such calls are excluded; the
    /// body still guards the slot count, so an unverified caller's excess
    /// push is ignored rather than breaking the array.
    pub fn push(&mut self, item: T)
        requires
            old(self).initialized_len == old(self).uninit_array.values@.len(),
            old(self).initialized_len < old(self).uninit_array.capacity,
        ensures
            final(self).uninit_array.rec == old(self).uninit_array.rec,
            final(self).uninit_array.capacity == old(self).uninit_array.capacity,
            final(self).initialized_len == final(self).uninit_array.values@.len(),
            final(self).uninit_array.values@ == old(self).uninit_array.values@.push(item),
            final(self).initialized_len == old(self).initialized_len + 1,
    {
        if self.initialized_len < self.uninit_array.capacity {
            self.uninit_array.values.push(item);
            self.initialized_len = self.initialized_len + 1;
        }
    }

    /// Finalize the initialization: the sweep will destroy exactly the
    /// items pushed so far.
    pub fn initialized(self, md: &mut ArenaMetadata) -> (r: Option<FixedArray<T>>)
        requires
            old(md).wf(),
            self.wf(old(md)),
        ensures
            final(md).wf(),
            r is Some,
            match r {
                Option::Some(fa) => {
                    &&& fa.rec == self.uninit_array.rec
                    &&& fa.values == self.uninit_array.values
                    &&& fa.wf(final(md))
                    &&& final(md).fixed_arrays@ == old(md).fixed_arrays@.update(
                        fa.rec as int,
                        (FixedArrayRecord {
                            len: self.initialized_len,
                            ..old(md).fixed_arrays@[fa.rec as int]
                        }),
                    )
                    &&& *final(md) == (ArenaMetadata {
                        fixed_arrays: final(md).fixed_arrays,
                        ..*old(md)
                    })
                },
                Option::None => true,
            },
    {
        if self.initialized_len > self.uninit_array.capacity {
            proof {
                assert(false);
            }
            None
        } else {
            let len = self.initialized_len;
            Some(self.uninit_array.initialized_to_len(md, len))
        }
    }
}

/// Continuous memory block containing many elements of the same type; the
/// registered sweep destroys elements `[0, len)` in index order on arena
/// drain.
pub struct FixedArray<T> {
    /// Index of the array's record in the arena.
    pub rec: usize,
    /// The elements, in index order.
    pub values: Vec<T>,
}

impl<T> FixedArray<T> {
    /// The handle matches an arena record whose sweep covers exactly its
    /// elements.
    pub open spec fn wf(&self, md: &ArenaMetadata) -> bool {
        &&& self.rec < md.fixed_arrays@.len()
        &&& md.fixed_arrays@[self.rec as int].len == self.values@.len()
        &&& md.fixed_arrays@[self.rec as int].stride == vstd::layout::size_of::<T>()
    }

    /// Distance between the starts of two consecutive elements in the
    /// region; for any placeable type this is the type's size.
    pub fn aligned_item_size() -> (r: usize)
        ensures
            r == vstd::layout::size_of::<T>(),
    {
        let size = core::mem::size_of::<T>();
        let align = core::mem::align_of::<T>();
        vstd::layout::layout_for_type_is_valid::<T>();
        let pad = (align - size % align) % align;
        proof {
            assert(pad == 0) by (nonlinear_arith)
                requires
                    pad == ((align - size as int % align as int) as int % align as int),
                    size as int % align as int == 0,
                    align >= 1,
            ;
        }
        size + pad
    }

    /// Returns the length of this array if the arena is alive.
    pub fn len(&self, md: &ArenaMetadata) -> (r: Option<usize>)
        requires
            self.wf(md),
        ensures
            r == if md.is_alive() {
                Option::Some(self.values@.len() as usize)
            } else {
                Option::<usize>::None
            },
    {
        if md.strong_rc > 0 {
            Some(self.values.len())
        } else {
            None
        }
    }

    /// Returns true if the arena is dead or the array is empty.
    pub fn is_empty(&self, md: &ArenaMetadata) -> (r: bool)
        requires
            self.wf(md),
        ensures
            r == (!md.is_alive() || self.values@.len() == 0),
    {
        match self.len(md) {
            Option::Some(n) => n == 0,
            Option::None => true,
        }
    }

    /// The element at `i`, while the arena is alive.
    pub fn get<'a>(&'a self, md: &ArenaMetadata, i: usize) -> (r: Option<&'a T>)
        ensures
            r is Some <==> (md.is_alive() && i < self.values@.len()),
            match r {
                Option::Some(v) => *v == self.values@[i as int],
                Option::None => true,
            },
    {
        if md.strong_rc > 0 && i < self.values.len() {
            Some(&self.values[i])
        } else {
            None
        }
    }


    /// A mutable reference to the element at `i`, while the arena is
    /// alive.
    pub fn get_mut<'a>(&'a mut self, md: &ArenaMetadata, i: usize) -> (r: Option<&'a mut T>)
        ensures
            r is Some <==> (md.is_alive() && i < old(self).values@.len()),
            final(self).rec == old(self).rec,
            match r {
                Option::Some(v) => {
                    &&& *v == old(self).values@[i as int]
                    &&& final(self).values@ == old(self).values@.update(i as int, *final(v))
                },
                Option::None => *final(self) == *old(self),
            },
    {
        if md.strong_rc > 0 && i < self.values.len() {
            let values = &mut self.values;
            proof {
                assert(old(self).values@.update(i as int, old(self).values@[i as int])
                    =~= old(self).values@);
            }
            Some(&mut values[i])
        } else {
            None
        }
    }

    /// Copies the data into a plain vector; empty when the arena is dead.
    pub fn to_vec(&self, md: &ArenaMetadata) -> (r: Vec<T>) where T: Clone
        ensures
            md.is_alive() ==> r@.len() == self.values@.len() && (forall|i: int|
                0 <= i < r@.len() ==> vstd::pervasive::cloned::<T>(self.values@[i], r@[i])),
            !md.is_alive() ==> r@.len() == 0,
    {
        let mut r: Vec<T> = Vec::new();
        if md.strong_rc > 0 {
            let mut i: usize = 0;
            while i < self.values.len()
                invariant
                    i <= self.values@.len(),
                    r@.len() == i,
                    forall|k: int|
                        0 <= k < i ==> vstd::pervasive::cloned::<T>(self.values@[k], r@[k]),
                decreases self.values@.len() - i,
            {
                let v = self.values[i].clone();
                r.push(v);
                i = i + 1;
            }
        }
        r
    }

    /// Iterates over the items, yielding none if the arena is dead.
    pub fn iter<'a>(&'a self, md: &ArenaMetadata) -> (r: crate::iter::EmptyIfDeadIter<'a, T>)
        ensures
            r.items == &self.values,
            r.index == 0,
            r.is_alive == md.is_alive(),
            md.is_alive() ==> r.remaining() == self.values@,
            !md.is_alive() ==> r.remaining().len() == 0,
    {
        let r = crate::iter::EmptyIfDeadIter {
            is_alive: md.strong_rc > 0,
            items: &self.values,
            index: 0,
        };
        proof {
            if md.is_alive() {
                assert(r.remaining() =~= self.values@);
            }
        }
        r
    }

    /// Iterates over the items if the arena is alive.
    pub fn safer_iter<'a>(&'a self, md: &ArenaMetadata) -> (r: Option<
        crate::iter::EmptyIfDeadIter<'a, T>,
    >)
        ensures
            r is Some <==> md.is_alive(),
            match r {
                Option::Some(it) => it.items == &self.values && it.index == 0 && it.is_alive
                    && it.remaining() == self.values@,
                Option::None => true,
            },
    {
        if md.strong_rc > 0 {
            let it = crate::iter::EmptyIfDeadIter {
                is_alive: true,
                items: &self.values,
                index: 0,
            };
            proof {
                assert(it.remaining() =~= self.values@);
            }
            Some(it)
        } else {
            None
        }
    }

    /// Creates a new array with the specified capacity without placing any
    /// data: the items are filled in through the returned array's
    /// initializer, and the registered sweep destroys nothing until the
    /// initialized length is fixed.
    pub fn with_capacity(
        arena: &Arena,
        md: &mut ArenaMetadata,
        mem: &mut Memory,
        capacity: usize,
    ) -> (r: Result<UninitArray<T>, UploadError>)
        requires
            old(md).wf(),
            old(md).is_alive(),
            !old(md).drained,
            old(md).last_block is Some,
            old(mem).wf(),
            old(mem).can_take_n(3),
            old(md).compatible_with(old(mem)),
            old(md).bases_below(old(mem).spec_next_base() as int),
            old(md).rc < i64::MAX,
            vstd::layout::align_of::<T>() <= MAX_SUPPORTED_ALIGN,
        ensures
            ArenaMetadata::arena_preserved(*old(md), *final(md), *old(mem), *final(mem), 3),
            final(md).cells == old(md).cells,
            final(md).growable_arrays == old(md).growable_arrays,
            final(md).strong_rc == old(md).strong_rc,
            match r {
                Result::Ok(ua) => {
                    &&& ua.wf(final(md))
                    &&& ua.capacity == capacity
                    &&& ua.values@.len() == 0
                    &&& ua.rec == old(md).fixed_arrays@.len()
                    &&& final(md).fixed_arrays@.len() == old(md).fixed_arrays@.len() + 1
                    &&& final(md).all_items() == old(md).all_items().push(
                        DropItem {
                            fun: DropFn::FixedArraySweep(ua.rec),
                            data: final(md).fixed_arrays@[ua.rec as int].meta_addr,
                        },
                    )
                    &&& final(md).fixed_arrays@[ua.rec as int].len == 0
                    &&& final(md).rc == old(md).rc + 1
                },
                Result::Err(e) => {
                    &&& e == UploadError::ItemDoesNotFit
                    &&& (capacity * vstd::layout::size_of::<T>() > usize::MAX || !old(
                        md,
                    ).fits_in_fresh_block(
                        (capacity * vstd::layout::size_of::<T>()) as int,
                        vstd::layout::align_of::<T>() as int,
                    ))
                    &&& final(md).rc == old(md).rc
                },
            },
            forall|i: int|
                0 <= i < old(md).fixed_arrays@.len() ==> final(md).fixed_arrays@[i] == old(
                    md,
                ).fixed_arrays@[i],
            capacity * vstd::layout::size_of::<T>() <= usize::MAX && old(md).fits_in_fresh_block(
                (capacity * vstd::layout::size_of::<T>()) as int,
                vstd::layout::align_of::<T>() as int,
            ) ==> r is Ok,
    {
        let size = core::mem::size_of::<T>();
        let align = core::mem::align_of::<T>();
        vstd::layout::layout_for_type_is_valid::<T>();
        proof {
            crate::block::lemma_pad_zero(BLOCK_HEADER_SIZE as int, FIXED_ARRAY_META_ALIGN as int);
        }
        let meta_addr = match md.upload_no_drop(mem, FIXED_ARRAY_META_SIZE, FIXED_ARRAY_META_ALIGN)
        {
            Result::Ok(a) => a,
            Result::Err(e) => {
                proof {
                    // The metadata cell always fits a fresh block of a
                    // well-formed arena.
                    assert(false);
                }
                return Err(e);
            },
        };
        let rec = md.push_fixed_array_record(meta_addr, size);
        match md.push_custom_drop_fn(mem, DropFn::FixedArraySweep(rec), meta_addr) {
            Result::Ok(u) => {},
            Result::Err(e) => {
                proof {
                    assert(false);
                }
                return Err(e);
            },
        }
        let total = match capacity.checked_mul(size) {
            Option::Some(t) => t,
            Option::None => {
                proof {
                    lemma_can_take_all_monotone(*mem);
                }
                return Err(UploadError::ItemDoesNotFit);
            },
        };
        let data_addr = match md.alloc_no_drop_items_aligned_uninit(mem, capacity, size, align) {
            Result::Ok(a) => a,
            Result::Err(e) => {
                return Err(e);
            },
        };
        let ghost g3 = *md;
        md.fixed_array_set_data(rec, data_addr, 0);
        md.inc_weak();
        proof {
            assert(0 * size as int == 0) by (nonlinear_arith);
            lemma_can_take_all_monotone(*mem);
            assert(md.lists_seq() == g3.lists_seq());
            assert(md.all_items() == g3.all_items());
            assert(md.frontier() == g3.frontier());
            assert forall|a: int, s: int| old(md).span_placed(a, s) implies md.span_placed(
                a,
                s,
            ) by {
                assert(g3.span_placed(a, s));
            }
            assert forall|a: int| old(md).span_placed(a, 1) implies md.byte_at(a) == old(
                md,
            ).byte_at(a) by {
                assert(g3.byte_at(a) == old(md).byte_at(a));
                assert(md.byte_at(a) == g3.byte_at(a));
            }
        }
        Ok(UninitArray { rec, capacity, values: Vec::new() })
    }

    /// Creates a new array holding the given items: the metadata cell is
    /// placed, a sweep over all the items is registered, and the items are
    /// placed contiguously in one aligned region.
    pub fn new(arena: &Arena, md: &mut ArenaMetadata, mem: &mut Memory, items: Vec<T>) -> (r:
        Result<FixedArray<T>, UploadError>)
        requires
            old(md).wf(),
            old(md).is_alive(),
            !old(md).drained,
            old(md).last_block is Some,
            old(mem).wf(),
            old(mem).can_take_n(3),
            old(md).compatible_with(old(mem)),
            old(md).bases_below(old(mem).spec_next_base() as int),
            old(md).rc < i64::MAX,
            vstd::layout::align_of::<T>() <= MAX_SUPPORTED_ALIGN,
        ensures
            ArenaMetadata::arena_preserved(*old(md), *final(md), *old(mem), *final(mem), 3),
            final(md).cells == old(md).cells,
            final(md).growable_arrays == old(md).growable_arrays,
            final(md).strong_rc == old(md).strong_rc,
            match r {
                Result::Ok(fa) => {
                    &&& fa.values == items
                    &&& fa.wf(final(md))
                    &&& fa.rec == old(md).fixed_arrays@.len()
                    &&& final(md).fixed_arrays@.len() == old(md).fixed_arrays@.len() + 1
                    &&& final(md).fixed_arrays@[fa.rec as int].len == items@.len()
                    &&& final(md).all_items() == old(md).all_items().push(
                        DropItem {
                            fun: DropFn::FixedArraySweep(fa.rec),
                            data: final(md).fixed_arrays@[fa.rec as int].meta_addr,
                        },
                    )
                    &&& final(md).rc == old(md).rc + 1
                },
                Result::Err(e) => {
                    &&& e == UploadError::ItemDoesNotFit
                    &&& (items@.len() * vstd::layout::size_of::<T>() > usize::MAX || !old(
                        md,
                    ).fits_in_fresh_block(
                        (items@.len() * vstd::layout::size_of::<T>()) as int,
                        vstd::layout::align_of::<T>() as int,
                    ))
                    &&& final(md).rc == old(md).rc
                },
            },
            forall|i: int|
                0 <= i < old(md).fixed_arrays@.len() ==> final(md).fixed_arrays@[i] == old(
                    md,
                ).fixed_arrays@[i],
            items@.len() * vstd::layout::size_of::<T>() <= usize::MAX && old(
                md,
            ).fits_in_fresh_block(
                (items@.len() * vstd::layout::size_of::<T>()) as int,
                vstd::layout::align_of::<T>() as int,
            ) ==> r is Ok,
    {
        let len = items.len();
        let ua = match FixedArray::<T>::with_capacity(arena, md, mem, len) {
            Result::Ok(u) => u,
            Result::Err(e) => {
                return Err(e);
            },
        };
        let ghost mid = *md;
        let rec = ua.rec;
        let fa = (UninitArray { rec, capacity: ua.capacity, values: items }).initialized_to_len(
            md,
            len,
        );
        proof {
            assert(md.lists_seq() == mid.lists_seq());
            assert(md.all_items() == mid.all_items());
        }
        Ok(fa)
    }
}

} // verus!
