//! The growable, arena-backed array: a Vec-like push/pop interface whose
//! elements are placed individually and addressed through a pointer table
//! that doubles when full. The registered sweep destroys exactly the
//! elements the array still owns when the arena drains.

use vstd::prelude::*;
use crate::memory::Memory;
use crate::block::{MAX_SUPPORTED_ALIGN, BLOCK_HEADER_SIZE};
use crate::arena::{Arena, ArenaMetadata, UploadError, lemma_can_take_all_monotone};
use crate::droplist::{DropItem, DropFn};
use crate::iter::EmptyIfDeadIter;

verus! {

/// Arena footprint in bytes of a growable array's metadata cell (length,
/// capacity and table pointer).
pub const GROWABLE_ARRAY_META_SIZE: usize = 24;

/// Alignment of the metadata cell and of the pointer table.
pub const GROWABLE_ARRAY_META_ALIGN: usize = 8;

/// Size in bytes of one pointer-table slot.
pub const POINTER_SLOT_SIZE: usize = 8;

/// Arena-recorded metadata shape of the growable array: the number of
/// owned elements, the table capacity and the table address.
pub struct GrowableArrayMetadata {
    pub len: usize,
    pub capacity: usize,
    pub ptrs: usize,
}

/// A growable, arena-backed array. The items are not stored contiguously:
/// each is placed individually and its address is kept in an
/// arena-allocated pointer table.
pub struct Array<T> {
    /// Index of the array's record in the arena.
    pub rec: usize,
    /// The owned elements, in index order.
    pub values: Vec<T>,
}

impl<T> Array<T> {
    /// The handle matches an arena record that owns one element address
    /// per element.
    pub open spec fn wf(&self, md: &ArenaMetadata) -> bool {
        &&& self.rec < md.growable_arrays@.len()
        &&& md.growable_arrays@[self.rec as int].ptrs@.len() == self.values@.len()
    }

    /// Creates a new array with the default initial capacity.
    pub fn new(arena: &Arena, md: &mut ArenaMetadata, mem: &mut Memory) -> (r: Result<
        Array<T>,
        UploadError,
    >)
        requires
            old(md).wf(),
            old(md).is_alive(),
            !old(md).drained,
            old(md).last_block is Some,
            old(mem).wf(),
            old(mem).can_take_n(3),
            old(md).compatible_with(old(mem)),
            old(md).bases_below(old(mem).spec_next_base() as int),
            old(md).rc < i64::MAX,
        ensures
            ArenaMetadata::arena_preserved(*old(md), *final(md), *old(mem), *final(mem), 3),
            final(md).cells == old(md).cells,
            final(md).fixed_arrays == old(md).fixed_arrays,
            final(md).strong_rc == old(md).strong_rc,
            match r {
                Result::Ok(arr) => {
                    &&& arr.wf(final(md))
                    &&& arr.values@.len() == 0
                    &&& arr.rec == old(md).growable_arrays@.len()
                    &&& final(md).growable_arrays@.len() == old(md).growable_arrays@.len() + 1
                    &&& final(md).growable_arrays@[arr.rec as int].capacity == 4
                    &&& final(md).all_items() == old(md).all_items().push(
                        DropItem {
                            fun: DropFn::GrowableArraySweep(arr.rec),
                            data: final(md).growable_arrays@[arr.rec as int].meta_addr,
                        },
                    )
                    &&& final(md).rc == old(md).rc + 1
                },
                Result::Err(e) => final(md).rc == old(md).rc,
            },
            r is Ok,
            forall|i: int|
                0 <= i < old(md).growable_arrays@.len()
                    ==> final(md).growable_arrays@[i] == old(md).growable_arrays@[i],
    {
        Array::<T>::with_capacity(arena, md, mem, 4)
    }

    /// Creates a new array with the specified capacity for the pointer
    /// table.
    pub fn with_capacity(arena: &Arena, md: &mut ArenaMetadata, mem: &mut Memory, capacity: usize)
        -> (r: Result<Array<T>, UploadError>)
        requires
            old(md).wf(),
            old(md).is_alive(),
            !old(md).drained,
            old(md).last_block is Some,
            old(mem).wf(),
            old(mem).can_take_n(3),
            old(md).compatible_with(old(mem)),
            old(md).bases_below(old(mem).spec_next_base() as int),
            old(md).rc < i64::MAX,
        ensures
            ArenaMetadata::arena_preserved(*old(md), *final(md), *old(mem), *final(mem), 3),
            final(md).cells == old(md).cells,
            final(md).fixed_arrays == old(md).fixed_arrays,
            final(md).strong_rc == old(md).strong_rc,
            match r {
                Result::Ok(arr) => {
                    &&& arr.wf(final(md))
                    &&& arr.values@.len() == 0
                    &&& arr.rec == old(md).growable_arrays@.len()
                    &&& final(md).growable_arrays@.len() == old(md).growable_arrays@.len() + 1
                    &&& final(md).growable_arrays@[arr.rec as int].capacity == capacity
                    &&& final(md).all_items() == old(md).all_items().push(
                        DropItem {
                            fun: DropFn::GrowableArraySweep(arr.rec),
                            data: final(md).growable_arrays@[arr.rec as int].meta_addr,
                        },
                    )
                    &&& final(md).rc == old(md).rc + 1
                },
                Result::Err(e) => {
                    &&& e == UploadError::ItemDoesNotFit
                    &&& (capacity * POINTER_SLOT_SIZE > usize::MAX || !old(
                        md,
                    ).fits_in_fresh_block(
                        capacity * POINTER_SLOT_SIZE,
                        GROWABLE_ARRAY_META_ALIGN as int,
                    ))
                    &&& final(md).rc == old(md).rc
                },
            },
            forall|i: int|
                0 <= i < old(md).growable_arrays@.len()
                    ==> final(md).growable_arrays@[i] == old(md).growable_arrays@[i],
            capacity * POINTER_SLOT_SIZE <= usize::MAX && old(md).fits_in_fresh_block(
                capacity * POINTER_SLOT_SIZE,
                GROWABLE_ARRAY_META_ALIGN as int,
            ) ==> r is Ok,
    {
        proof {
            crate::block::lemma_pad_zero(
                BLOCK_HEADER_SIZE as int,
                GROWABLE_ARRAY_META_ALIGN as int,
            );
        }
        let meta_addr = match md.upload_no_drop(
            mem,
            GROWABLE_ARRAY_META_SIZE,
            GROWABLE_ARRAY_META_ALIGN,
        ) {
            Result::Ok(a) => a,
            Result::Err(e) => {
                proof {
                    // The metadata cell always fits a fresh block of a
                    // well-formed arena.
                    assert(false);
                }
                return Err(e);
            },
        };
        let rec = md.push_growable_record(meta_addr, capacity, 0);
        match md.push_custom_drop_fn(mem, DropFn::GrowableArraySweep(rec), meta_addr) {
            Result::Ok(u) => {},
            Result::Err(e) => {
                proof {
                    assert(false);
                }
                return Err(e);
            },
        }
        if capacity > usize::MAX / POINTER_SLOT_SIZE {
            proof {
                lemma_can_take_all_monotone(*mem);
                assert(capacity as int * POINTER_SLOT_SIZE > usize::MAX) by (nonlinear_arith)
                    requires
                        capacity > usize::MAX / 8,
                        POINTER_SLOT_SIZE == 8,
                ;
            }
            return Err(UploadError::ItemDoesNotFit);
        }
        let table_addr = match md.alloc_no_drop_items_aligned_uninit(
            mem,
            capacity,
            POINTER_SLOT_SIZE,
            GROWABLE_ARRAY_META_ALIGN,
        ) {
            Result::Ok(a) => a,
            Result::Err(e) => {
                return Err(e);
            },
        };
        let ghost g3 = *md;
        md.growable_set_table(rec, table_addr, capacity);
        md.inc_weak();
        proof {
            lemma_can_take_all_monotone(*mem);
            assert(md.lists_seq() == g3.lists_seq());
            assert(md.all_items() == g3.all_items());
            assert(md.frontier() == g3.frontier());
            assert forall|a: int, s: int| old(md).span_placed(a, s) implies md.span_placed(
                a,
                s,
            ) by {
                assert(g3.span_placed(a, s));
            }
            assert forall|a: int| old(md).span_placed(a, 1) implies md.byte_at(a) == old(
                md,
            ).byte_at(a) by {
                assert(g3.byte_at(a) == old(md).byte_at(a));
                assert(md.byte_at(a) == g3.byte_at(a));
            }
        }
        Ok(Array { rec, values: Vec::new() })
    }

    /// Returns the number of items in the array if the arena is alive.
    pub fn len(&self, md: &ArenaMetadata) -> (r: Option<usize>)
        requires
            self.wf(md),
        ensures
            r == if md.is_alive() {
                Option::Some(self.values@.len() as usize)
            } else {
                Option::<usize>::None
            },
    {
        if md.strong_rc > 0 {
            Some(self.values.len())
        } else {
            None
        }
    }

    /// Returns the capacity of the pointer table if the arena is alive.
    pub fn capacity(&self, md: &ArenaMetadata) -> (r: Option<usize>)
        requires
            self.wf(md),
        ensures
            r == if md.is_alive() {
                Option::Some(md.growable_arrays@[self.rec as int].capacity)
            } else {
                Option::<usize>::None
            },
    {
        if md.strong_rc > 0 {
            Some(md.growable_arrays[self.rec].capacity)
        } else {
            None
        }
    }

    /// Returns true if the array is empty or the arena is dead.
    pub fn is_empty(&self, md: &ArenaMetadata) -> (r: bool)
        requires
            self.wf(md),
        ensures
            r == (!md.is_alive() || self.values@.len() == 0),
    {
        if md.strong_rc > 0 {
            self.values.len() == 0
        } else {
            true
        }
    }

    /// The element at `i`, while the arena is alive.
    pub fn get<'a>(&'a self, md: &ArenaMetadata, i: usize) -> (r: Option<&'a T>)
        ensures
            r is Some <==> (md.is_alive() && i < self.values@.len()),
            match r {
                Option::Some(v) => *v == self.values@[i as int],
                Option::None => true,
            },
    {
        if md.strong_rc > 0 && i < self.values.len() {
            Some(&self.values[i])
        } else {
            None
        }
    }


    /// A mutable reference to the element at `i`, while the arena is
    /// alive.
    pub fn get_mut<'a>(&'a mut self, md: &ArenaMetadata, i: usize) -> (r: Option<&'a mut T>)
        ensures
            r is Some <==> (md.is_alive() && i < old(self).values@.len()),
            final(self).rec == old(self).rec,
            match r {
                Option::Some(v) => {
                    &&& *v == old(self).values@[i as int]
                    &&& final(self).values@ == old(self).values@.update(i as int, *final(v))
                },
                Option::None => *final(self) == *old(self),
            },
    {
        if md.strong_rc > 0 && i < self.values.len() {
            let values = &mut self.values;
            proof {
                assert(old(self).values@.update(i as int, old(self).values@[i as int])
                    =~= old(self).values@);
            }
            Some(&mut values[i])
        } else {
            None
        }
    }

    /// Copies the data into a plain vector; empty when the arena is dead.
    pub fn to_vec(&self, md: &ArenaMetadata) -> (r: Vec<T>) where T: Clone
        ensures
            md.is_alive() ==> r@.len() == self.values@.len() && (forall|i: int|
                0 <= i < r@.len() ==> vstd::pervasive::cloned::<T>(self.values@[i], r@[i])),
            !md.is_alive() ==> r@.len() == 0,
    {
        let mut r: Vec<T> = Vec::new();
        if md.strong_rc > 0 {
            let mut i: usize = 0;
            while i < self.values.len()
                invariant
                    i <= self.values@.len(),
                    r@.len() == i,
                    forall|k: int|
                        0 <= k < i ==> vstd::pervasive::cloned::<T>(self.values@[k], r@[k]),
                decreases self.values@.len() - i,
            {
                let v = self.values[i].clone();
                r.push(v);
                i = i + 1;
            }
        }
        r
    }

    /// Iterates over the items, yielding none if the arena is dead.
    pub fn iter<'a>(&'a self, md: &ArenaMetadata) -> (r: EmptyIfDeadIter<'a, T>)
        ensures
            r.items == &self.values,
            r.index == 0,
            r.is_alive == md.is_alive(),
            md.is_alive() ==> r.remaining() == self.values@,
            !md.is_alive() ==> r.remaining().len() == 0,
    {
        let r = EmptyIfDeadIter { is_alive: md.strong_rc > 0, items: &self.values, index: 0 };
        proof {
            if md.is_alive() {
                assert(r.remaining() =~= self.values@);
            }
        }
        r
    }

    /// Pushes a new item onto the array: the item is placed in the arena
    /// and its address recorded; when the pointer table is full a table of
    /// twice the capacity replaces it. The arena must be alive.
    pub fn push(&mut self, md: &mut ArenaMetadata, mem: &mut Memory, item: T) -> (r: Result<
        (),
        UploadError,
    >)
        requires
            old(md).wf(),
            old(md).is_alive(),
            old(self).wf(old(md)),
            old(md).last_block is Some,
            old(mem).wf(),
            old(mem).can_take_n(2),
            old(md).compatible_with(old(mem)),
            old(md).bases_below(old(mem).spec_next_base() as int),
            vstd::layout::align_of::<T>() <= MAX_SUPPORTED_ALIGN,
        ensures
            ArenaMetadata::arena_preserved(*old(md), *final(md), *old(mem), *final(mem), 2),
            final(md).cells == old(md).cells,
            final(md).fixed_arrays == old(md).fixed_arrays,
            final(md).strong_rc == old(md).strong_rc,
            final(md).rc == old(md).rc,
            final(md).all_items() == old(md).all_items(),
            final(self).rec == old(self).rec,
            match r {
                Result::Ok(u) => {
                    &&& final(self).values@ == old(self).values@.push(item)
                    &&& final(self).wf(final(md))
                    &&& final(md).growable_arrays@[old(self).rec as int].ptrs@.len() == old(
                        md,
                    ).growable_arrays@[old(self).rec as int].ptrs@.len() + 1
                    &&& forall|k: int|
                        0 <= k < old(md).growable_arrays@[old(self).rec as int].ptrs@.len()
                            ==> final(md).growable_arrays@[old(self).rec as int].ptrs@[k]
                            == old(md).growable_arrays@[old(self).rec as int].ptrs@[k]
                },
                Result::Err(e) => {
                    &&& e == UploadError::ItemDoesNotFit
                    &&& final(self).values@ == old(self).values@
                    &&& final(md).growable_arrays@[old(self).rec as int].ptrs == old(
                        md,
                    ).growable_arrays@[old(self).rec as int].ptrs
                    &&& final(self).wf(final(md))
                },
            },
            forall|i: int|
                0 <= i < old(md).growable_arrays@.len() && i != old(self).rec
                    ==> final(md).growable_arrays@[i] == old(md).growable_arrays@[i],
            old(self).values@.len() < old(md).growable_arrays@[old(self).rec as int].capacity
                ==> ({
                &&& (r is Ok <==> old(md).can_place(
                    vstd::layout::size_of::<T>() as int,
                    vstd::layout::align_of::<T>() as int,
                ))
                &&& final(md).growable_arrays@[old(self).rec as int].capacity == old(
                    md,
                ).growable_arrays@[old(self).rec as int].capacity
            }),
            (r is Ok && old(self).values@.len()
                == old(md).growable_arrays@[old(self).rec as int].capacity
                ==> final(md).growable_arrays@[old(self).rec as int].capacity as int == (
            if old(md).growable_arrays@[old(self).rec as int].capacity == 0 {
                4int
            } else {
                2 * old(md).growable_arrays@[old(self).rec as int].capacity
            })),
            ({
                let oldcap = old(md).growable_arrays@[old(self).rec as int].capacity as int;
                let newcap: int = if oldcap == 0 {
                    4int
                } else {
                    2 * oldcap
                };
                old(self).values@.len() == oldcap && newcap * POINTER_SLOT_SIZE
                    <= usize::MAX && old(md).fits_in_fresh_block(
                    newcap * POINTER_SLOT_SIZE,
                    GROWABLE_ARRAY_META_ALIGN as int,
                ) && old(md).fits_in_fresh_block(
                    vstd::layout::size_of::<T>() as int,
                    vstd::layout::align_of::<T>() as int,
                ) ==> r is Ok
            }),
    {
        let ghost pre = *md;
        let rec = self.rec;
        let cap = md.growable_arrays[rec].capacity;
        if self.values.len() == cap {
            // Grow: double the capacity (or use 4 if the capacity is 0).
            let new_capacity: usize;
            if cap == 0 {
                new_capacity = 4;
            } else {
                if cap > usize::MAX / 2 {
                    proof {
                        lemma_can_take_all_monotone(*mem);
                        assert(2 * cap as int * POINTER_SLOT_SIZE > usize::MAX)
                            by (nonlinear_arith)
                            requires
                                cap > usize::MAX / 2,
                                POINTER_SLOT_SIZE == 8,
                        ;
                    }
                    return Err(UploadError::ItemDoesNotFit);
                }
                new_capacity = cap * 2;
            }
            if new_capacity > usize::MAX / POINTER_SLOT_SIZE {
                proof {
                    lemma_can_take_all_monotone(*mem);
                    assert(new_capacity as int * POINTER_SLOT_SIZE > usize::MAX)
                        by (nonlinear_arith)
                        requires
                            new_capacity > usize::MAX / 8,
                            POINTER_SLOT_SIZE == 8,
                    ;
                }
                return Err(UploadError::ItemDoesNotFit);
            }
            let new_table = match md.alloc_no_drop_items_aligned_uninit(
                mem,
                new_capacity,
                POINTER_SLOT_SIZE,
                GROWABLE_ARRAY_META_ALIGN,
            ) {
                Result::Ok(a) => a,
                Result::Err(e) => {
                    return Err(e);
                },
            };
            let ghost g1 = *md;
            md.growable_set_table(rec, new_table, new_capacity);
            proof {
                assert(md.lists_seq() == g1.lists_seq());
                assert(md.all_items() == g1.all_items());
                assert(md.growable_arrays@[rec as int].ptrs == g1.growable_arrays@[
                    rec as int
                ].ptrs);
            }
        }
        let size = core::mem::size_of::<T>();
        let align = core::mem::align_of::<T>();
        vstd::layout::layout_for_type_is_valid::<T>();
        let ghost g2 = *md;
        let item_addr = match md.alloc_no_drop_items_aligned_uninit(mem, 1, size, align) {
            Result::Ok(a) => a,
            Result::Err(e) => {
                proof {
                    lemma_can_take_all_monotone(*mem);
                }
                return Err(e);
            },
        };
        let ghost g3 = *md;
        md.growable_push_ptr(rec, item_addr);
        self.values.push(item);
        proof {
            lemma_can_take_all_monotone(*mem);
            assert(md.lists_seq() == g3.lists_seq());
            assert(md.all_items() == g3.all_items());
            assert(md.frontier() == g3.frontier());
            assert forall|a: int, s: int| pre.span_placed(a, s) implies md.span_placed(a, s) by {
                assert(g3.span_placed(a, s));
            }
            assert forall|a: int| pre.span_placed(a, 1) implies md.byte_at(a) == pre.byte_at(
                a,
            ) by {
                assert(g3.byte_at(a) == pre.byte_at(a));
                assert(md.byte_at(a) == g3.byte_at(a));
            }
        }
        Ok(())
    }

    /// Removes and returns the last item; the popped element's destructor
    /// will no longer run on arena drain. Returns `None` when the arena is
    /// dead or the array is empty.
    pub fn pop(&mut self, md: &mut ArenaMetadata) -> (r: Option<T>)
        requires
            old(md).wf(),
            old(self).wf(old(md)),
        ensures
            final(md).wf(),
            final(self).rec == old(self).rec,
            final(self).wf(final(md)),
            final(md).cells == old(md).cells,
            final(md).fixed_arrays == old(md).fixed_arrays,
            final(md).strong_rc == old(md).strong_rc,
            final(md).rc == old(md).rc,
            final(md).all_items() == old(md).all_items(),
            final(md).last_block == old(md).last_block,
            final(md).drop_log == old(md).drop_log,
            final(md).drained == old(md).drained,
            forall|i: int|
                0 <= i < old(md).growable_arrays@.len() && i != old(self).rec
                    ==> final(md).growable_arrays@[i] == old(md).growable_arrays@[i],
            if old(md).is_alive() && old(self).values@.len() > 0 {
                r == Option::Some(old(self).values@.last()) && final(self).values@ == old(
                    self,
                ).values@.drop_last() && final(md).growable_arrays@[old(self).rec as int].ptrs@
                    == old(md).growable_arrays@[old(self).rec as int].ptrs@.drop_last()
            } else {
                r is None && final(self).values@ == old(self).values@ && *final(md) == *old(md)
            },
    {
        if md.strong_rc <= 0 {
            return None;
        }
        if self.values.len() == 0 {
            return None;
        }
        let ghost g0 = *md;
        let rec = self.rec;
        md.growable_pop_ptr(rec);
        let v = self.values.pop();
        proof {
            assert(md.lists_seq() == g0.lists_seq());
            assert(md.all_items() == g0.all_items());
        }
        v
    }

    /// Creates a new array by consuming the given items; the capacity is
    /// at least the item count and at least the default.
    pub fn from_iter(arena: &Arena, md: &mut ArenaMetadata, mem: &mut Memory, items: Vec<T>) -> (r:
        Result<Array<T>, UploadError>)
        requires
            old(md).wf(),
            old(md).is_alive(),
            !old(md).drained,
            old(md).last_block is Some,
            old(mem).wf(),
            old(mem).shared.min_free_blocks_before_allocating_new >= 1,
            old(mem).shared.max_free_blocks_to_initialize_or_cleanup_to >= 1,
            old(mem).can_take_n(3),
            old(md).compatible_with(old(mem)),
            old(md).bases_below(old(mem).spec_next_base() as int),
            old(md).rc < i64::MAX,
            vstd::layout::align_of::<T>() <= MAX_SUPPORTED_ALIGN,
        ensures
            final(md).wf(),
            final(mem).wf(),
            final(mem).same_config(old(mem)),
            final(md).compatible_with(final(mem)),
            final(md).bases_below(final(mem).spec_next_base() as int),
            final(md).strong_rc == old(md).strong_rc,
            final(md).drained == old(md).drained,
            final(md).drop_log == old(md).drop_log,
            match r {
                Result::Ok(arr) => {
                    &&& arr.wf(final(md))
                    &&& arr.values@ == items@
                    &&& final(md).rc == old(md).rc + 1
                },
                Result::Err(e) => ({
                    let cap0: int = if items@.len() < 4 {
                        4int
                    } else {
                        items@.len() as int
                    };
                    &&& e == UploadError::ItemDoesNotFit
                    &&& (cap0 * POINTER_SLOT_SIZE > usize::MAX || !old(md).fits_in_fresh_block(
                        cap0 * POINTER_SLOT_SIZE,
                        GROWABLE_ARRAY_META_ALIGN as int,
                    ) || !old(md).fits_in_fresh_block(
                        vstd::layout::size_of::<T>() as int,
                        vstd::layout::align_of::<T>() as int,
                    ) || final(mem).spec_next_base() + 2 * final(mem).spec_stride() > usize::MAX)
                }),
            },
    {
        let n = items.len();
        let capacity = if n < 4 {
            4
        } else {
            n
        };
        let ghost cap0: int = capacity as int;
        let mut arr = match Array::<T>::with_capacity(arena, md, mem, capacity) {
            Result::Ok(a) => a,
            Result::Err(e) => {
                return Err(e);
            },
        };
        let mut items = items;
        let mut i: usize = 0;
        let ghost items0 = items@;
        while i < n
            invariant
                i <= n,
                n == items0.len(),
                items@ == items0.subrange(i as int, n as int),
                md.wf(),
                md.is_alive(),
                !md.drained,
                md.last_block is Some,
                mem.wf(),
                mem.same_config(old(mem)),
                mem.shared.min_free_blocks_before_allocating_new >= 1,
                mem.shared.max_free_blocks_to_initialize_or_cleanup_to >= 1,
                md.compatible_with(mem),
                md.bases_below(mem.spec_next_base() as int),
                md.strong_rc == old(md).strong_rc,
                md.rc == old(md).rc + 1,
                md.drained == old(md).drained,
                md.drop_log == old(md).drop_log,
                md.block_size == old(md).block_size,
                arr.wf(md),
                arr.values@ == items0.subrange(0, i as int),
                md.growable_arrays@[arr.rec as int].capacity as int == cap0,
                cap0 == if n < 4 {
                    4int
                } else {
                    n as int
                },
                n <= cap0,
                vstd::layout::align_of::<T>() <= MAX_SUPPORTED_ALIGN,
            decreases n - i,
        {
            let stride = mem.shared.stride;
            if mem.shared.next_base > usize::MAX - stride - stride {
                return Err(UploadError::ItemDoesNotFit);
            }
            let item = items.remove(0);
            match arr.push(md, mem, item) {
                Result::Ok(u) => {},
                Result::Err(e) => {
                    return Err(e);
                },
            }
            i = i + 1;
            proof {
                assert(arr.values@ =~= items0.subrange(0, i as int));
                assert(items@ =~= items0.subrange(i as int, n as int));
            }
        }
        proof {
            assert(arr.values@ =~= items0);
        }
        Ok(arr)
    }
}

/// Iterator-style cursor over shared references into an [`Array`].
pub struct ArrayIter<'a, T> {
    pub items: &'a Vec<T>,
    pub index: usize,
}

impl<'a, T> ArrayIter<'a, T> {
    /// The next element, in index order.
    pub fn next(&mut self) -> (r: Option<&'a T>)
        requires
            old(self).index <= old(self).items@.len(),
        ensures
            final(self).items == old(self).items,
            final(self).index <= final(self).items@.len(),
            match r {
                Option::Some(v) => old(self).index < old(self).items@.len() && *v == old(
                    self,
                ).items@[old(self).index as int] && final(self).index == old(self).index + 1,
                Option::None => old(self).index == old(self).items@.len() && *final(self)
                    == *old(self),
            },
    {
        if self.index < self.items.len() {
            let items: &'a Vec<T> = self.items;
            let v = &items[self.index];
            self.index = self.index + 1;
            Some(v)
        } else {
            None
        }
    }
}

} // verus!
