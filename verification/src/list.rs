//! The append-only list: items are placed with registered destructors and
//! their addresses recorded in fixed-capacity slot blocks chained through
//! the arena.

use vstd::prelude::*;
use crate::memory::Memory;
use crate::block::{MAX_SUPPORTED_ALIGN, BLOCK_HEADER_SIZE};
use crate::arena::{Arena, ArenaMetadata, UploadError};
use crate::droplist::DropFn;
use crate::iter::EmptyIfDeadIter;

verus! {

/// Capacity of one slot block of the list.
pub const MAX_ITEMS: usize = 32;

/// Arena footprint in bytes of one slot block (the slot array, the chain
/// link and the use counter).
pub const SEQUENCE_BYTE_SIZE: usize = 272;

/// Alignment of a slot block's bytes in the arena.
pub const SEQUENCE_ALIGN: usize = 8;

/// One fixed-capacity block of item-address slots.
pub struct PartialSequence {
    /// Addresses of the items stored through this block, in insertion
    /// order.
    pub slots: Vec<usize>,
    /// Number of used slots.
    pub used_items: u16,
}

impl PartialSequence {
    pub open spec fn wf(&self) -> bool {
        &&& self.slots@.len() == self.used_items
        &&& self.used_items <= MAX_ITEMS
    }

    /// A block with no used slots.
    pub fn empty() -> (r: PartialSequence)
        ensures
            r.slots@ == Seq::<usize>::empty(),
            r.used_items == 0,
            r.wf(),
    {
        PartialSequence { slots: Vec::new(), used_items: 0 }
    }

    /// Store an item address in the next empty slot; reports whether there
    /// was room.
    pub fn take_empty_slot(&mut self, item_addr: usize) -> (r: bool)
        requires
            old(self).wf(),
        ensures
            final(self).wf(),
            r <==> old(self).used_items < MAX_ITEMS,
            if old(self).used_items < MAX_ITEMS {
                final(self).slots@ == old(self).slots@.push(item_addr) && final(self).used_items
                    == old(self).used_items + 1
            } else {
                *final(self) == *old(self)
            },
    {
        if self.used_items >= MAX_ITEMS as u16 {
            false
        } else {
            self.slots.push(item_addr);
            self.used_items = self.used_items + 1;
            true
        }
    }
}

/// Append-only list: a chain of slot blocks in the arena, with the items
/// themselves placed individually and registered for destruction in
/// insertion order.
pub struct List<T> {
    /// Number of items appended.
    pub len: u32,
    /// The slot blocks, oldest first; only the last one has room.
    pub seqs: Vec<PartialSequence>,
    /// The items, in insertion order.
    pub values: Vec<T>,
}

impl<T> List<T> {
    pub open spec fn wf(&self) -> bool {
        &&& self.len == self.values@.len()
        &&& self.seqs@.len() >= 1
        &&& forall|i: int| 0 <= i < self.seqs@.len() ==> (#[trigger] self.seqs@[i]).wf()
        &&& self.seqs@.last().used_items <= MAX_ITEMS
    }

    /// Initializes a new list in the arena and returns a handle to it; the
    /// first slot block is placed with a registered destructor.
    pub fn new(arena: &Arena, md: &mut ArenaMetadata, mem: &mut Memory) -> (r: Result<
        List<T>,
        UploadError,
    >)
        requires
            old(md).wf(),
            old(md).is_alive(),
            !old(md).drained,
            old(md).last_block is Some,
            old(mem).wf(),
            old(mem).can_take_n(2),
            old(md).compatible_with(old(mem)),
            old(md).bases_below(old(mem).spec_next_base() as int),
            old(md).rc < i64::MAX,
        ensures
            ArenaMetadata::arena_preserved(*old(md), *final(md), *old(mem), *final(mem), 2),
            ArenaMetadata::registries_unchanged(*old(md), *final(md)),
            final(md).strong_rc == old(md).strong_rc,
            r is Ok,
            match r {
                Result::Ok(l) => {
                    &&& l.wf()
                    &&& l.len == 0
                    &&& l.values@.len() == 0
                    &&& l.seqs@.len() == 1
                    &&& final(md).all_items().len() == old(md).all_items().len() + 1
                    &&& final(md).rc == old(md).rc + 1
                },
                Result::Err(e) => true,
            },
    {
        proof {
            crate::block::lemma_pad_zero(BLOCK_HEADER_SIZE as int, SEQUENCE_ALIGN as int);
        }
        match md.upload_auto_drop(mem, SEQUENCE_BYTE_SIZE, SEQUENCE_ALIGN) {
            Result::Ok(addr) => {
                md.inc_weak();
                let mut seqs: Vec<PartialSequence> = Vec::new();
                seqs.push(PartialSequence::empty());
                Ok(List { len: 0, seqs, values: Vec::new() })
            },
            Result::Err(e) => {
                proof {
                    // The slot block always fits a fresh block of a
                    // well-formed arena.
                    assert(false);
                }
                Err(e)
            },
        }
    }

    /// Number of items appended; kept in the handle, so it stays readable
    /// after the arena dies.
    pub fn len(&self) -> (r: u32)
        ensures
            r == self.len,
    {
        self.len
    }

    /// Appends a new item if the arena is alive: the item is placed with a
    /// registered destructor and its address stored in the tail slot
    /// block, linking a fresh block first when the tail is full.
    pub fn push(&mut self, md: &mut ArenaMetadata, mem: &mut Memory, item: T) -> (r: Result<
        (),
        UploadError,
    >)
        requires
            old(md).wf(),
            old(self).wf(),
            old(self).len < u32::MAX,
            old(md).is_alive() ==> !old(md).drained && old(md).last_block is Some,
            old(mem).wf(),
            old(mem).can_take_n(4),
            old(md).compatible_with(old(mem)),
            old(md).bases_below(old(mem).spec_next_base() as int),
            vstd::layout::align_of::<T>() <= MAX_SUPPORTED_ALIGN,
        ensures
            final(self).wf(),
            final(md).wf(),
            final(mem).wf(),
            final(mem).same_config(old(mem)),
            final(md).compatible_with(final(mem)),
            final(md).bases_below(final(mem).spec_next_base() as int),
            final(md).strong_rc == old(md).strong_rc,
            final(md).rc == old(md).rc,
            final(md).drained == old(md).drained,
            final(md).drop_log == old(md).drop_log,
            ArenaMetadata::registries_unchanged(*old(md), *final(md)),
            !old(md).is_alive() ==> r == Result::<(), UploadError>::Err(
                UploadError::ArenaIsNotAlive,
            ) && *final(self) == *old(self) && *final(md) == *old(md) && *final(mem) == *old(
                mem,
            ),
            old(md).is_alive() ==> final(md).last_block is Some,
            match r {
                Result::Ok(u) => {
                    &&& final(self).values@ == old(self).values@.push(item)
                    &&& final(self).len == old(self).len + 1
                    &&& final(self).seqs@.len() as int == old(self).seqs@.len() + (
                    if old(self).seqs@.last().used_items == MAX_ITEMS {
                        1int
                    } else {
                        0int
                    })
                    &&& final(md).all_items().len() as int == old(md).all_items().len() + (
                    if old(self).seqs@.last().used_items == MAX_ITEMS {
                        2int
                    } else {
                        1int
                    })
                    &&& final(md).all_items().last().fun == DropFn::Value
                },
                Result::Err(e) => {
                    &&& final(self).values@ == old(self).values@
                    &&& final(self).len == old(self).len
                    &&& (old(md).is_alive() ==> e == UploadError::ItemDoesNotFit)
                },
            },
            old(md).is_alive() && old(self).seqs@.last().used_items < MAX_ITEMS ==> (r is Ok
                <==> old(md).can_place(
                vstd::layout::size_of::<T>() as int,
                vstd::layout::align_of::<T>() as int,
            )),
            old(md).is_alive() && old(md).fits_in_fresh_block(
                vstd::layout::size_of::<T>() as int,
                vstd::layout::align_of::<T>() as int,
            ) ==> r is Ok,
    {
        if md.strong_rc <= 0 {
            return Err(UploadError::ArenaIsNotAlive);
        }
        let mut last: PartialSequence;
        match self.seqs.pop() {
            Option::Some(l) => {
                last = l;
            },
            Option::None => {
                proof {
                    assert(false);
                }
                last = PartialSequence::empty();
            },
        }
        if last.used_items >= MAX_ITEMS as u16 {
            // The tail block is full: place a fresh one, registered like
            // any other item, and link it as the new tail.
            match md.upload_auto_drop(mem, SEQUENCE_BYTE_SIZE, SEQUENCE_ALIGN) {
                Result::Ok(addr) => {
                    self.seqs.push(last);
                    last = PartialSequence::empty();
                },
                Result::Err(e) => {
                    self.seqs.push(last);
                    proof {
                        assert(self.seqs@ =~= old(self).seqs@);
                    }
                    return Err(e);
                },
            }
        }
        let size = core::mem::size_of::<T>();
        let align = core::mem::align_of::<T>();
        vstd::layout::layout_for_type_is_valid::<T>();
        match md.upload_auto_drop(mem, size, align) {
            Result::Ok(addr) => {
                last.take_empty_slot(addr);
                self.seqs.push(last);
                self.values.push(item);
                self.len = self.len + 1;
                Ok(())
            },
            Result::Err(e) => {
                self.seqs.push(last);
                Err(e)
            },
        }
    }

    /// Iterates over the items, yielding none if the arena is dead.
    pub fn empty_if_dead_iter<'a>(&'a self, md: &ArenaMetadata) -> (r: EmptyIfDeadIter<'a, T>)
        ensures
            r.items == &self.values,
            r.index == 0,
            r.is_alive == md.is_alive(),
            md.is_alive() ==> r.remaining() == self.values@,
            !md.is_alive() ==> r.remaining().len() == 0,
    {
        let r = EmptyIfDeadIter { is_alive: md.strong_rc > 0, items: &self.values, index: 0 };
        proof {
            if md.is_alive() {
                assert(r.remaining() =~= self.values@);
            }
        }
        r
    }

    /// Iterates over the items if the arena is alive.
    pub fn iter<'a>(&'a self, md: &ArenaMetadata) -> (r: Option<EmptyIfDeadIter<'a, T>>)
        ensures
            r is Some <==> md.is_alive(),
            match r {
                Option::Some(it) => it.items == &self.values && it.index == 0 && it.is_alive
                    && it.remaining() == self.values@,
                Option::None => true,
            },
    {
        if md.strong_rc > 0 {
            let it = EmptyIfDeadIter { is_alive: true, items: &self.values, index: 0 };
            proof {
                assert(it.remaining() =~= self.values@);
            }
            Some(it)
        } else {
            None
        }
    }

    /// The item at `i`, while the arena is alive.
    pub fn get<'a>(&'a self, md: &ArenaMetadata, i: usize) -> (r: Option<&'a T>)
        ensures
            r is Some <==> (md.is_alive() && i < self.values@.len()),
            match r {
                Option::Some(v) => *v == self.values@[i as int],
                Option::None => true,
            },
    {
        if md.strong_rc > 0 && i < self.values.len() {
            Some(&self.values[i])
        } else {
            None
        }
    }


    /// A mutable reference to the item at `i`, while the arena is alive.
    pub fn get_mut<'a>(&'a mut self, md: &ArenaMetadata, i: usize) -> (r: Option<&'a mut T>)
        ensures
            r is Some <==> (md.is_alive() && i < old(self).values@.len()),
            final(self).len == old(self).len,
            final(self).seqs == old(self).seqs,
            match r {
                Option::Some(v) => {
                    &&& *v == old(self).values@[i as int]
                    &&& final(self).values@ == old(self).values@.update(i as int, *final(v))
                },
                Option::None => *final(self) == *old(self),
            },
    {
        if md.strong_rc > 0 && i < self.values.len() {
            let values = &mut self.values;
            proof {
                assert(old(self).values@.update(i as int, old(self).values@[i as int])
                    =~= old(self).values@);
            }
            Some(&mut values[i])
        } else {
            None
        }
    }

    /// Builds a list by appending every given item in order.
    pub fn from_iter(arena: &Arena, md: &mut ArenaMetadata, mem: &mut Memory, items: Vec<T>) -> (r:
        Result<List<T>, UploadError>)
        requires
            old(md).wf(),
            old(md).is_alive(),
            !old(md).drained,
            old(md).last_block is Some,
            old(mem).wf(),
            old(mem).shared.min_free_blocks_before_allocating_new >= 1,
            old(mem).shared.max_free_blocks_to_initialize_or_cleanup_to >= 1,
            old(mem).can_take_n(2),
            old(md).compatible_with(old(mem)),
            old(md).bases_below(old(mem).spec_next_base() as int),
            old(md).rc < i64::MAX,
            items@.len() < u32::MAX,
            vstd::layout::align_of::<T>() <= MAX_SUPPORTED_ALIGN,
        ensures
            final(md).wf(),
            final(mem).wf(),
            final(mem).same_config(old(mem)),
            final(md).compatible_with(final(mem)),
            final(md).bases_below(final(mem).spec_next_base() as int),
            final(md).strong_rc == old(md).strong_rc,
            final(md).drained == old(md).drained,
            final(md).drop_log == old(md).drop_log,
            match r {
                Result::Ok(l) => {
                    &&& l.wf()
                    &&& l.values@ == items@
                    &&& l.len == items@.len()
                },
                Result::Err(e) => {
                    &&& e == UploadError::ItemDoesNotFit
                    &&& (!old(md).fits_in_fresh_block(
                        vstd::layout::size_of::<T>() as int,
                        vstd::layout::align_of::<T>() as int,
                    ) || 8 * final(mem).spec_stride() > usize::MAX
                        || final(mem).spec_next_base() + 4 * final(mem).spec_stride()
                        > usize::MAX)
                },
            },
    {
        let mut l = match List::<T>::new(arena, md, mem) {
            Result::Ok(l) => l,
            Result::Err(e) => {
                proof {
                    assert(false);
                }
                return Err(e);
            },
        };
        let n = items.len();
        let mut items = items;
        let mut i: usize = 0;
        let ghost items0 = items@;
        while i < n
            invariant
                i <= n,
                n == items0.len(),
                n < u32::MAX,
                items@ == items0.subrange(i as int, n as int),
                md.wf(),
                md.is_alive(),
                !md.drained,
                md.last_block is Some,
                mem.wf(),
                mem.same_config(old(mem)),
                mem.shared.min_free_blocks_before_allocating_new >= 1,
                mem.shared.max_free_blocks_to_initialize_or_cleanup_to >= 1,
                md.compatible_with(mem),
                md.bases_below(mem.spec_next_base() as int),
                md.strong_rc == old(md).strong_rc,
                md.drained == old(md).drained,
                md.drop_log == old(md).drop_log,
                md.block_size == old(md).block_size,
                l.wf(),
                l.values@ == items0.subrange(0, i as int),
                l.len == i,
                vstd::layout::align_of::<T>() <= MAX_SUPPORTED_ALIGN,
            decreases n - i,
        {
            let stride = mem.shared.stride;
            if stride > usize::MAX / 8 {
                proof {
                    assert(8 * stride as int > usize::MAX) by (nonlinear_arith)
                        requires
                            stride > usize::MAX / 8,
                    ;
                }
                return Err(UploadError::ItemDoesNotFit);
            }
            if mem.shared.next_base > usize::MAX - 4 * stride {
                return Err(UploadError::ItemDoesNotFit);
            }
            let item = items.remove(0);
            match l.push(md, mem, item) {
                Result::Ok(u) => {},
                Result::Err(e) => {
                    return Err(e);
                },
            }
            i = i + 1;
            proof {
                assert(l.values@ =~= items0.subrange(0, i as int));
                assert(items@ =~= items0.subrange(i as int, n as int));
            }
        }
        proof {
            assert(l.values@ =~= items0);
        }
        Ok(l)
    }
}

} // verus!
