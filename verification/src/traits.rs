//! Collect adapters: because creating a `List`, `Array` or `FixedArray`
//! requires naming the arena, the standard collect cannot be used; these
//! traits collect a sequence of owned values into the arena collections.

use vstd::prelude::*;
use crate::memory::Memory;
use crate::block::MAX_SUPPORTED_ALIGN;
use crate::arena::{Arena, ArenaMetadata, UploadError};
use crate::list::List;
use crate::array::Array;
use crate::array_fixed::FixedArray;

verus! {

/// Implements collect into arena-allocated collections.
pub trait MemurIterator: Sized {
    type Item;

    /// The items this value yields, in order.
    spec fn spec_items(&self) -> Seq<Self::Item>;

    /// Collect the items into an append-only arena list.
    fn collect_list(self, arena: &Arena, md: &mut ArenaMetadata, mem: &mut Memory) -> (r: Result<
        List<Self::Item>,
        UploadError,
    >)
        requires
            old(md).wf(),
            old(md).is_alive(),
            !old(md).drained,
            old(md).last_block is Some,
            old(mem).wf(),
            old(mem).shared.min_free_blocks_before_allocating_new >= 1,
            old(mem).shared.max_free_blocks_to_initialize_or_cleanup_to >= 1,
            old(mem).can_take_n(2),
            old(md).compatible_with(old(mem)),
            old(md).bases_below(old(mem).spec_next_base() as int),
            old(md).rc < i64::MAX,
            self.spec_items().len() < u32::MAX,
            vstd::layout::align_of::<Self::Item>() <= MAX_SUPPORTED_ALIGN,
        ensures
            final(md).wf(),
            final(mem).wf(),
            final(mem).same_config(old(mem)),
            final(md).compatible_with(final(mem)),
            final(md).bases_below(final(mem).spec_next_base() as int),
            final(md).strong_rc == old(md).strong_rc,
            match r {
                Result::Ok(l) => l.wf() && l.values@ == self.spec_items(),
                Result::Err(e) => {
                    &&& e == UploadError::ItemDoesNotFit
                    &&& (!old(md).fits_in_fresh_block(
                        vstd::layout::size_of::<Self::Item>() as int,
                        vstd::layout::align_of::<Self::Item>() as int,
                    ) || 8 * final(mem).spec_stride() > usize::MAX
                        || final(mem).spec_next_base() + 4 * final(mem).spec_stride()
                        > usize::MAX)
                },
            },
    ;

    /// Collect the items into a fixed arena array.
    fn collect_fixed_array(self, arena: &Arena, md: &mut ArenaMetadata, mem: &mut Memory) -> (r:
        Result<FixedArray<Self::Item>, UploadError>)
        requires
            old(md).wf(),
            old(md).is_alive(),
            !old(md).drained,
            old(md).last_block is Some,
            old(mem).wf(),
            old(mem).can_take_n(3),
            old(md).compatible_with(old(mem)),
            old(md).bases_below(old(mem).spec_next_base() as int),
            old(md).rc < i64::MAX,
            vstd::layout::align_of::<Self::Item>() <= MAX_SUPPORTED_ALIGN,
        ensures
            final(md).wf(),
            final(mem).wf(),
            final(mem).same_config(old(mem)),
            final(md).compatible_with(final(mem)),
            final(md).bases_below(final(mem).spec_next_base() as int),
            final(md).strong_rc == old(md).strong_rc,
            match r {
                Result::Ok(fa) => fa.wf(final(md)) && fa.values@ == self.spec_items(),
                Result::Err(e) => {
                    &&& e == UploadError::ItemDoesNotFit
                    &&& (self.spec_items().len() * vstd::layout::size_of::<Self::Item>()
                        > usize::MAX || !old(md).fits_in_fresh_block(
                        (self.spec_items().len() * vstd::layout::size_of::<Self::Item>()) as int,
                        vstd::layout::align_of::<Self::Item>() as int,
                    ))
                },
            },
            self.spec_items().len() * vstd::layout::size_of::<Self::Item>() <= usize::MAX && old(
                md,
            ).fits_in_fresh_block(
                (self.spec_items().len() * vstd::layout::size_of::<Self::Item>()) as int,
                vstd::layout::align_of::<Self::Item>() as int,
            ) ==> r is Ok,
    ;

    /// Collect the items into a growable arena array.
    fn collect_array(self, arena: &Arena, md: &mut ArenaMetadata, mem: &mut Memory) -> (r: Result<
        Array<Self::Item>,
        UploadError,
    >)
        requires
            old(md).wf(),
            old(md).is_alive(),
            !old(md).drained,
            old(md).last_block is Some,
            old(mem).wf(),
            old(mem).shared.min_free_blocks_before_allocating_new >= 1,
            old(mem).shared.max_free_blocks_to_initialize_or_cleanup_to >= 1,
            old(mem).can_take_n(3),
            old(md).compatible_with(old(mem)),
            old(md).bases_below(old(mem).spec_next_base() as int),
            old(md).rc < i64::MAX,
            vstd::layout::align_of::<Self::Item>() <= MAX_SUPPORTED_ALIGN,
        ensures
            final(md).wf(),
            final(mem).wf(),
            final(mem).same_config(old(mem)),
            final(md).compatible_with(final(mem)),
            final(md).bases_below(final(mem).spec_next_base() as int),
            final(md).strong_rc == old(md).strong_rc,
            match r {
                Result::Ok(arr) => arr.wf(final(md)) && arr.values@ == self.spec_items(),
                Result::Err(e) => ({
                    let cap0: int = if self.spec_items().len() < 4 {
                        4int
                    } else {
                        self.spec_items().len() as int
                    };
                    &&& e == UploadError::ItemDoesNotFit
                    &&& (cap0 * 8 > usize::MAX || !old(md).fits_in_fresh_block(
                        cap0 * 8,
                        8,
                    ) || !old(md).fits_in_fresh_block(
                        vstd::layout::size_of::<Self::Item>() as int,
                        vstd::layout::align_of::<Self::Item>() as int,
                    ) || final(mem).spec_next_base() + 2 * final(mem).spec_stride()
                        > usize::MAX)
                }),
            },
    ;
}

impl<T> MemurIterator for Vec<T> {
    type Item = T;

    open spec fn spec_items(&self) -> Seq<T> {
        self@
    }

    fn collect_list(self, arena: &Arena, md: &mut ArenaMetadata, mem: &mut Memory) -> Result<
        List<T>,
        UploadError,
    > {
        List::from_iter(arena, md, mem, self)
    }

    fn collect_fixed_array(self, arena: &Arena, md: &mut ArenaMetadata, mem: &mut Memory)
        -> Result<FixedArray<T>, UploadError> {
        FixedArray::new(arena, md, mem, self)
    }

    fn collect_array(self, arena: &Arena, md: &mut ArenaMetadata, mem: &mut Memory) -> Result<
        Array<T>,
        UploadError,
    > {
        Array::from_iter(arena, md, mem, self)
    }
}

/// Converts an owned standard collection into an arena fixed array.
pub trait ToArenaFixedArray<T>: Sized {
    /// The items to move into the array, in order.
    spec fn spec_items(&self) -> Seq<T>;

    fn to_arena_fixed_array(self, arena: &Arena, md: &mut ArenaMetadata, mem: &mut Memory) -> (r:
        Result<FixedArray<T>, UploadError>)
        requires
            old(md).wf(),
            old(md).is_alive(),
            !old(md).drained,
            old(md).last_block is Some,
            old(mem).wf(),
            old(mem).can_take_n(3),
            old(md).compatible_with(old(mem)),
            old(md).bases_below(old(mem).spec_next_base() as int),
            old(md).rc < i64::MAX,
            vstd::layout::align_of::<T>() <= MAX_SUPPORTED_ALIGN,
        ensures
            final(md).wf(),
            final(mem).wf(),
            final(mem).same_config(old(mem)),
            final(md).compatible_with(final(mem)),
            final(md).bases_below(final(mem).spec_next_base() as int),
            match r {
                Result::Ok(fa) => fa.wf(final(md)) && fa.values@ == self.spec_items(),
                Result::Err(e) => {
                    &&& e == UploadError::ItemDoesNotFit
                    &&& (self.spec_items().len() * vstd::layout::size_of::<T>()
                        > usize::MAX || !old(md).fits_in_fresh_block(
                        (self.spec_items().len() * vstd::layout::size_of::<T>()) as int,
                        vstd::layout::align_of::<T>() as int,
                    ))
                },
            },
            self.spec_items().len() * vstd::layout::size_of::<T>() <= usize::MAX && old(
                md,
            ).fits_in_fresh_block(
                (self.spec_items().len() * vstd::layout::size_of::<T>()) as int,
                vstd::layout::align_of::<T>() as int,
            ) ==> r is Ok,
    ;
}

impl<T> ToArenaFixedArray<T> for Vec<T> {
    open spec fn spec_items(&self) -> Seq<T> {
        self@
    }

    fn to_arena_fixed_array(self, arena: &Arena, md: &mut ArenaMetadata, mem: &mut Memory)
        -> Result<FixedArray<T>, UploadError> {
        FixedArray::new(arena, md, mem, self)
    }
}

/// Converts an owned standard collection into a growable arena array.
pub trait ToArenaArray<T>: Sized {
    /// The items to move into the array, in order.
    spec fn spec_items(&self) -> Seq<T>;

    fn to_arena_array(self, arena: &Arena, md: &mut ArenaMetadata, mem: &mut Memory) -> (r: Result<
        Array<T>,
        UploadError,
    >)
        requires
            old(md).wf(),
            old(md).is_alive(),
            !old(md).drained,
            old(md).last_block is Some,
            old(mem).wf(),
            old(mem).shared.min_free_blocks_before_allocating_new >= 1,
            old(mem).shared.max_free_blocks_to_initialize_or_cleanup_to >= 1,
            old(mem).can_take_n(3),
            old(md).compatible_with(old(mem)),
            old(md).bases_below(old(mem).spec_next_base() as int),
            old(md).rc < i64::MAX,
            vstd::layout::align_of::<T>() <= MAX_SUPPORTED_ALIGN,
        ensures
            final(md).wf(),
            final(mem).wf(),
            final(mem).same_config(old(mem)),
            final(md).compatible_with(final(mem)),
            final(md).bases_below(final(mem).spec_next_base() as int),
            match r {
                Result::Ok(arr) => arr.wf(final(md)) && arr.values@ == self.spec_items(),
                Result::Err(e) => ({
                    let cap0: int = if self.spec_items().len() < 4 {
                        4int
                    } else {
                        self.spec_items().len() as int
                    };
                    &&& e == UploadError::ItemDoesNotFit
                    &&& (cap0 * 8 > usize::MAX || !old(md).fits_in_fresh_block(
                        cap0 * 8,
                        8,
                    ) || !old(md).fits_in_fresh_block(
                        vstd::layout::size_of::<T>() as int,
                        vstd::layout::align_of::<T>() as int,
                    ) || final(mem).spec_next_base() + 2 * final(mem).spec_stride()
                        > usize::MAX)
                }),
            },
    ;
}

impl<T> ToArenaArray<T> for Vec<T> {
    open spec fn spec_items(&self) -> Seq<T> {
        self@
    }

    fn to_arena_array(self, arena: &Arena, md: &mut ArenaMetadata, mem: &mut Memory) -> Result<
        Array<T>,
        UploadError,
    > {
        Array::from_iter(arena, md, mem, self)
    }
}

/// Converts an owned standard collection into an arena list.
pub trait ToArenaList<T>: Sized {
    /// The items to move into the list, in order.
    spec fn spec_items(&self) -> Seq<T>;

    fn to_arena_list(self, arena: &Arena, md: &mut ArenaMetadata, mem: &mut Memory) -> (r: Result<
        List<T>,
        UploadError,
    >)
        requires
            old(md).wf(),
            old(md).is_alive(),
            !old(md).drained,
            old(md).last_block is Some,
            old(mem).wf(),
            old(mem).shared.min_free_blocks_before_allocating_new >= 1,
            old(mem).shared.max_free_blocks_to_initialize_or_cleanup_to >= 1,
            old(mem).can_take_n(2),
            old(md).compatible_with(old(mem)),
            old(md).bases_below(old(mem).spec_next_base() as int),
            old(md).rc < i64::MAX,
            self.spec_items().len() < u32::MAX,
            vstd::layout::align_of::<T>() <= MAX_SUPPORTED_ALIGN,
        ensures
            final(md).wf(),
            final(mem).wf(),
            final(mem).same_config(old(mem)),
            final(md).compatible_with(final(mem)),
            final(md).bases_below(final(mem).spec_next_base() as int),
            match r {
                Result::Ok(l) => l.wf() && l.values@ == self.spec_items(),
                Result::Err(e) => {
                    &&& e == UploadError::ItemDoesNotFit
                    &&& (!old(md).fits_in_fresh_block(
                        vstd::layout::size_of::<T>() as int,
                        vstd::layout::align_of::<T>() as int,
                    ) || 8 * final(mem).spec_stride() > usize::MAX
                        || final(mem).spec_next_base() + 4 * final(mem).spec_stride()
                        > usize::MAX)
                },
            },
    ;
}

impl<T> ToArenaList<T> for Vec<T> {
    open spec fn spec_items(&self) -> Seq<T> {
        self@
    }

    fn to_arena_list(self, arena: &Arena, md: &mut ArenaMetadata, mem: &mut Memory) -> Result<
        List<T>,
        UploadError,
    > {
        List::from_iter(arena, md, mem, self)
    }
}

} // verus!
