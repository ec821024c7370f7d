//! A wrapped cell: one value stored in arena memory, with an explicit
//! outlives chain that runs selected destructors before its own.

use vstd::prelude::*;
use crate::memory::Memory;
use crate::block::MAX_SUPPORTED_ALIGN;
use crate::arena::{Arena, ArenaMetadata, UploadError};
use crate::droplist::{DropItem, DropFn};

verus! {

/// Arena footprint in bytes of a cell wrapping a value of `size` bytes:
/// the value padded to the link alignment, plus the outlives head link.
pub open spec fn spec_cell_size(size: int) -> int {
    (size + 7) / 8 * 8 + 8
}

/// Alignment of a cell wrapping a value of alignment `align`: at least the
/// link alignment.
pub open spec fn spec_cell_align(align: int) -> int {
    if align < 8 {
        8
    } else {
        align
    }
}

/// A wrapper of a value that is stored in arena memory.
///
/// The handle keeps the value beside the cell index and address that the
/// arena records for it; the arena decides when the value counts as
/// destroyed and in which order, through the cell's registered thunk and
/// its outlives chain.
pub struct N<T> {
    /// Index of this wrapper's cell record in the arena.
    pub cell: usize,
    /// Address of the wrapped value in the arena.
    pub addr: usize,
    /// The wrapped value.
    pub value: T,
}

impl<T> N<T> {
    /// The handle matches a cell record of the arena.
    pub open spec fn wf(&self, md: &ArenaMetadata) -> bool {
        &&& self.cell < md.cells@.len()
        &&& md.cells@[self.cell as int].addr == self.addr
    }

    /// Stores the value in the arena and returns a handle to it; the
    /// value's destructor thunk goes on the arena drop list.
    pub fn new(arena: &Arena, md: &mut ArenaMetadata, mem: &mut Memory, value: T) -> (r: Result<
        N<T>,
        UploadError,
    >)
        requires
            old(md).wf(),
            old(md).is_alive(),
            !old(md).drained,
            old(md).last_block is Some,
            old(mem).wf(),
            old(mem).can_take_n(2),
            old(md).compatible_with(old(mem)),
            old(md).bases_below(old(mem).spec_next_base() as int),
            old(md).rc < i64::MAX,
            vstd::layout::align_of::<T>() <= MAX_SUPPORTED_ALIGN,
        ensures
            ArenaMetadata::arena_preserved(*old(md), *final(md), *old(mem), *final(mem), 2),
            final(md).fixed_arrays == old(md).fixed_arrays,
            final(md).growable_arrays == old(md).growable_arrays,
            match r {
                Result::Ok(n) => {
                    &&& n.value == value
                    &&& n.wf(final(md))
                    &&& n.cell == old(md).cells@.len()
                    &&& final(md).cells@.len() == old(md).cells@.len() + 1
                    &&& forall|i: int|
                        0 <= i < old(md).cells@.len() ==> final(md).cells@[i] == old(
                            md,
                        ).cells@[i]
                    &&& final(md).cells@[n.cell as int].outlives@.len() == 0
                    &&& final(md).cells@[n.cell as int].registered
                    &&& final(md).all_items() == old(md).all_items().push(
                        DropItem { fun: DropFn::Cell(n.cell), data: n.addr },
                    )
                    &&& final(md).rc == old(md).rc + 1
                    &&& final(md).strong_rc == old(md).strong_rc
                },
                Result::Err(e) => {
                    &&& e == UploadError::ItemDoesNotFit
                    &&& final(md).all_items() == old(md).all_items()
                    &&& final(md).cells@ == old(md).cells@
                    &&& final(md).rc == old(md).rc
                    &&& final(md).strong_rc == old(md).strong_rc
                },
            },
            r is Ok <==> old(md).can_place(
                spec_cell_size(vstd::layout::size_of::<T>() as int),
                spec_cell_align(vstd::layout::align_of::<T>() as int),
            ),
    {
        let size = core::mem::size_of::<T>();
        let align = core::mem::align_of::<T>();
        vstd::layout::layout_for_type_is_valid::<T>();
        let cell_align = if align < 8 {
            8
        } else {
            align
        };
        let cell_size = (size + 7) / 8 * 8 + 8;
        proof {
            assert((size + 7) as int / 8 * 8 <= size + 7) by (nonlinear_arith);
        }
        match md.upload_cell_auto_drop(mem, cell_size, cell_align) {
            Result::Ok((addr, ci)) => {
                md.inc_weak();
                Ok(N { cell: ci, addr, value })
            },
            Result::Err(e) => Err(e),
        }
    }

    /// Returns a reference to the value if the arena is alive.
    pub fn val<'a>(&'a self, md: &ArenaMetadata) -> (r: Option<&'a T>)
        ensures
            r is Some <==> md.is_alive(),
            match r {
                Option::Some(v) => *v == self.value,
                Option::None => true,
            },
    {
        if md.strong_rc > 0 {
            Some(&self.value)
        } else {
            None
        }
    }

    /// Returns a mutable reference to the value if the arena is alive.
    pub fn var<'a>(&'a mut self, md: &ArenaMetadata) -> (r: Option<&'a mut T>)
        ensures
            r is Some <==> md.is_alive(),
            match r {
                Option::Some(v) => *v == old(self).value && *final(self) == (N {
                    value: *final(v),
                    ..*old(self)
                }),
                Option::None => *final(self) == *old(self),
            },
    {
        if md.strong_rc > 0 {
            Some(&mut self.value)
        } else {
            None
        }
    }

    /// Returns an upgraded strong handle and a reference to the value; the
    /// arena must be alive.
    pub fn expect<'a>(&'a self, md: &mut ArenaMetadata) -> (r: (Arena, &'a T))
        requires
            old(md).is_alive(),
            old(md).strong_rc < i64::MAX,
            old(md).rc < i64::MAX,
        ensures
            *r.1 == self.value,
            *final(md) == (ArenaMetadata {
                strong_rc: (old(md).strong_rc + 1) as i64,
                rc: (old(md).rc + 1) as i64,
                ..*old(md)
            }),
    {
        md.inc_rc();
        (Arena {  }, &self.value)
    }

    /// Returns an upgraded strong handle and a mutable reference to the
    /// value; the arena must be alive.
    pub fn expect_mut<'a>(&'a mut self, md: &mut ArenaMetadata) -> (r: (Arena, &'a mut T))
        requires
            old(md).is_alive(),
            old(md).strong_rc < i64::MAX,
            old(md).rc < i64::MAX,
        ensures
            *r.1 == old(self).value,
            *final(self) == (N { value: *final(r.1), ..*old(self) }),
            *final(md) == (ArenaMetadata {
                strong_rc: (old(md).strong_rc + 1) as i64,
                rc: (old(md).rc + 1) as i64,
                ..*old(md)
            }),
    {
        md.inc_rc();
        (Arena {  }, &mut self.value)
    }

    /// Puts another value into the same arena and ensures that it is
    /// destroyed before this cell's own value: this cell outlives it. The
    /// new value carries no thunk of its own; it is reached only through
    /// this cell's outlives chain, newest entry first.
    pub fn outlives<O>(&self, md: &mut ArenaMetadata, mem: &mut Memory, value: O) -> (r: Result<
        N<O>,
        UploadError,
    >)
        requires
            old(md).wf(),
            self.wf(old(md)),
            old(md).last_block is Some,
            old(mem).wf(),
            old(mem).can_take_n(1),
            old(md).compatible_with(old(mem)),
            old(md).bases_below(old(mem).spec_next_base() as int),
            old(md).rc < i64::MAX,
            vstd::layout::align_of::<O>() <= MAX_SUPPORTED_ALIGN,
        ensures
            final(md).wf(),
            final(md).all_items() == old(md).all_items(),
            final(md).drop_log == old(md).drop_log,
            final(md).strong_rc == old(md).strong_rc,
            !old(md).is_alive() ==> r == Result::<N<O>, UploadError>::Err(
                UploadError::ArenaIsNotAlive,
            ) && *final(md) == *old(md) && *final(mem) == *old(mem),
            match r {
                Result::Ok(n) => {
                    &&& old(md).is_alive()
                    &&& n.value == value
                    &&& n.wf(final(md))
                    &&& n.cell == old(md).cells@.len()
                    &&& self.cell < n.cell
                    &&& final(md).cells@.len() == old(md).cells@.len() + 1
                    &&& !final(md).cells@[n.cell as int].registered
                    &&& final(md).cells@[n.cell as int].outlives@.len() == 0
                    &&& final(md).cells@[self.cell as int].outlives@ == old(md).cells@[
                        self.cell as int
                    ].outlives@.push(n.cell)
                    &&& forall|i: int|
                        0 <= i < old(md).cells@.len() && i != self.cell
                            ==> final(md).cells@[i] == old(md).cells@[i]
                    &&& final(md).rc == old(md).rc + 1
                },
                Result::Err(e) => {
                    &&& (e == UploadError::ItemDoesNotFit || e == UploadError::ArenaIsNotAlive)
                    &&& final(md).cells@ == old(md).cells@
                    &&& final(md).rc == old(md).rc
                },
            },
            r == Result::<N<O>, UploadError>::Err(UploadError::ArenaIsNotAlive) <==> !old(
                md,
            ).is_alive(),
            old(md).is_alive() ==> (r is Ok <==> old(md).can_place(
                spec_cell_size(vstd::layout::size_of::<O>() as int),
                spec_cell_align(vstd::layout::align_of::<O>() as int),
            )),
    {
        if md.strong_rc <= 0 {
            return Err(UploadError::ArenaIsNotAlive);
        }
        let size = core::mem::size_of::<O>();
        let align = core::mem::align_of::<O>();
        vstd::layout::layout_for_type_is_valid::<O>();
        let cell_align = if align < 8 {
            8
        } else {
            align
        };
        let cell_size = (size + 7) / 8 * 8 + 8;
        proof {
            assert((size + 7) as int / 8 * 8 <= size + 7) by (nonlinear_arith);
        }
        match md.upload_cell_no_drop(mem, cell_size, cell_align) {
            Result::Ok((addr, ci)) => {
                md.link_outlives(self.cell, ci);
                md.inc_weak();
                Ok(N { cell: ci, addr, value })
            },
            Result::Err(e) => Err(e),
        }
    }

    /// Drop this handle's weak reference to the arena; when the total
    /// count reaches zero the blocks go back to the pool. The wrapped
    /// value comes back to the caller.
    pub fn release(self, md: &mut ArenaMetadata, mem: &mut Memory) -> (r: T)
        requires
            old(md).wf(),
            old(md).rc >= 1,
            old(md).rc >= old(md).strong_rc + 1,
            old(mem).wf(),
            old(md).compatible_with(old(mem)),
        ensures
            r == self.value,
            final(md).wf(),
            final(md).rc == old(md).rc - 1,
            final(md).strong_rc == old(md).strong_rc,
            final(md).block_size == old(md).block_size,
            final(md).stride == old(md).stride,
            final(md).drop_log == old(md).drop_log,
            final(md).drained == old(md).drained,
            final(mem).wf(),
            final(mem).same_config(old(mem)),
            final(md).compatible_with(final(mem)) == old(md).compatible_with(old(mem)),
            if old(md).rc == 1 {
                final(md).last_block is None && final(mem).spec_free_count() == old(
                    mem,
                ).spec_free_count() + old(md).block_count()
            } else {
                final(md).last_block == old(md).last_block && *final(mem) == *old(mem)
            },
    {
        md.dec_weak();
        if md.rc == 0 {
            md.reclaim_memory(mem);
        }
        self.value
    }
}

} // verus!
