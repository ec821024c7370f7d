//! The arena core: block chain, drop-list chain, bump placement with
//! alignment, destructor registration, the two reference counters, and the
//! drain and reclamation passes.
//!
//! [`ArenaMetadata`] is the arena state proper. [`Arena`] and [`WeakArena`]
//! are the strong and weak handles; every operation takes the metadata (and,
//! where blocks may be taken or returned, the pool) as an explicit argument,
//! and cloning or dropping a handle is an explicit reference-count call
//! (`inc_rc`, `release`, ...).
//!
//! Destruction is observable through `drop_log`: the drain appends the
//! address of every destroyed value in the exact order the destructor
//! thunks run.

use vstd::prelude::*;
use crate::memory::{Memory, BASE_ALIGN, MAX_BLOCK_SIZE};
use crate::block::{Block, PlacementError, BLOCK_HEADER_SIZE, MAX_SUPPORTED_ALIGN, spec_pad};
use crate::droplist::{DropList, DropItem, DropFn, MAX_DROP_LIST_ITEMS, DROP_LIST_BYTE_SIZE,
    DROP_LIST_ALIGN};
use vstd::arithmetic::power2::{is_pow2, is_pow2_equiv, is_pow2_exists, pow2, lemma_pow2,
    lemma2_to64, lemma_pow2_strictly_increases, lemma_pow2_adds};

verus! {

/// Arena footprint in bytes of the arena metadata record placed into the
/// first block at construction.
pub const ARENA_METADATA_BYTE_SIZE: usize = 64;

/// Alignment of the arena metadata record.
pub const ARENA_METADATA_ALIGN: usize = 8;

/// Error while trying to place data in an arena block.
#[derive(Debug, PartialEq, Eq, Structural, Clone, Copy)]
pub enum UploadError {
    /// The first drop-list node does not fit in a block: the block size is
    /// too small for an arena to be built at all.
    DropListDoesNotFit,
    /// The item, together with the padding its alignment forces, exceeds
    /// the free space of a fresh block.
    ItemDoesNotFit,
    /// The arena metadata record does not fit in the first block beside the
    /// first drop-list node.
    MetadataDoesNotFit,
    /// The arena was dropped: its strong count is zero and the destructor
    /// chain has run, so placements are no longer possible.
    ArenaIsNotAlive,
}

impl UploadError {
    /// A short description of the error, in place of a formatter-based
    /// rendering.
    pub fn description(&self) -> (r: String)
        ensures
            r@ == match self {
                UploadError::DropListDoesNotFit => "Drop list does not fit in a block"@,
                UploadError::ItemDoesNotFit => "Item is bigger than a block"@,
                UploadError::MetadataDoesNotFit => "Metadata does not fit in a first arena block"@,
                UploadError::ArenaIsNotAlive => "Arena is not alive"@,
            },
    {
        match self {
            UploadError::DropListDoesNotFit => "Drop list does not fit in a block".to_owned(),
            UploadError::ItemDoesNotFit => "Item is bigger than a block".to_owned(),
            UploadError::MetadataDoesNotFit => "Metadata does not fit in a first arena block"
                .to_owned(),
            UploadError::ArenaIsNotAlive => "Arena is not alive".to_owned(),
        }
    }
}

/// One wrapped cell: the address of its value and the cells that must be
/// destroyed before it (its outlives chain, executed newest-first).
pub struct CellRecord {
    /// Address of the wrapped value in the arena.
    pub addr: usize,
    /// Indices of the cells whose destructors run before this cell's own
    /// value; pushed in registration order, executed in reverse.
    pub outlives: Vec<usize>,
    /// Whether this cell's destructor is registered on the arena drop list
    /// (placed with a destructor) or only reachable through another cell's
    /// outlives chain (placed without one).
    pub registered: bool,
}

/// The metadata cell of a fixed array: where its elements sit and how many
/// of them the registered sweep destroys.
pub struct FixedArrayRecord {
    /// Address of the metadata cell in the arena.
    pub meta_addr: usize,
    /// Start of the contiguous element region.
    pub data_addr: usize,
    /// Number of initialized elements; the sweep destroys `[0, len)`.
    pub len: usize,
    /// Distance in bytes between consecutive elements.
    pub stride: usize,
}

/// The metadata cell of a growable array: the pointer table and the
/// addresses of the elements it still owns.
pub struct GrowableArrayRecord {
    /// Address of the metadata cell in the arena.
    pub meta_addr: usize,
    /// Capacity of the current pointer table.
    pub capacity: usize,
    /// Address of the current pointer table in the arena.
    pub table_addr: usize,
    /// Addresses of the owned elements, in index order; the sweep destroys
    /// exactly these.
    pub ptrs: Vec<usize>,
}

/// The outlives chains only ever point from a cell to cells recorded later,
/// so destruction recursion terminates.
pub open spec fn cells_wf(cells: Seq<CellRecord>) -> bool {
    forall|i: int, k: int|
        0 <= i < cells.len() && 0 <= k < cells[i].outlives@.len()
            ==> i < #[trigger] cells[i].outlives@[k] < cells.len()
}

/// One drop item refers only to records that exist.
pub open spec fn item_wf(
    it: DropItem,
    cells: Seq<CellRecord>,
    fixed: Seq<FixedArrayRecord>,
    growable: Seq<GrowableArrayRecord>,
) -> bool {
    match it.fun {
        DropFn::Value => true,
        DropFn::Cell(ci) => ci < cells.len(),
        DropFn::FixedArraySweep(ai) => ai < fixed.len(),
        DropFn::GrowableArraySweep(gi) => gi < growable.len(),
    }
}

/// Information about the arena kept while any handle is alive: the block
/// chain, the drop-list chain, the registries behind container destructor
/// thunks, the two reference counters and the observable drop log.
pub struct ArenaMetadata {
    /// Size of every block of this arena.
    pub block_size: usize,
    /// Base-address stride of the pool the blocks come from.
    pub stride: usize,
    /// The newest block; older blocks hang off it. `None` only after
    /// reclamation.
    pub last_block: Option<Block>,
    /// The drop-list nodes that are already full, oldest first.
    pub full_drop_lists: Vec<DropList>,
    /// The drop-list node new thunks go to.
    pub last_drop_list: DropList,
    /// True once the drop chain has been executed: the node chain is then
    /// unlinked and placements with destructors are over.
    pub drained: bool,
    /// Number of strong handles.
    pub strong_rc: i64,
    /// Number of strong plus weak handles.
    pub rc: i64,
    /// Wrapped-cell records, in placement order.
    pub cells: Vec<CellRecord>,
    /// Fixed-array records, in placement order.
    pub fixed_arrays: Vec<FixedArrayRecord>,
    /// Growable-array records, in placement order.
    pub growable_arrays: Vec<GrowableArrayRecord>,
    /// Addresses of destroyed values, in destruction order.
    pub drop_log: Vec<usize>,
}

impl ArenaMetadata {
    /// Destructor thunks have not run yet.
    pub open spec fn is_alive(&self) -> bool {
        self.strong_rc > 0
    }

    /// The drop-list chain, oldest node first.
    pub open spec fn lists_seq(&self) -> Seq<DropList> {
        self.full_drop_lists@.push(self.last_drop_list)
    }

    /// All registered destructor thunks, in registration order.
    pub open spec fn all_items(&self) -> Seq<DropItem> {
        items_of_lists(self.lists_seq(), self.lists_seq().len() as int)
    }

    /// The addresses that draining this arena now would destroy, in order:
    /// every registered thunk executed in registration order.
    pub open spec fn expected_drain(&self) -> Seq<usize> {
        items_drain(
            self.all_items(),
            self.cells@,
            self.fixed_arrays@,
            self.growable_arrays@,
            self.all_items().len() as int,
        )
    }

    /// First address past everything placed so far.
    pub open spec fn frontier(&self) -> int {
        match self.last_block {
            Option::Some(b) => b.base + b.next_item_offset,
            Option::None => 0,
        }
    }

    /// The span `[addr, addr + size)` was placed in this arena and its
    /// blocks still hold it.
    pub open spec fn span_placed(&self, addr: int, size: int) -> bool {
        match self.last_block {
            Option::Some(b) => b.chain_contains_span(addr, size),
            Option::None => false,
        }
    }

    /// The byte at absolute address `addr` in this arena's blocks.
    pub open spec fn byte_at(&self, addr: int) -> u8 {
        match self.last_block {
            Option::Some(b) => b.chain_byte(addr),
            Option::None => 0u8,
        }
    }

    /// The bytes of the span `[addr, addr + len)`.
    pub open spec fn bytes_at(&self, addr: int, len: int) -> Seq<u8> {
        Seq::new(
            if len >= 0 {
                len as nat
            } else {
                0
            },
            |i: int| self.byte_at(addr + i),
        )
    }

    /// The arena's blocks come from this pool.
    pub open spec fn compatible_with(&self, mem: &Memory) -> bool {
        &&& self.block_size == mem.spec_block_size()
        &&& self.stride == mem.spec_stride()
    }

    /// Every block base of this arena lies below `bound` by at least one
    /// stride, so freshly taken blocks sit above everything placed.
    pub open spec fn bases_below(&self, bound: int) -> bool {
        match self.last_block {
            Option::Some(b) => b.base + self.stride <= bound,
            Option::None => true,
        }
    }

    /// A placement of `size` bytes aligned to `align` fits when the cursor
    /// stands at `cursor`.
    pub open spec fn fits_at(&self, cursor: int, size: int, align: int) -> bool {
        cursor + spec_pad(cursor, align) + size <= self.block_size
    }

    /// The placement fits into a completely fresh block.
    pub open spec fn fits_in_fresh_block(&self, size: int, align: int) -> bool {
        self.fits_at(BLOCK_HEADER_SIZE as int, size, align)
    }

    /// The placement fits into the current last block without taking a new
    /// one.
    pub open spec fn fits_in_last_block(&self, size: int, align: int) -> bool {
        match self.last_block {
            Option::Some(b) => self.fits_at(b.next_item_offset as int, size, align),
            Option::None => false,
        }
    }

    /// The exact condition under which a placement succeeds.
    pub open spec fn can_place(&self, size: int, align: int) -> bool {
        self.fits_in_last_block(size, align) || self.fits_in_fresh_block(size, align)
    }

    pub open spec fn wf(&self) -> bool {
        &&& BLOCK_HEADER_SIZE + DROP_LIST_BYTE_SIZE + ARENA_METADATA_BYTE_SIZE <= self.block_size
            <= MAX_BLOCK_SIZE
        &&& self.block_size <= self.stride
        &&& self.stride as int % BASE_ALIGN as int == 0
        &&& BASE_ALIGN <= self.stride <= MAX_BLOCK_SIZE + BASE_ALIGN
        &&& match self.last_block {
            Option::Some(b) => {
                &&& b.chain_wf(self.block_size, self.stride)
                &&& b.base + self.stride <= usize::MAX
            },
            Option::None => true,
        }
        &&& self.strong_rc >= 0
        &&& self.rc >= self.strong_rc
        &&& self.last_drop_list.items@.len() <= MAX_DROP_LIST_ITEMS
        &&& forall|l: int|
            0 <= l < self.full_drop_lists@.len()
                ==> (#[trigger] self.full_drop_lists@[l]).items@.len() == MAX_DROP_LIST_ITEMS
        &&& forall|l: int, j: int|
            0 <= l < self.full_drop_lists@.len()
                && 0 <= j < self.full_drop_lists@[l].items@.len() ==> item_wf(
                #[trigger] self.full_drop_lists@[l].items@[j],
                self.cells@,
                self.fixed_arrays@,
                self.growable_arrays@,
            )
        &&& forall|j: int|
            0 <= j < self.last_drop_list.items@.len() ==> item_wf(
                #[trigger] self.last_drop_list.items@[j],
                self.cells@,
                self.fixed_arrays@,
                self.growable_arrays@,
            )
        &&& cells_wf(self.cells@)
        &&& forall|a: int|
            0 <= a < self.fixed_arrays@.len() ==> (#[trigger] self.fixed_arrays@[a]).data_addr
                + self.fixed_arrays@[a].len * self.fixed_arrays@[a].stride <= usize::MAX
        &&& (self.drained ==> self.full_drop_lists@.len() == 0
            && self.last_drop_list.items@.len() == 0)
    }

    /// Everything a placement leaves alone: counters, registries, thunk
    /// records, the log, the configuration; plus growth of the block chain
    /// (old spans and their bytes survive) and the pool bookkeeping.
    pub open spec fn placement_common(
        pre: ArenaMetadata,
        post: ArenaMetadata,
        mem_pre: Memory,
        mem_post: Memory,
        takes: int,
    ) -> bool {
        &&& ArenaMetadata::arena_preserved(pre, post, mem_pre, mem_post, takes)
        &&& post.strong_rc == pre.strong_rc
        &&& post.rc == pre.rc
    }

    /// What every placement preserves apart from the counters.
    pub open spec fn arena_preserved(
        pre: ArenaMetadata,
        post: ArenaMetadata,
        mem_pre: Memory,
        mem_post: Memory,
        takes: int,
    ) -> bool {
        &&& post.wf()
        &&& mem_post.wf()
        &&& mem_post.same_config(&mem_pre)
        &&& post.compatible_with(&mem_post)
        &&& post.bases_below(mem_post.spec_next_base() as int)
        &&& post.last_block is Some
        &&& post.block_size == pre.block_size
        &&& post.stride == pre.stride
        &&& post.drained == pre.drained
        &&& post.cells@.len() >= pre.cells@.len()
        &&& post.fixed_arrays@.len() >= pre.fixed_arrays@.len()
        &&& post.growable_arrays@.len() >= pre.growable_arrays@.len()
        &&& post.drop_log == pre.drop_log
        &&& forall|a: int, s: int| pre.span_placed(a, s) ==> post.span_placed(a, s)
        &&& forall|a: int| pre.span_placed(a, 1) ==> post.byte_at(a) == pre.byte_at(a)
        &&& pre.frontier() <= post.frontier()
        &&& forall|n: int| n >= takes && mem_pre.can_take_n(n) ==> mem_post.can_take_n(n - takes)
        &&& mem_post.spec_free_count() >= mem_pre.spec_free_count() - takes
    }

    /// The container registries are untouched.
    pub open spec fn registries_unchanged(pre: ArenaMetadata, post: ArenaMetadata) -> bool {
        &&& post.cells == pre.cells
        &&& post.fixed_arrays == pre.fixed_arrays
        &&& post.growable_arrays == pre.growable_arrays
    }

    /// Increment the strong and the total count: a strong handle was cloned
    /// or a weak handle upgraded.
    pub fn inc_rc(&mut self)
        requires
            old(self).strong_rc < i64::MAX,
            old(self).rc < i64::MAX,
        ensures
            *final(self) == (ArenaMetadata {
                strong_rc: (old(self).strong_rc + 1) as i64,
                rc: (old(self).rc + 1) as i64,
                ..*old(self)
            }),
    {
        self.strong_rc = self.strong_rc + 1;
        self.rc = self.rc + 1;
    }

    /// Decrement the strong and the total count: a strong handle was
    /// dropped.
    pub fn dec_rc(&mut self)
        requires
            old(self).strong_rc >= 1,
            old(self).rc >= 1,
        ensures
            *final(self) == (ArenaMetadata {
                strong_rc: (old(self).strong_rc - 1) as i64,
                rc: (old(self).rc - 1) as i64,
                ..*old(self)
            }),
    {
        self.strong_rc = self.strong_rc - 1;
        self.rc = self.rc - 1;
    }

    /// Increment the total count only: a weak handle was created or cloned.
    pub fn inc_weak(&mut self)
        requires
            old(self).rc < i64::MAX,
        ensures
            *final(self) == (ArenaMetadata { rc: (old(self).rc + 1) as i64, ..*old(self) }),
    {
        self.rc = self.rc + 1;
    }

    /// Decrement the total count only: a weak handle was dropped.
    pub fn dec_weak(&mut self)
        requires
            old(self).rc >= 1,
        ensures
            *final(self) == (ArenaMetadata { rc: (old(self).rc - 1) as i64, ..*old(self) }),
    {
        self.rc = self.rc - 1;
    }

    /// Place `size` bytes aligned to `align` without registering a
    /// destructor; on overflow a new block is taken from the pool and the
    /// placement retried there. Succeeds exactly when the item, with its
    /// padding, fits the current or a fresh block.
    pub fn upload_no_drop(&mut self, mem: &mut Memory, size: usize, align: usize) -> (r: Result<
        usize,
        UploadError,
    >)
        requires
            old(self).wf(),
            old(self).last_block is Some,
            1 <= align <= MAX_SUPPORTED_ALIGN,
            old(mem).wf(),
            old(mem).can_take_n(1),
            old(self).compatible_with(old(mem)),
            old(self).bases_below(old(mem).spec_next_base() as int),
        ensures
            ArenaMetadata::placement_common(*old(self), *final(self), *old(mem), *final(mem), 1),
            ArenaMetadata::registries_unchanged(*old(self), *final(self)),
            final(self).full_drop_lists == old(self).full_drop_lists,
            final(self).last_drop_list == old(self).last_drop_list,
            r is Ok <==> old(self).can_place(size as int, align as int),
            match r {
                Result::Ok(addr) => {
                    &&& final(self).span_placed(addr as int, size as int)
                    &&& (BASE_ALIGN as int % align as int == 0 ==> addr as int % align as int == 0)
                    &&& addr >= old(self).frontier()
                    &&& final(self).frontier() == addr + size
                    &&& (old(self).fits_in_last_block(size as int, align as int) ==> *final(mem)
                        == *old(mem))
                },
                Result::Err(e) => {
                    &&& e == UploadError::ItemDoesNotFit
                    &&& *final(self) == *old(self)
                    &&& *final(mem) == *old(mem)
                },
            },
    {
        let ghost pre = *self;
        let r1: Result<usize, PlacementError>;
        match &mut self.last_block {
            Option::Some(b) => {
                r1 = b.push_region(size, align);
            },
            Option::None => {
                proof {
                    assert(false);
                }
                r1 = Err(PlacementError::ItemTooBig);
            },
        }
        match r1 {
            Result::Ok(addr) => {
                proof {
                    lemma_placed_in_grown_block(pre, *self, addr as int, size as int);
                    lemma_base_alignment(*self, addr as int, align as int);
                    lemma_can_take_all_monotone(*mem);
                    assert(self.last_block->0.chain_wf(self.block_size, self.stride));
                }
                return Ok(addr);
            },
            Result::Err(_) => {},
        }
        // The current block is too full; decide whether a fresh block would
        // host the item at all before taking one.
        let pad_fresh = (align - BLOCK_HEADER_SIZE % align) % align;
        proof {
            assert(pad_fresh == spec_pad(BLOCK_HEADER_SIZE as int, align as int) && pad_fresh
                < align) by (nonlinear_arith)
                requires
                    pad_fresh == ((align - BLOCK_HEADER_SIZE as int % align as int) as int
                        % align as int),
                    align >= 1,
            ;
        }
        if size > self.block_size || BLOCK_HEADER_SIZE + pad_fresh > self.block_size - size {
            proof {
                lemma_can_take_all_monotone(*mem);
            }
            return Err(UploadError::ItemDoesNotFit);
        }
        let (buf, base) = mem.take_block();
        let fresh = Block::new(buf, base);
        let mut tmp: Option<Block> = Some(fresh);
        core::mem::swap(&mut self.last_block, &mut tmp);
        let prev: Block;
        match tmp {
            Option::Some(p) => {
                prev = p;
            },
            Option::None => {
                proof {
                    assert(false);
                }
                return Err(UploadError::ItemDoesNotFit);
            },
        }
        let ghost prev_g = prev;
        let r2: Result<usize, PlacementError>;
        match &mut self.last_block {
            Option::Some(b) => {
                b.set_previous_block(prev);
                r2 = b.push_region(size, align);
            },
            Option::None => {
                proof {
                    assert(false);
                }
                return Err(UploadError::ItemDoesNotFit);
            },
        }
        match r2 {
            Result::Ok(addr) => {
                proof {
                    lemma_placed_in_new_block(pre, *self, prev_g, addr as int, size as int);
                    lemma_base_alignment(*self, addr as int, align as int);
                }
                Ok(addr)
            },
            Result::Err(_) => {
                proof {
                    // The fresh block starts at the header, so the
                    // pre-checked padding and size fit; the retry cannot
                    // fail.
                    assert(false);
                }
                Err(UploadError::ItemDoesNotFit)
            },
        }
    }

    /// Move the full last node into the chain and start a fresh, empty node
    /// whose bytes are placed in the arena.
    fn push_next_drop_list(&mut self, mem: &mut Memory) -> (r: Result<(), UploadError>)
        requires
            old(self).wf(),
            old(self).last_block is Some,
            old(self).last_drop_list.items@.len() == MAX_DROP_LIST_ITEMS,
            !old(self).drained,
            old(mem).wf(),
            old(mem).can_take_n(1),
            old(self).compatible_with(old(mem)),
            old(self).bases_below(old(mem).spec_next_base() as int),
        ensures
            ArenaMetadata::placement_common(*old(self), *final(self), *old(mem), *final(mem), 1),
            ArenaMetadata::registries_unchanged(*old(self), *final(self)),
            final(self).all_items() == old(self).all_items(),
            r is Ok,
            final(self).last_drop_list.items@.len() == 0,
    {
        proof {
            crate::block::lemma_pad_zero(BLOCK_HEADER_SIZE as int, DROP_LIST_ALIGN as int);
        }
        let ghost pre = *self;
        let addr = match self.upload_no_drop(mem, DROP_LIST_BYTE_SIZE, DROP_LIST_ALIGN) {
            Result::Ok(a) => a,
            Result::Err(_) => {
                proof {
                    // The node always fits a fresh block of a well-formed
                    // arena, so the placement cannot fail.
                    assert(false);
                }
                return Err(UploadError::DropListDoesNotFit);
            },
        };
        let mut next = DropList::empty();
        next.addr = addr;
        let mut old_last = next;
        core::mem::swap(&mut self.last_drop_list, &mut old_last);
        old_last.set_next_list(addr);
        self.full_drop_lists.push(old_last);
        proof {
            let ghost mid = *self;
            lemma_items_of_lists_agree(
                pre.lists_seq(),
                mid.full_drop_lists@,
                pre.full_drop_lists@.len() as int,
            );
            assert(mid.lists_seq() =~= mid.full_drop_lists@.push(mid.last_drop_list));
            assert(items_of_lists(mid.lists_seq(), mid.lists_seq().len() as int)
                == items_of_lists(mid.lists_seq(), mid.lists_seq().len() - 1)
                    + mid.last_drop_list.items@);
            assert(items_of_lists(
                mid.full_drop_lists@,
                mid.full_drop_lists@.len() as int,
            ) == items_of_lists(mid.full_drop_lists@, mid.full_drop_lists@.len() - 1)
                + mid.full_drop_lists@[mid.full_drop_lists@.len() - 1].items@);
            lemma_items_of_lists_agree(
                mid.lists_seq(),
                mid.full_drop_lists@,
                mid.full_drop_lists@.len() - 1,
            );
            assert(pre.lists_seq()[pre.full_drop_lists@.len() as int].items@
                == mid.full_drop_lists@[mid.full_drop_lists@.len() - 1].items@);
            assert(items_of_lists(pre.lists_seq(), pre.lists_seq().len() as int)
                == items_of_lists(pre.lists_seq(), pre.lists_seq().len() - 1)
                    + pre.last_drop_list.items@);
            assert(mid.all_items() =~= pre.all_items());
        }
        Ok(())
    }

    /// Register a destructor thunk, rolling over to a fresh drop-list node
    /// first when the current one is full.
    fn push_drop_item(&mut self, mem: &mut Memory, item: DropItem) -> (r: Result<
        (),
        UploadError,
    >)
        requires
            old(self).wf(),
            old(self).last_block is Some,
            old(mem).wf(),
            old(mem).can_take_n(1),
            old(self).compatible_with(old(mem)),
            old(self).bases_below(old(mem).spec_next_base() as int),
            !old(self).drained,
            item_wf(item, old(self).cells@, old(self).fixed_arrays@, old(self).growable_arrays@),
        ensures
            ArenaMetadata::placement_common(*old(self), *final(self), *old(mem), *final(mem), 1),
            ArenaMetadata::registries_unchanged(*old(self), *final(self)),
            final(self).frontier() == old(self).frontier() || !(old(
                self,
            ).last_drop_list.items@.len() < MAX_DROP_LIST_ITEMS),
            r is Ok,
            final(self).all_items() == old(self).all_items().push(item),
    {
        let ghost pre = *self;
        if self.last_drop_list.items.len() == MAX_DROP_LIST_ITEMS {
            match self.push_next_drop_list(mem) {
                Result::Ok(u) => {},
                Result::Err(e) => {
                    proof {
                        assert(false);
                    }
                    return Err(e);
                },
            }
        }
        let ghost mid = *self;
        let res = self.last_drop_list.write_item(item);
        proof {
            lemma_can_take_all_monotone(*mem);
            assert(self.lists_seq() =~= mid.lists_seq().update(
                mid.lists_seq().len() - 1,
                self.last_drop_list,
            ));
            lemma_items_of_lists_agree(self.lists_seq(), mid.lists_seq(), mid.lists_seq().len() - 1);
            assert(items_of_lists(self.lists_seq(), self.lists_seq().len() as int)
                == items_of_lists(self.lists_seq(), self.lists_seq().len() - 1)
                    + self.last_drop_list.items@);
            assert(items_of_lists(mid.lists_seq(), mid.lists_seq().len() as int)
                == items_of_lists(mid.lists_seq(), mid.lists_seq().len() - 1)
                    + mid.last_drop_list.items@);
            assert(self.all_items() =~= mid.all_items().push(item));
            assert(self.all_items() =~= pre.all_items().push(item));
        }
        Ok(())
    }

    /// Place a custom destructor thunk that will be executed on arena
    /// drain. The data address should point at a placed span of this arena.
    pub fn push_custom_drop_fn(&mut self, mem: &mut Memory, fun: DropFn, data: usize) -> (r:
        Result<(), UploadError>)
        requires
            old(self).wf(),
            old(self).last_block is Some,
            old(mem).wf(),
            old(mem).can_take_n(1),
            old(self).compatible_with(old(mem)),
            old(self).bases_below(old(mem).spec_next_base() as int),
            !old(self).drained,
            item_wf(
                DropItem { fun, data },
                old(self).cells@,
                old(self).fixed_arrays@,
                old(self).growable_arrays@,
            ),
        ensures
            ArenaMetadata::placement_common(*old(self), *final(self), *old(mem), *final(mem), 1),
            ArenaMetadata::registries_unchanged(*old(self), *final(self)),
            r is Ok,
            final(self).all_items() == old(self).all_items().push(DropItem { fun, data }),
    {
        self.push_drop_item(mem, DropItem { fun, data })
    }

    /// Place `size` bytes aligned to `align` and register the value
    /// destructor for the placed span; the thunk runs exactly once when the
    /// arena drains.
    pub fn upload_auto_drop(&mut self, mem: &mut Memory, size: usize, align: usize) -> (r: Result<
        usize,
        UploadError,
    >)
        requires
            old(self).wf(),
            old(self).last_block is Some,
            1 <= align <= MAX_SUPPORTED_ALIGN,
            old(mem).wf(),
            old(mem).can_take_n(2),
            old(self).compatible_with(old(mem)),
            old(self).bases_below(old(mem).spec_next_base() as int),
            !old(self).drained,
        ensures
            ArenaMetadata::placement_common(*old(self), *final(self), *old(mem), *final(mem), 2),
            ArenaMetadata::registries_unchanged(*old(self), *final(self)),
            match r {
                Result::Ok(addr) => {
                    &&& final(self).span_placed(addr as int, size as int)
                    &&& (BASE_ALIGN as int % align as int == 0 ==> addr as int % align as int == 0)
                    &&& addr >= old(self).frontier()
                    &&& final(self).all_items() == old(self).all_items().push(
                        DropItem { fun: DropFn::Value, data: addr },
                    )
                },
                Result::Err(e) => {
                    &&& e == UploadError::ItemDoesNotFit
                    &&& final(self).all_items() == old(self).all_items()
                },
            },
            r is Ok <==> old(self).can_place(size as int, align as int),
    {
        proof {
            lemma_can_take_monotone(*old(mem), 1);
        }
        let ghost pre = *self;
        let addr = match self.upload_no_drop(mem, size, align) {
            Result::Ok(a) => a,
            Result::Err(e) => {
                return Err(e);
            },
        };
        match self.push_drop_item(mem, DropItem { fun: DropFn::Value, data: addr }) {
            Result::Ok(u) => Ok(addr),
            Result::Err(e) => {
                proof {
                    assert(false);
                }
                Err(e)
            },
        }
    }

    /// Place a chunk of bytes (alignment one) and return the address of the
    /// first byte; the bytes stay readable there until reclamation.
    pub fn upload_no_drop_bytes(&mut self, mem: &mut Memory, bytes: &Vec<u8>) -> (r: Result<
        usize,
        UploadError,
    >)
        requires
            old(self).wf(),
            old(self).last_block is Some,
            old(mem).wf(),
            old(mem).can_take_n(1),
            old(self).compatible_with(old(mem)),
            old(self).bases_below(old(mem).spec_next_base() as int),
        ensures
            ArenaMetadata::placement_common(*old(self), *final(self), *old(mem), *final(mem), 1),
            ArenaMetadata::registries_unchanged(*old(self), *final(self)),
            final(self).full_drop_lists == old(self).full_drop_lists,
            final(self).last_drop_list == old(self).last_drop_list,
            r is Ok <==> old(self).can_place(bytes@.len() as int, 1),
            match r {
                Result::Ok(addr) => {
                    &&& final(self).span_placed(addr as int, bytes@.len() as int)
                    &&& addr >= old(self).frontier()
                    &&& final(self).bytes_at(addr as int, bytes@.len() as int) == bytes@
                    &&& (old(self).fits_in_last_block(bytes@.len() as int, 1) ==> *final(mem)
                        == *old(mem))
                },
                Result::Err(e) => {
                    &&& e == UploadError::ItemDoesNotFit
                    &&& *final(self) == *old(self)
                    &&& *final(mem) == *old(mem)
                },
            },
    {
        let ghost pre = *self;
        let len = bytes.len();
        proof {
            assert(spec_pad(pre.last_block->0.next_item_offset as int, 1) == 0
                && spec_pad(BLOCK_HEADER_SIZE as int, 1) == 0) by (nonlinear_arith);
        }
        let cur: usize;
        match &self.last_block {
            Option::Some(b) => {
                cur = b.next_item_offset;
            },
            Option::None => {
                proof {
                    assert(false);
                }
                cur = 0;
            },
        }
        if len <= self.block_size - cur {
            let addr: usize;
            match &mut self.last_block {
                Option::Some(b) => {
                    addr = b.upload_bytes_unchecked(cur, bytes);
                },
                Option::None => {
                    proof {
                        assert(false);
                    }
                    addr = 0;
                },
            }
            proof {
                lemma_bytes_in_grown_block(pre, *self, addr as int, len as int, bytes@);
                lemma_can_take_all_monotone(*mem);
            }
            return Ok(addr);
        }
        if len > self.block_size - BLOCK_HEADER_SIZE {
            proof {
                lemma_can_take_all_monotone(*mem);
            }
            return Err(UploadError::ItemDoesNotFit);
        }
        let (buf, base) = mem.take_block();
        let fresh = Block::new(buf, base);
        let mut tmp: Option<Block> = Some(fresh);
        core::mem::swap(&mut self.last_block, &mut tmp);
        let prev: Block;
        match tmp {
            Option::Some(p) => {
                prev = p;
            },
            Option::None => {
                proof {
                    assert(false);
                }
                return Err(UploadError::ItemDoesNotFit);
            },
        }
        let ghost prev_g = prev;
        let addr: usize;
        match &mut self.last_block {
            Option::Some(b) => {
                b.set_previous_block(prev);
                addr = b.upload_bytes_unchecked(BLOCK_HEADER_SIZE, bytes);
            },
            Option::None => {
                proof {
                    assert(false);
                }
                return Err(UploadError::ItemDoesNotFit);
            },
        }
        proof {
            lemma_bytes_in_fresh_block(pre, *self, prev_g, addr as int, len as int, bytes@);
        }
        Ok(addr)
    }

    /// Reserve an uninitialized region for `len` items laid out
    /// `offset_between_items` bytes apart, aligned to `align`; returns the
    /// address of the first item.
    pub fn alloc_no_drop_items_aligned_uninit(
        &mut self,
        mem: &mut Memory,
        len: usize,
        offset_between_items: usize,
        align: usize,
    ) -> (r: Result<usize, UploadError>)
        requires
            old(self).wf(),
            old(self).last_block is Some,
            1 <= align <= MAX_SUPPORTED_ALIGN,
            len * offset_between_items <= usize::MAX,
            old(mem).wf(),
            old(mem).can_take_n(1),
            old(self).compatible_with(old(mem)),
            old(self).bases_below(old(mem).spec_next_base() as int),
        ensures
            ArenaMetadata::placement_common(*old(self), *final(self), *old(mem), *final(mem), 1),
            ArenaMetadata::registries_unchanged(*old(self), *final(self)),
            final(self).full_drop_lists == old(self).full_drop_lists,
            final(self).last_drop_list == old(self).last_drop_list,
            r is Ok <==> old(self).can_place(len * offset_between_items, align as int),
            match r {
                Result::Ok(addr) => {
                    &&& final(self).span_placed(addr as int, len * offset_between_items)
                    &&& (BASE_ALIGN as int % align as int == 0 ==> addr as int % align as int == 0)
                    &&& addr >= old(self).frontier()
                    &&& final(self).frontier() == addr + len * offset_between_items
                    &&& addr + len * offset_between_items <= usize::MAX
                },
                Result::Err(e) => {
                    &&& e == UploadError::ItemDoesNotFit
                    &&& *final(self) == *old(self)
                    &&& *final(mem) == *old(mem)
                },
            },
    {
        let total = len * offset_between_items;
        let r = self.upload_no_drop(mem, total, align);
        proof {
            if r is Ok {
                let addr = r->Ok_0;
                lemma_span_below_frontier(
                    self.last_block->0,
                    self.block_size,
                    self.stride,
                    addr as int,
                    total as int,
                );
            }
        }
        r
    }

    /// Record a wrapped cell placed with a registered destructor: the value
    /// span is placed, the cell is recorded, and a cell thunk is put on the
    /// drop list. Returns the value address and the cell index.
    pub fn upload_cell_auto_drop(&mut self, mem: &mut Memory, size: usize, align: usize) -> (r:
        Result<(usize, usize), UploadError>)
        requires
            old(self).wf(),
            old(self).last_block is Some,
            1 <= align <= MAX_SUPPORTED_ALIGN,
            old(mem).wf(),
            old(mem).can_take_n(2),
            old(self).compatible_with(old(mem)),
            old(self).bases_below(old(mem).spec_next_base() as int),
            !old(self).drained,
        ensures
            ArenaMetadata::placement_common(*old(self), *final(self), *old(mem), *final(mem), 2),
            final(self).fixed_arrays == old(self).fixed_arrays,
            final(self).growable_arrays == old(self).growable_arrays,
            match r {
                Result::Ok((addr, ci)) => {
                    &&& ci == old(self).cells@.len()
                    &&& final(self).cells@.len() == old(self).cells@.len() + 1
                    &&& forall|i: int|
                        0 <= i < old(self).cells@.len() ==> final(self).cells@[i] == old(
                            self,
                        ).cells@[i]
                    &&& final(self).cells@[ci as int].addr == addr
                    &&& final(self).cells@[ci as int].outlives@.len() == 0
                    &&& final(self).cells@[ci as int].registered
                    &&& final(self).span_placed(addr as int, size as int)
                    &&& (BASE_ALIGN as int % align as int == 0 ==> addr as int % align as int == 0)
                    &&& addr >= old(self).frontier()
                    &&& final(self).all_items() == old(self).all_items().push(
                        DropItem { fun: DropFn::Cell(ci), data: addr },
                    )
                },
                Result::Err(e) => {
                    &&& e == UploadError::ItemDoesNotFit
                    &&& final(self).all_items() == old(self).all_items()
                    &&& final(self).cells@ == old(self).cells@
                },
            },
            r is Ok <==> old(self).can_place(size as int, align as int),
    {
        proof {
            lemma_can_take_monotone(*old(mem), 1);
        }
        let addr = match self.upload_no_drop(mem, size, align) {
            Result::Ok(a) => a,
            Result::Err(e) => {
                return Err(e);
            },
        };
        let ghost mid0 = *self;
        let ci = self.cells.len();
        self.cells.push(CellRecord { addr, outlives: Vec::new(), registered: true });
        proof {
            assert(mid0.lists_seq() == old(self).lists_seq());
            assert(mid0.all_items() == old(self).all_items());
            assert(self.lists_seq() == mid0.lists_seq());
            assert(self.all_items() == old(self).all_items());
            assert forall|i2: int, k2: int|
                0 <= i2 < self.cells@.len() && 0 <= k2 < self.cells@[i2].outlives@.len()
                    implies i2 < #[trigger] self.cells@[i2].outlives@[k2]
                    < self.cells@.len() by {
                if i2 < mid0.cells@.len() {
                    assert(self.cells@[i2] == mid0.cells@[i2]);
                    assert(cells_wf(mid0.cells@));
                } else {
                    assert(self.cells@[i2].outlives@.len() == 0);
                }
            }
            assert(cells_wf(self.cells@));
            assert(self.span_placed(addr as int, size as int));
            assert(self.frontier() == mid0.frontier());
            assert(forall|a: int, s: int|
                mid0.span_placed(a, s) ==> self.span_placed(a, s));
            assert(forall|a: int| mid0.span_placed(a, 1) ==> self.byte_at(a) == mid0.byte_at(a));
        }
        match self.push_drop_item(mem, DropItem { fun: DropFn::Cell(ci), data: addr }) {
            Result::Ok(u) => {
                proof {
                    assert(ci == old(self).cells@.len());
                    assert(self.cells@.len() == old(self).cells@.len() + 1);
                    assert(self.cells@[ci as int].addr == addr);
                    assert(self.cells@[ci as int].outlives@.len() == 0);
                    assert(self.cells@[ci as int].registered);
                    assert(self.span_placed(addr as int, size as int));
                    assert(addr >= old(self).frontier());
                    assert(self.all_items() == old(self).all_items().push(
                        DropItem { fun: DropFn::Cell(ci), data: addr },
                    ));
                    assert(forall|i: int|
                        0 <= i < old(self).cells@.len() ==> self.cells@[i] == old(
                            self,
                        ).cells@[i]);
                    assert(BASE_ALIGN as int % align as int == 0
                        ==> addr as int % align as int == 0);
                }
                Ok((addr, ci))
            },
            Result::Err(e) => {
                proof {
                    assert(false);
                }
                self.cells.pop();
                proof {
                    assert(self.cells@ =~= old(self).cells@);
                    assert(self.lists_seq() == old(self).lists_seq());
                    assert(self.all_items() == old(self).all_items());
                }
                Err(e)
            },
        }
    }

    /// Record a wrapped cell placed without a destructor of its own; it is
    /// destroyed only if another cell's outlives chain reaches it.
    pub fn upload_cell_no_drop(&mut self, mem: &mut Memory, size: usize, align: usize) -> (r:
        Result<(usize, usize), UploadError>)
        requires
            old(self).wf(),
            old(self).last_block is Some,
            1 <= align <= MAX_SUPPORTED_ALIGN,
            old(mem).wf(),
            old(mem).can_take_n(1),
            old(self).compatible_with(old(mem)),
            old(self).bases_below(old(mem).spec_next_base() as int),
        ensures
            ArenaMetadata::placement_common(*old(self), *final(self), *old(mem), *final(mem), 1),
            final(self).fixed_arrays == old(self).fixed_arrays,
            final(self).growable_arrays == old(self).growable_arrays,
            final(self).full_drop_lists == old(self).full_drop_lists,
            final(self).last_drop_list == old(self).last_drop_list,
            final(self).all_items() == old(self).all_items(),
            r is Ok <==> old(self).can_place(size as int, align as int),
            match r {
                Result::Ok((addr, ci)) => {
                    &&& ci == old(self).cells@.len()
                    &&& final(self).cells@.len() == old(self).cells@.len() + 1
                    &&& forall|i: int|
                        0 <= i < old(self).cells@.len() ==> final(self).cells@[i] == old(
                            self,
                        ).cells@[i]
                    &&& final(self).cells@[ci as int].addr == addr
                    &&& final(self).cells@[ci as int].outlives@.len() == 0
                    &&& !final(self).cells@[ci as int].registered
                    &&& final(self).span_placed(addr as int, size as int)
                    &&& (BASE_ALIGN as int % align as int == 0 ==> addr as int % align as int == 0)
                    &&& addr >= old(self).frontier()
                },
                Result::Err(e) => {
                    &&& e == UploadError::ItemDoesNotFit
                    &&& final(self).cells == old(self).cells
                    &&& *final(mem) == *old(mem)
                },
            },
    {
        let addr = match self.upload_no_drop(mem, size, align) {
            Result::Ok(a) => a,
            Result::Err(e) => {
                return Err(e);
            },
        };
        let ghost mid0 = *self;
        let ci = self.cells.len();
        self.cells.push(CellRecord { addr, outlives: Vec::new(), registered: false });
        proof {
            assert(self.lists_seq() == mid0.lists_seq());
            assert(self.lists_seq() == old(self).lists_seq());
            assert forall|i2: int, k2: int|
                0 <= i2 < self.cells@.len() && 0 <= k2 < self.cells@[i2].outlives@.len()
                    implies i2 < #[trigger] self.cells@[i2].outlives@[k2]
                    < self.cells@.len() by {
                if i2 < mid0.cells@.len() {
                    assert(self.cells@[i2] == mid0.cells@[i2]);
                    assert(cells_wf(mid0.cells@));
                } else {
                    assert(self.cells@[i2].outlives@.len() == 0);
                }
            }
            assert(cells_wf(self.cells@));
            assert(self.span_placed(addr as int, size as int));
            assert(self.frontier() == mid0.frontier());
            assert(forall|a: int, s: int| mid0.span_placed(a, s) ==> self.span_placed(a, s));
            assert(forall|a: int| mid0.span_placed(a, 1) ==> self.byte_at(a) == mid0.byte_at(a));
        }
        Ok((addr, ci))
    }

    /// Chain cell `target` in front of cell `owner`'s own destruction:
    /// `target`'s destructor will run before `owner`'s value is destroyed.
    pub fn link_outlives(&mut self, owner: usize, target: usize)
        requires
            old(self).wf(),
            owner < target < old(self).cells@.len(),
        ensures
            final(self).wf(),
            final(self).cells@ == old(self).cells@.update(
                owner as int,
                (CellRecord {
                    outlives: final(self).cells@[owner as int].outlives,
                    ..old(self).cells@[owner as int]
                }),
            ),
            final(self).cells@[owner as int].outlives@ == old(self).cells@[owner as int].outlives@.push(target),
            *final(self) == (ArenaMetadata { cells: final(self).cells, ..*old(self) }),
    {
        let mut rec = CellRecord { addr: 0, outlives: Vec::new(), registered: false };
        self.cells.set_and_swap(owner, &mut rec);
        rec.outlives.push(target);
        self.cells.set_and_swap(owner, &mut rec);
        proof {
            assert forall|i2: int, k2: int|
                0 <= i2 < self.cells@.len() && 0 <= k2 < self.cells@[i2].outlives@.len()
                    implies i2 < #[trigger] self.cells@[i2].outlives@[k2]
                    < self.cells@.len() by {
                assert(cells_wf(old(self).cells@));
                if i2 != owner {
                    assert(self.cells@[i2] == old(self).cells@[i2]);
                    assert(i2 < old(self).cells@[i2].outlives@[k2] < old(self).cells@.len());
                } else {
                    if k2 < old(self).cells@[i2].outlives@.len() {
                        assert(self.cells@[i2].outlives@[k2] == old(self).cells@[
                            i2
                        ].outlives@[k2]);
                        assert(i2 < old(self).cells@[i2].outlives@[k2] < old(self).cells@.len());
                    } else {
                        assert(self.cells@[i2].outlives@[k2] == target);
                    }
                }
            }
            assert(cells_wf(self.cells@));
        }
    }

    /// Record the metadata cell of a fixed array; elements are filled in
    /// later through `fixed_array_set_data`.
    pub fn push_fixed_array_record(&mut self, meta_addr: usize, stride: usize) -> (r: usize)
        requires
            old(self).wf(),
        ensures
            final(self).wf(),
            r == old(self).fixed_arrays@.len(),
            final(self).fixed_arrays@ == old(self).fixed_arrays@.push(
                (FixedArrayRecord { meta_addr, data_addr: 0, len: 0, stride }),
            ),
            *final(self) == (ArenaMetadata {
                fixed_arrays: final(self).fixed_arrays,
                ..*old(self)
            }),
    {
        let r = self.fixed_arrays.len();
        self.fixed_arrays.push(FixedArrayRecord { meta_addr, data_addr: 0, len: 0, stride });
        proof {
            assert(0 + 0 * stride as int <= usize::MAX as int) by (nonlinear_arith);
        }
        r
    }

    /// Point a fixed-array record at its element region and set how many
    /// elements the sweep will destroy.
    pub fn fixed_array_set_data(&mut self, ai: usize, data_addr: usize, len: usize)
        requires
            old(self).wf(),
            ai < old(self).fixed_arrays@.len(),
            data_addr + len * old(self).fixed_arrays@[ai as int].stride <= usize::MAX,
        ensures
            final(self).wf(),
            final(self).fixed_arrays@ == old(self).fixed_arrays@.update(
                ai as int,
                (FixedArrayRecord { data_addr, len, ..old(self).fixed_arrays@[ai as int] }),
            ),
            *final(self) == (ArenaMetadata {
                fixed_arrays: final(self).fixed_arrays,
                ..*old(self)
            }),
    {
        let mut rec = FixedArrayRecord { meta_addr: 0, data_addr: 0, len: 0, stride: 0 };
        self.fixed_arrays.set_and_swap(ai, &mut rec);
        let stride = rec.stride;
        rec = FixedArrayRecord { data_addr, len, ..rec };
        self.fixed_arrays.set_and_swap(ai, &mut rec);
    }

    /// Record the metadata cell of a growable array with its first pointer
    /// table.
    pub fn push_growable_record(&mut self, meta_addr: usize, capacity: usize, table_addr: usize)
        -> (r: usize)
        requires
            old(self).wf(),
        ensures
            final(self).wf(),
            r == old(self).growable_arrays@.len(),
            final(self).growable_arrays@ == old(self).growable_arrays@.push(
                (GrowableArrayRecord {
                    meta_addr,
                    capacity,
                    table_addr,
                    ptrs: final(self).growable_arrays@[r as int].ptrs,
                }),
            ),
            final(self).growable_arrays@[r as int].ptrs@ == Seq::<usize>::empty(),
            *final(self) == (ArenaMetadata {
                growable_arrays: final(self).growable_arrays,
                ..*old(self)
            }),
    {
        let r = self.growable_arrays.len();
        self.growable_arrays.push(
            GrowableArrayRecord { meta_addr, capacity, table_addr, ptrs: Vec::new() },
        );
        r
    }

    /// Swing a growable array's record to a bigger pointer table.
    pub fn growable_set_table(&mut self, gi: usize, table_addr: usize, capacity: usize)
        requires
            old(self).wf(),
            gi < old(self).growable_arrays@.len(),
        ensures
            final(self).wf(),
            final(self).growable_arrays@ == old(self).growable_arrays@.update(
                gi as int,
                (GrowableArrayRecord {
                    table_addr,
                    capacity,
                    ..old(self).growable_arrays@[gi as int]
                }),
            ),
            *final(self) == (ArenaMetadata {
                growable_arrays: final(self).growable_arrays,
                ..*old(self)
            }),
    {
        let mut rec = GrowableArrayRecord {
            meta_addr: 0,
            capacity: 0,
            table_addr: 0,
            ptrs: Vec::new(),
        };
        self.growable_arrays.set_and_swap(gi, &mut rec);
        rec = GrowableArrayRecord { table_addr, capacity, ..rec };
        self.growable_arrays.set_and_swap(gi, &mut rec);
    }

    /// Append one owned element address to a growable array's record.
    pub fn growable_push_ptr(&mut self, gi: usize, addr: usize)
        requires
            old(self).wf(),
            gi < old(self).growable_arrays@.len(),
        ensures
            final(self).wf(),
            final(self).growable_arrays@ == old(self).growable_arrays@.update(
                gi as int,
                (GrowableArrayRecord {
                    ptrs: final(self).growable_arrays@[gi as int].ptrs,
                    ..old(self).growable_arrays@[gi as int]
                }),
            ),
            final(self).growable_arrays@[gi as int].ptrs@ == old(self).growable_arrays@[gi as int].ptrs@.push(addr),
            *final(self) == (ArenaMetadata {
                growable_arrays: final(self).growable_arrays,
                ..*old(self)
            }),
    {
        let mut rec = GrowableArrayRecord {
            meta_addr: 0,
            capacity: 0,
            table_addr: 0,
            ptrs: Vec::new(),
        };
        self.growable_arrays.set_and_swap(gi, &mut rec);
        rec.ptrs.push(addr);
        self.growable_arrays.set_and_swap(gi, &mut rec);
    }

    /// Drop the last owned element address of a growable array's record:
    /// the popped element's destructor will no longer run.
    pub fn growable_pop_ptr(&mut self, gi: usize) -> (r: usize)
        requires
            old(self).wf(),
            gi < old(self).growable_arrays@.len(),
            old(self).growable_arrays@[gi as int].ptrs@.len() > 0,
        ensures
            final(self).wf(),
            final(self).growable_arrays@ == old(self).growable_arrays@.update(
                gi as int,
                (GrowableArrayRecord {
                    ptrs: final(self).growable_arrays@[gi as int].ptrs,
                    ..old(self).growable_arrays@[gi as int]
                }),
            ),
            final(self).growable_arrays@[gi as int].ptrs@ == old(self).growable_arrays@[gi as int].ptrs@.drop_last(),
            r == old(self).growable_arrays@[gi as int].ptrs@.last(),
            *final(self) == (ArenaMetadata {
                growable_arrays: final(self).growable_arrays,
                ..*old(self)
            }),
    {
        let mut rec = GrowableArrayRecord {
            meta_addr: 0,
            capacity: 0,
            table_addr: 0,
            ptrs: Vec::new(),
        };
        self.growable_arrays.set_and_swap(gi, &mut rec);
        let r: usize;
        match rec.ptrs.pop() {
            Option::Some(a) => {
                r = a;
            },
            Option::None => {
                proof {
                    assert(false);
                }
                r = 0;
            },
        }
        self.growable_arrays.set_and_swap(gi, &mut rec);
        r
    }

    /// Execute the drop chain head-to-tail exactly once: every registered
    /// destructor thunk runs in registration order, appending the addresses
    /// it destroys to the drop log; afterwards the chain is empty, and a
    /// second call returns immediately.
    pub fn drop_objects(&mut self)
        requires
            old(self).wf(),
        ensures
            final(self).wf(),
            final(self).drained,
            old(self).drained ==> *final(self) == *old(self),
            final(self).drop_log@ == old(self).drop_log@ + old(self).expected_drain(),
            final(self).all_items() == Seq::<DropItem>::empty(),
            final(self).last_block == old(self).last_block,
            final(self).strong_rc == old(self).strong_rc,
            final(self).rc == old(self).rc,
            final(self).cells == old(self).cells,
            final(self).fixed_arrays == old(self).fixed_arrays,
            final(self).growable_arrays == old(self).growable_arrays,
            final(self).block_size == old(self).block_size,
            final(self).stride == old(self).stride,
            forall|a: int, s: int| old(self).span_placed(a, s) ==> final(self).span_placed(a, s),
            forall|a: int| final(self).byte_at(a) == old(self).byte_at(a),
            final(self).frontier() == old(self).frontier(),
    {
        if self.drained {
            proof {
                assert(items_of_lists(self.lists_seq(), 0) =~= Seq::<DropItem>::empty());
                assert(self.lists_seq()[0].items@ =~= Seq::<DropItem>::empty());
                assert(self.all_items() =~= Seq::<DropItem>::empty());
                assert(self.expected_drain() =~= Seq::<usize>::empty());
                assert(self.drop_log@ =~= self.drop_log@ + self.expected_drain());
            }
            return;
        }
        let mut log: Vec<usize> = Vec::new();
        let nfull = self.full_drop_lists.len();
        let mut l: usize = 0;
        while l < nfull
            invariant
                *self == *old(self),
                old(self).wf(),
                nfull == self.full_drop_lists@.len(),
                l <= nfull,
                log@ == lists_drain(
                    self.full_drop_lists@,
                    self.cells@,
                    self.fixed_arrays@,
                    self.growable_arrays@,
                    l as int,
                ),
            decreases nfull - l,
        {
            let ghost before_list = log@;
            let m = self.full_drop_lists[l].items.len();
            let mut j: usize = 0;
            while j < m
                invariant
                    *self == *old(self),
                    old(self).wf(),
                    l < self.full_drop_lists@.len(),
                    m == self.full_drop_lists@[l as int].items@.len(),
                    j <= m,
                    before_list == lists_drain(
                        self.full_drop_lists@,
                        self.cells@,
                        self.fixed_arrays@,
                        self.growable_arrays@,
                        l as int,
                    ),
                    log@ == before_list + items_drain(
                        self.full_drop_lists@[l as int].items@,
                        self.cells@,
                        self.fixed_arrays@,
                        self.growable_arrays@,
                        j as int,
                    ),
                decreases m - j,
            {
                let it = self.full_drop_lists[l].items[j];
                let ghost log_before = log@;
                proof {
                    assert(item_wf(it, self.cells@, self.fixed_arrays@, self.growable_arrays@));
                }
                drain_item(it, &self.cells, &self.fixed_arrays, &self.growable_arrays, &mut log);
                proof {
                    assert(log@ =~= before_list + items_drain(
                        self.full_drop_lists@[l as int].items@,
                        self.cells@,
                        self.fixed_arrays@,
                        self.growable_arrays@,
                        j + 1,
                    ));
                }
                j = j + 1;
            }
            proof {
                assert(log@ =~= lists_drain(
                    self.full_drop_lists@,
                    self.cells@,
                    self.fixed_arrays@,
                    self.growable_arrays@,
                    l + 1,
                ));
            }
            l = l + 1;
        }
        let ghost full_part = log@;
        let m = self.last_drop_list.items.len();
        let mut j: usize = 0;
        while j < m
            invariant
                *self == *old(self),
                old(self).wf(),
                m == self.last_drop_list.items@.len(),
                j <= m,
                full_part == lists_drain(
                    self.full_drop_lists@,
                    self.cells@,
                    self.fixed_arrays@,
                    self.growable_arrays@,
                    self.full_drop_lists@.len() as int,
                ),
                log@ == full_part + items_drain(
                    self.last_drop_list.items@,
                    self.cells@,
                    self.fixed_arrays@,
                    self.growable_arrays@,
                    j as int,
                ),
            decreases m - j,
        {
            let it = self.last_drop_list.items[j];
            proof {
                assert(item_wf(it, self.cells@, self.fixed_arrays@, self.growable_arrays@));
            }
            drain_item(it, &self.cells, &self.fixed_arrays, &self.growable_arrays, &mut log);
            proof {
                assert(log@ =~= full_part + items_drain(
                    self.last_drop_list.items@,
                    self.cells@,
                    self.fixed_arrays@,
                    self.growable_arrays@,
                    j + 1,
                ));
            }
            j = j + 1;
        }
        proof {
            let lists = old(self).lists_seq();
            let nf = old(self).full_drop_lists@.len() as int;
            lemma_lists_drain_agree(
                lists,
                old(self).full_drop_lists@,
                old(self).cells@,
                old(self).fixed_arrays@,
                old(self).growable_arrays@,
                nf,
            );
            assert(lists_drain(
                lists,
                old(self).cells@,
                old(self).fixed_arrays@,
                old(self).growable_arrays@,
                nf + 1,
            ) == lists_drain(
                lists,
                old(self).cells@,
                old(self).fixed_arrays@,
                old(self).growable_arrays@,
                nf,
            ) + items_drain(
                lists[nf].items@,
                old(self).cells@,
                old(self).fixed_arrays@,
                old(self).growable_arrays@,
                lists[nf].items@.len() as int,
            ));
            assert(log@ =~= lists_drain(
                lists,
                old(self).cells@,
                old(self).fixed_arrays@,
                old(self).growable_arrays@,
                nf + 1,
            ));
            lemma_lists_drain_eq(
                lists,
                old(self).cells@,
                old(self).fixed_arrays@,
                old(self).growable_arrays@,
                nf + 1,
            );
            assert(log@ == old(self).expected_drain());
        }
        self.full_drop_lists = Vec::new();
        self.last_drop_list = DropList::empty();
        self.drained = true;
        self.drop_log.append(&mut log);
        proof {
            assert(items_of_lists(self.lists_seq(), 0) =~= Seq::<DropItem>::empty());
            assert(self.lists_seq().len() == 1);
            assert(self.lists_seq()[0].items@ =~= Seq::<DropItem>::empty());
            assert(self.all_items() =~= Seq::<DropItem>::empty());
        }
    }

    /// Read back the bytes of a placed span.
    pub fn read_bytes(&self, addr: usize, len: usize) -> (r: Vec<u8>)
        requires
            self.wf(),
            self.last_block is Some,
            self.span_placed(addr as int, len as int),
        ensures
            r@ == self.bytes_at(addr as int, len as int),
    {
        let r: Vec<u8>;
        match &self.last_block {
            Option::Some(b) => {
                r = chain_read(b, self.block_size, self.stride, addr, len);
                proof {
                    assert(r@ =~= self.bytes_at(addr as int, len as int));
                }
            },
            Option::None => {
                proof {
                    assert(false);
                }
                r = Vec::new();
            },
        }
        r
    }

    /// Number of blocks this arena currently owns.
    pub open spec fn block_count(&self) -> int {
        match self.last_block {
            Option::Some(b) => b.chain_len() as int,
            Option::None => 0,
        }
    }

    /// Walk the block chain tail to head and return every buffer to the
    /// pool; afterwards the arena owns no memory.
    pub fn reclaim_memory(&mut self, mem: &mut Memory)
        requires
            old(self).wf(),
            old(mem).wf(),
            old(self).compatible_with(old(mem)),
        ensures
            final(mem).wf(),
            final(mem).same_config(old(mem)),
            final(mem).spec_next_base() == old(mem).spec_next_base(),
            final(mem).spec_free_count() == old(mem).spec_free_count() + old(self).block_count(),
            final(self).last_block is None,
            *final(self) == (ArenaMetadata { last_block: None, ..*old(self) }),
    {
        let mut block: Option<Block> = None;
        core::mem::swap(&mut block, &mut self.last_block);
        let ghost total: int = if block is Some {
            block->0.chain_len() as int
        } else {
            0
        };
        while block.is_some()
            invariant
                mem.wf(),
                mem.same_config(old(mem)),
                mem.spec_next_base() == old(mem).spec_next_base(),
                block is Some ==> block->0.chain_wf(old(self).block_size, old(self).stride),
                old(self).block_size == old(mem).spec_block_size(),
                mem.spec_free_count() == old(mem).spec_free_count() + total - (if block is Some {
                    block->0.chain_len() as int
                } else {
                    0
                }),
                *self == (ArenaMetadata { last_block: None, ..*old(self) }),
                total == old(self).block_count(),
            decreases (if block is Some {
                block->0.chain_len()
            } else {
                0nat
            }),
        {
            match block {
                Option::Some(b) => {
                    let (prev, data) = b.into_previous_block_and_data();
                    mem.return_block(data);
                    match prev {
                        Option::Some(bx) => {
                            block = Some(*bx);
                        },
                        Option::None => {
                            block = None;
                        },
                    }
                },
                Option::None => {
                    proof {
                        assert(false);
                    }
                },
            }
        }
    }
}


/// The element addresses a fixed-array sweep destroys, in index order.
pub open spec fn sweep_addrs(a: FixedArrayRecord) -> Seq<usize> {
    Seq::new(a.len as nat, |k: int| (a.data_addr + k * a.stride) as usize)
}

/// Addresses destroyed when cell `i` is destroyed: first its outlives
/// entries, newest first, each destroyed as a cell of its own; then the
/// cell's own value address.
pub open spec fn cell_drain(cells: Seq<CellRecord>, i: int) -> Seq<usize>
    decreases cells.len() - i, cells[i].outlives@.len() + 1,
{
    if 0 <= i < cells.len() {
        cell_entries_drain(cells, i, cells[i].outlives@.len() as int).push(cells[i].addr)
    } else {
        Seq::empty()
    }
}

/// Addresses destroyed by the first `k` outlives entries of cell `i`,
/// executed in reverse registration order.
pub open spec fn cell_entries_drain(cells: Seq<CellRecord>, i: int, k: int) -> Seq<usize>
    decreases cells.len() - i, k,
{
    if 0 <= i < cells.len() && 0 < k <= cells[i].outlives@.len() {
        let j = cells[i].outlives@[k - 1] as int;
        if i < j < cells.len() {
            cell_drain(cells, j) + cell_entries_drain(cells, i, k - 1)
        } else {
            cell_entries_drain(cells, i, k - 1)
        }
    } else {
        Seq::empty()
    }
}

/// Addresses destroyed by executing one destructor thunk.
pub open spec fn item_drain(
    it: DropItem,
    cells: Seq<CellRecord>,
    fixed: Seq<FixedArrayRecord>,
    growable: Seq<GrowableArrayRecord>,
) -> Seq<usize> {
    match it.fun {
        DropFn::Value => seq![it.data],
        DropFn::Cell(ci) => cell_drain(cells, ci as int),
        DropFn::FixedArraySweep(ai) => if ai < fixed.len() {
            sweep_addrs(fixed[ai as int])
        } else {
            Seq::empty()
        },
        DropFn::GrowableArraySweep(gi) => if gi < growable.len() {
            growable[gi as int].ptrs@
        } else {
            Seq::empty()
        },
    }
}

/// Addresses destroyed by executing the first `j` thunks of `items`, in
/// order.
pub open spec fn items_drain(
    items: Seq<DropItem>,
    cells: Seq<CellRecord>,
    fixed: Seq<FixedArrayRecord>,
    growable: Seq<GrowableArrayRecord>,
    j: int,
) -> Seq<usize>
    decreases j,
{
    if j <= 0 {
        Seq::empty()
    } else {
        items_drain(items, cells, fixed, growable, j - 1) + item_drain(
            items[j - 1],
            cells,
            fixed,
            growable,
        )
    }
}

/// The first `j` thunks decide the drain of the first `j` thunks.
proof fn lemma_items_drain_agree(
    s1: Seq<DropItem>,
    s2: Seq<DropItem>,
    cells: Seq<CellRecord>,
    fixed: Seq<FixedArrayRecord>,
    growable: Seq<GrowableArrayRecord>,
    j: int,
)
    requires
        j <= s1.len(),
        j <= s2.len(),
        forall|i: int| 0 <= i < j ==> s1[i] == s2[i],
    ensures
        items_drain(s1, cells, fixed, growable, j) == items_drain(s2, cells, fixed, growable, j),
    decreases j,
{
    if j > 0 {
        lemma_items_drain_agree(s1, s2, cells, fixed, growable, j - 1);
    }
}

/// Draining a concatenation of thunk sequences drains one after the other.
proof fn lemma_items_drain_concat(
    a: Seq<DropItem>,
    b: Seq<DropItem>,
    cells: Seq<CellRecord>,
    fixed: Seq<FixedArrayRecord>,
    growable: Seq<GrowableArrayRecord>,
)
    ensures
        items_drain(a + b, cells, fixed, growable, a.len() + b.len() as int) == items_drain(
            a,
            cells,
            fixed,
            growable,
            a.len() as int,
        ) + items_drain(b, cells, fixed, growable, b.len() as int),
    decreases b.len(),
{
    if b.len() == 0 {
        assert(a + b =~= a);
        lemma_items_drain_agree(a + b, a, cells, fixed, growable, a.len() as int);
        assert(items_drain(a, cells, fixed, growable, a.len() as int) + items_drain(
            b,
            cells,
            fixed,
            growable,
            0,
        ) =~= items_drain(a, cells, fixed, growable, a.len() as int));
    } else {
        let b0 = b.drop_last();
        lemma_items_drain_concat(a, b0, cells, fixed, growable);
        lemma_items_drain_agree(b, b0, cells, fixed, growable, b.len() - 1);
        assert(a + b0 =~= (a + b).subrange(0, a.len() + b.len() - 1));
        lemma_items_drain_agree(
            a + b,
            a + b0,
            cells,
            fixed,
            growable,
            a.len() + b.len() - 1,
        );
        assert((a + b)[a.len() + b.len() - 1] == b[b.len() - 1]);
        assert(items_drain(a, cells, fixed, growable, a.len() as int) + (items_drain(
            b,
            cells,
            fixed,
            growable,
            b.len() - 1,
        ) + item_drain(b[b.len() - 1], cells, fixed, growable)) =~= (items_drain(
            a,
            cells,
            fixed,
            growable,
            a.len() as int,
        ) + items_drain(b, cells, fixed, growable, b.len() - 1)) + item_drain(
            b[b.len() - 1],
            cells,
            fixed,
            growable,
        ));
    }
}

/// Addresses destroyed by draining the first `l` drop-list nodes, each
/// node's thunks in slot order.
pub open spec fn lists_drain(
    lists: Seq<DropList>,
    cells: Seq<CellRecord>,
    fixed: Seq<FixedArrayRecord>,
    growable: Seq<GrowableArrayRecord>,
    l: int,
) -> Seq<usize>
    decreases l,
{
    if l <= 0 {
        Seq::empty()
    } else {
        lists_drain(lists, cells, fixed, growable, l - 1) + items_drain(
            lists[l - 1].items@,
            cells,
            fixed,
            growable,
            lists[l - 1].items@.len() as int,
        )
    }
}

/// The first `l` nodes decide the drain of the first `l` nodes.
proof fn lemma_lists_drain_agree(
    l1: Seq<DropList>,
    l2: Seq<DropList>,
    cells: Seq<CellRecord>,
    fixed: Seq<FixedArrayRecord>,
    growable: Seq<GrowableArrayRecord>,
    l: int,
)
    requires
        l <= l1.len(),
        l <= l2.len(),
        forall|i: int| 0 <= i < l ==> (#[trigger] l1[i]).items@ == l2[i].items@,
    ensures
        lists_drain(l1, cells, fixed, growable, l) == lists_drain(l2, cells, fixed, growable, l),
    decreases l,
{
    if l > 0 {
        lemma_lists_drain_agree(l1, l2, cells, fixed, growable, l - 1);
    }
}

/// Draining node by node gives the same addresses as draining the
/// concatenation of all their thunks.
proof fn lemma_lists_drain_eq(
    lists: Seq<DropList>,
    cells: Seq<CellRecord>,
    fixed: Seq<FixedArrayRecord>,
    growable: Seq<GrowableArrayRecord>,
    l: int,
)
    ensures
        items_drain(
            items_of_lists(lists, l),
            cells,
            fixed,
            growable,
            items_of_lists(lists, l).len() as int,
        ) == lists_drain(lists, cells, fixed, growable, l),
    decreases l,
{
    if l > 0 {
        lemma_lists_drain_eq(lists, cells, fixed, growable, l - 1);
        lemma_items_drain_concat(
            items_of_lists(lists, l - 1),
            lists[l - 1].items@,
            cells,
            fixed,
            growable,
        );
    }
}

/// Execute one destructor thunk: append the addresses it destroys to the
/// log, in order.
fn drain_item(
    it: DropItem,
    cells: &Vec<CellRecord>,
    fixed: &Vec<FixedArrayRecord>,
    growable: &Vec<GrowableArrayRecord>,
    log: &mut Vec<usize>,
)
    requires
        cells_wf(cells@),
        item_wf(it, cells@, fixed@, growable@),
        forall|a: int|
            0 <= a < fixed@.len() ==> (#[trigger] fixed@[a]).data_addr + fixed@[a].len
                * fixed@[a].stride <= usize::MAX,
    ensures
        final(log)@ == old(log)@ + item_drain(it, cells@, fixed@, growable@),
{
    match it.fun {
        DropFn::Value => {
            log.push(it.data);
            proof {
                assert(log@ =~= old(log)@ + item_drain(it, cells@, fixed@, growable@));
            }
        },
        DropFn::Cell(ci) => {
            drain_cell(cells, ci, log);
        },
        DropFn::FixedArraySweep(ai) => {
            let rec_len = fixed[ai].len;
            let rec_stride = fixed[ai].stride;
            let mut addr = fixed[ai].data_addr;
            let mut k: usize = 0;
            proof {
                assert(0 * rec_stride as int == 0) by (nonlinear_arith);
            }
            while k < rec_len
                invariant
                    k <= rec_len,
                    ai < fixed@.len(),
                    rec_len == fixed@[ai as int].len,
                    rec_stride == fixed@[ai as int].stride,
                    addr as int == fixed@[ai as int].data_addr + k * rec_stride,
                    fixed@[ai as int].data_addr + rec_len * rec_stride <= usize::MAX,
                    log@ == old(log)@ + sweep_addrs(fixed@[ai as int]).subrange(0, k as int),
                decreases rec_len - k,
            {
                log.push(addr);
                proof {
                    assert((k + 1) * rec_stride as int == k * rec_stride as int
                        + rec_stride as int) by (nonlinear_arith);
                    assert((k + 1) * rec_stride as int <= rec_len * rec_stride as int)
                        by (nonlinear_arith)
                        requires
                            k + 1 <= rec_len,
                            rec_stride >= 0,
                    ;
                    assert(sweep_addrs(fixed@[ai as int]).subrange(0, k + 1)
                        =~= sweep_addrs(fixed@[ai as int]).subrange(0, k as int).push(addr));
                    assert(log@ =~= old(log)@ + sweep_addrs(fixed@[ai as int]).subrange(
                        0,
                        k + 1,
                    ));
                }
                addr = addr + rec_stride;
                k = k + 1;
            }
            proof {
                assert(sweep_addrs(fixed@[ai as int]).subrange(0, rec_len as int)
                    =~= sweep_addrs(fixed@[ai as int]));
            }
        },
        DropFn::GrowableArraySweep(gi) => {
            let n = growable[gi].ptrs.len();
            let mut k: usize = 0;
            while k < n
                invariant
                    k <= n,
                    gi < growable@.len(),
                    n == growable@[gi as int].ptrs@.len(),
                    log@ == old(log)@ + growable@[gi as int].ptrs@.subrange(0, k as int),
                decreases n - k,
            {
                let a = growable[gi].ptrs[k];
                log.push(a);
                proof {
                    assert(growable@[gi as int].ptrs@.subrange(0, k + 1)
                        =~= growable@[gi as int].ptrs@.subrange(0, k as int).push(a));
                    assert(log@ =~= old(log)@ + growable@[gi as int].ptrs@.subrange(0, k + 1));
                }
                k = k + 1;
            }
            proof {
                assert(growable@[gi as int].ptrs@.subrange(0, n as int)
                    =~= growable@[gi as int].ptrs@);
            }
        },
    }
}

/// Destroy cell `i`: its outlives entries first, newest first, then its
/// own value.
fn drain_cell(cells: &Vec<CellRecord>, i: usize, log: &mut Vec<usize>)
    requires
        cells_wf(cells@),
        i < cells@.len(),
    ensures
        final(log)@ == old(log)@ + cell_drain(cells@, i as int),
    decreases cells@.len() - i,
{
    let n = cells[i].outlives.len();
    let mut k = n;
    while k > 0
        invariant
            cells_wf(cells@),
            i < cells@.len(),
            k <= n,
            n == cells@[i as int].outlives@.len(),
            old(log)@ + cell_entries_drain(cells@, i as int, n as int) == log@
                + cell_entries_drain(cells@, i as int, k as int),
        decreases k,
    {
        let j = cells[i].outlives[k - 1];
        proof {
            assert(i < cells@[i as int].outlives@[k - 1] < cells@.len());
        }
        let ghost log_before = log@;
        drain_cell(cells, j, log);
        proof {
            assert(cell_entries_drain(cells@, i as int, k as int) == cell_drain(
                cells@,
                j as int,
            ) + cell_entries_drain(cells@, i as int, k - 1));
            assert(old(log)@ + cell_entries_drain(cells@, i as int, n as int) == (log_before
                + cell_drain(cells@, j as int)) + cell_entries_drain(cells@, i as int, k - 1))
                by {
                assert((log_before + cell_drain(cells@, j as int)) + cell_entries_drain(
                    cells@,
                    i as int,
                    k - 1,
                ) =~= log_before + (cell_drain(cells@, j as int) + cell_entries_drain(
                    cells@,
                    i as int,
                    k - 1,
                )));
            }
        }
        k = k - 1;
    }
    log.push(cells[i].addr);
    proof {
        assert(cell_entries_drain(cells@, i as int, 0) =~= Seq::<usize>::empty());
        assert(log@ =~= old(log)@ + cell_drain(cells@, i as int)) by {
            assert(log@.drop_last() =~= old(log)@ + cell_entries_drain(
                cells@,
                i as int,
                n as int,
            ));
            assert(old(log)@ + cell_entries_drain(cells@, i as int, n as int)
                =~= old(log)@ + cell_entries_drain(cells@, i as int, n as int));
            assert(cell_drain(cells@, i as int) == cell_entries_drain(
                cells@,
                i as int,
                n as int,
            ).push(cells@[i as int].addr));
        }
    }
}

/// Copy the bytes of a span out of the block of the chain that holds it.
fn chain_read(b: &Block, block_size: usize, stride: usize, addr: usize, len: usize) -> (r: Vec<
    u8,
>)
    requires
        b.chain_wf(block_size, stride),
        block_size <= stride,
        stride >= 1,
        b.chain_contains_span(addr as int, len as int),
    ensures
        r@ == b.chain_bytes(addr as int, len as int),
    decreases b.chain_len(),
{
    if addr >= b.base {
        proof {
            if len > 0 {
                if !(b.base + BLOCK_HEADER_SIZE <= addr && addr + len <= b.base
                    + b.next_item_offset) {
                    match &b.previous_block {
                        Option::Some(p) => {
                            lemma_span_below_frontier(
                                **p,
                                block_size,
                                stride,
                                addr as int,
                                len as int,
                            );
                            lemma_multiple_gap(b.base as int, p.base as int, stride as int);
                            assert(false);
                        },
                        Option::None => {
                            assert(false);
                        },
                    }
                }
            }
        }
        let mut r: Vec<u8> = Vec::new();
        let mut i: usize = 0;
        while i < len
            invariant
                i <= len,
                b.chain_wf(block_size, stride),
                len > 0 ==> b.base + BLOCK_HEADER_SIZE <= addr && addr + len <= b.base
                    + b.next_item_offset,
                r@.len() == i,
                forall|k: int| 0 <= k < i ==> r@[k] == b.chain_byte(addr + k),
            decreases len - i,
        {
            let byte = b.data[addr - b.base + i];
            r.push(byte);
            i = i + 1;
        }
        proof {
            assert(r@ =~= b.chain_bytes(addr as int, len as int));
        }
        r
    } else {
        match &b.previous_block {
            Option::Some(p) => {
                proof {
                    assert(p.chain_contains_span(addr as int, len as int));
                    lemma_span_below_frontier(**p, block_size, stride, addr as int, len as int);
                    lemma_multiple_gap(b.base as int, p.base as int, stride as int);
                }
                let r = chain_read(p, block_size, stride, addr, len);
                proof {
                    assert forall|k: int| 0 <= k < len implies #[trigger] b.chain_byte(
                        addr + k,
                    ) == p.chain_byte(addr + k) by {
                        assert(addr + k < b.base);
                    }
                    assert(r@ =~= b.chain_bytes(addr as int, len as int));
                }
                r
            },
            Option::None => {
                proof {
                    assert(false);
                }
                Vec::new()
            },
        }
    }
}

/// Divisibility is transitive: if `b` divides `a` and `c` divides `b`,
/// then `c` divides `a`.
proof fn lemma_mod_transitive(a: int, b: int, c: int)
    requires
        a % b == 0,
        b % c == 0,
        b >= 1,
        c >= 1,
    ensures
        a % c == 0,
{
    vstd::arithmetic::div_mod::lemma_fundamental_div_mod(a, b);
    vstd::arithmetic::div_mod::lemma_fundamental_div_mod(b, c);
    let k = a / b;
    let m = b / c;
    assert(a == c * (m * k)) by (nonlinear_arith)
        requires
            a == b * k,
            b == c * m,
    ;
    vstd::arithmetic::div_mod::lemma_mod_multiples_basic(m * k, c);
}

/// Two distinct multiples of `s` differ by at least `s`.
proof fn lemma_multiple_gap(x: int, y: int, s: int)
    requires
        x % s == 0,
        y % s == 0,
        y < x,
        s >= 1,
    ensures
        y + s <= x,
{
    vstd::arithmetic::div_mod::lemma_fundamental_div_mod(x, s);
    vstd::arithmetic::div_mod::lemma_fundamental_div_mod(y, s);
    let qx = x / s;
    let qy = y / s;
    assert(qy < qx) by (nonlinear_arith)
        requires
            s * qy < s * qx,
            s >= 1,
    ;
    assert(y + s <= x) by (nonlinear_arith)
        requires
            x == s * qx,
            y == s * qy,
            qy + 1 <= qx,
            s >= 1,
    ;
}

/// Being able to take `n` blocks survives taking one.
proof fn lemma_can_take_monotone(m: Memory, n: int)
    requires
        n >= 0,
    ensures
        m.can_take_n(n + 1) ==> m.can_take_n(n),
{
    if m.can_take_n(n + 1) {
        assert(n * m.spec_stride() as int <= (n + 1) * m.spec_stride() as int)
            by (nonlinear_arith)
            requires
                n >= 0,
        ;
    }
}

/// The quantified form of taking-capacity monotonicity, for exits that
/// leave the pool untouched.
pub(crate) proof fn lemma_can_take_all_monotone(m: Memory)
    ensures
        forall|n: int| n >= 1 && #[trigger] m.can_take_n(n) ==> m.can_take_n(n - 1),
{
    assert forall|n: int| n >= 1 && #[trigger] m.can_take_n(n) implies m.can_take_n(n - 1) by {
        lemma_can_take_monotone(m, n - 1);
    }
}

/// A span contained in a well-formed chain ends below the chain's frontier
/// and starts past the header of some block, hence at a positive address.
proof fn lemma_span_below_frontier(b: Block, block_size: usize, stride: usize, a: int, s: int)
    requires
        b.chain_wf(block_size, stride),
        b.chain_contains_span(a, s),
        s >= 0,
        block_size <= stride,
        stride >= 1,
    ensures
        a + s <= b.base + b.next_item_offset,
        a >= BLOCK_HEADER_SIZE,
        b.next_item_offset <= block_size,
        b.base as int % stride as int == 0,
    decreases b,
{
    if b.base + BLOCK_HEADER_SIZE <= a && a + s <= b.base + b.next_item_offset {
    } else {
        match b.previous_block {
            Option::Some(p) => {
                lemma_span_below_frontier(*p, block_size, stride, a, s);
                lemma_multiple_gap(b.base as int, p.base as int, stride as int);
                assert(a + s <= p.base + block_size <= b.base + b.next_item_offset);
            },
            Option::None => {},
        }
    }
}

/// After a push into the last block, everything placed before is still
/// placed, bytes are unchanged, and the new span is placed.
proof fn lemma_placed_in_grown_block(pre: ArenaMetadata, post: ArenaMetadata, addr: int, size: int)
    requires
        pre.last_block is Some,
        post.last_block is Some,
        post.last_block->0.base == pre.last_block->0.base,
        post.last_block->0.data == pre.last_block->0.data,
        post.last_block->0.previous_block == pre.last_block->0.previous_block,
        post.last_block->0.next_item_offset >= pre.last_block->0.next_item_offset,
        post.last_block->0.base + BLOCK_HEADER_SIZE <= addr,
        addr + size == post.last_block->0.base + post.last_block->0.next_item_offset,
        size >= 0,
    ensures
        forall|a: int, s: int| pre.span_placed(a, s) ==> post.span_placed(a, s),
        forall|a: int| post.byte_at(a) == pre.byte_at(a),
        post.span_placed(addr, size),
{
    let b1 = pre.last_block->0;
    let b2 = post.last_block->0;
    assert forall|a: int, s: int| pre.span_placed(a, s) implies post.span_placed(a, s) by {
        assert(b1.chain_contains_span(a, s));
        assert(b2.chain_contains_span(a, s));
    }
    assert forall|a: int| post.byte_at(a) == pre.byte_at(a) by {
        assert(b2.chain_byte(a) == b1.chain_byte(a));
    }
}

/// After wrapping the old chain under a fresh block and pushing into it,
/// old spans and bytes survive and the new span is placed.
proof fn lemma_placed_in_new_block(
    pre: ArenaMetadata,
    post: ArenaMetadata,
    prev: Block,
    addr: int,
    size: int,
)
    requires
        pre.wf(),
        pre.last_block is Some,
        prev.base == pre.last_block->0.base,
        prev.data == pre.last_block->0.data,
        prev.next_item_offset == pre.last_block->0.next_item_offset,
        prev.previous_block == pre.last_block->0.previous_block,
        post.last_block is Some,
        post.last_block->0.previous_block == Option::Some(Box::new(prev)),
        post.last_block->0.base >= prev.base + pre.stride,
        post.last_block->0.data@.len() == pre.block_size,
        post.block_size == pre.block_size,
        post.stride == pre.stride,
        post.last_block->0.base + BLOCK_HEADER_SIZE <= addr,
        addr + size == post.last_block->0.base + post.last_block->0.next_item_offset,
        size >= 0,
    ensures
        forall|a: int, s: int| pre.span_placed(a, s) ==> post.span_placed(a, s),
        forall|a: int| pre.span_placed(a, 1) ==> post.byte_at(a) == pre.byte_at(a),
        post.span_placed(addr, size),
        pre.frontier() <= post.frontier(),
{
    let b1 = pre.last_block->0;
    let b2 = post.last_block->0;
    assert forall|a: int, s: int| pre.span_placed(a, s) implies post.span_placed(a, s) by {
        assert(b1.chain_contains_span(a, s));
        assert(prev.chain_contains_span(a, s) == b1.chain_contains_span(a, s));
        assert(b2.chain_contains_span(a, s));
    }
    assert forall|a: int| pre.span_placed(a, 1) implies post.byte_at(a) == pre.byte_at(a) by {
        lemma_span_below_frontier(b1, pre.block_size, pre.stride, a, 1);
        assert(a < b2.base);
        assert(prev.chain_byte(a) == b1.chain_byte(a));
        assert(b2.chain_byte(a) == prev.chain_byte(a));
    }
}

/// After writing bytes at the cursor of the last block, old spans and
/// their bytes survive, and the written span holds exactly the new bytes.
proof fn lemma_bytes_in_grown_block(
    pre: ArenaMetadata,
    post: ArenaMetadata,
    addr: int,
    size: int,
    bytes: Seq<u8>,
)
    requires
        pre.wf(),
        pre.last_block is Some,
        post.last_block is Some,
        post.last_block->0.base == pre.last_block->0.base,
        post.last_block->0.data@.len() == pre.last_block->0.data@.len(),
        post.last_block->0.previous_block == pre.last_block->0.previous_block,
        post.last_block->0.next_item_offset >= pre.last_block->0.next_item_offset,
        addr == pre.last_block->0.base + pre.last_block->0.next_item_offset,
        addr + size == post.last_block->0.base + post.last_block->0.next_item_offset,
        size == bytes.len(),
        addr - post.last_block->0.base + size <= post.last_block->0.data@.len(),
        forall|i: int|
            0 <= i < size ==> post.last_block->0.data@[addr - post.last_block->0.base + i]
                == bytes[i],
        forall|i: int|
            0 <= i < pre.last_block->0.data@.len() && !(addr - pre.last_block->0.base <= i < addr
                - pre.last_block->0.base + size) ==> post.last_block->0.data@[i]
                == pre.last_block->0.data@[i],
    ensures
        forall|a: int, s: int| pre.span_placed(a, s) ==> post.span_placed(a, s),
        forall|a: int| pre.span_placed(a, 1) ==> post.byte_at(a) == pre.byte_at(a),
        post.span_placed(addr, size),
        post.bytes_at(addr, size) == bytes,
        pre.frontier() <= post.frontier(),
{
    let b1 = pre.last_block->0;
    let b2 = post.last_block->0;
    assert forall|a: int, s: int| pre.span_placed(a, s) implies post.span_placed(a, s) by {
        assert(b1.chain_contains_span(a, s));
        assert(b2.chain_contains_span(a, s));
    }
    assert forall|a: int| pre.span_placed(a, 1) implies post.byte_at(a) == pre.byte_at(a) by {
        lemma_span_below_frontier(b1, pre.block_size, pre.stride, a, 1);
        assert(b2.chain_byte(a) == b1.chain_byte(a));
    }
    assert(post.bytes_at(addr, size) =~= bytes);
}

/// After writing bytes right past the header of a fresh block wrapped over
/// the old chain, old spans and bytes survive and the span holds the bytes.
proof fn lemma_bytes_in_fresh_block(
    pre: ArenaMetadata,
    post: ArenaMetadata,
    prev: Block,
    addr: int,
    size: int,
    bytes: Seq<u8>,
)
    requires
        pre.wf(),
        pre.last_block is Some,
        prev.base == pre.last_block->0.base,
        prev.data == pre.last_block->0.data,
        prev.next_item_offset == pre.last_block->0.next_item_offset,
        prev.previous_block == pre.last_block->0.previous_block,
        post.last_block is Some,
        post.last_block->0.previous_block == Option::Some(Box::new(prev)),
        post.last_block->0.base >= prev.base + pre.stride,
        post.last_block->0.data@.len() == pre.block_size,
        post.block_size == pre.block_size,
        post.stride == pre.stride,
        addr == post.last_block->0.base + BLOCK_HEADER_SIZE,
        addr + size == post.last_block->0.base + post.last_block->0.next_item_offset,
        size == bytes.len(),
        addr - post.last_block->0.base + size <= post.last_block->0.data@.len(),
        forall|i: int|
            0 <= i < size ==> post.last_block->0.data@[addr - post.last_block->0.base + i]
                == bytes[i],
    ensures
        forall|a: int, s: int| pre.span_placed(a, s) ==> post.span_placed(a, s),
        forall|a: int| pre.span_placed(a, 1) ==> post.byte_at(a) == pre.byte_at(a),
        post.span_placed(addr, size),
        post.bytes_at(addr, size) == bytes,
        pre.frontier() <= post.frontier(),
{
    let b1 = pre.last_block->0;
    let b2 = post.last_block->0;
    assert forall|a: int, s: int| pre.span_placed(a, s) implies post.span_placed(a, s) by {
        assert(b1.chain_contains_span(a, s));
        assert(prev.chain_contains_span(a, s) == b1.chain_contains_span(a, s));
        assert(b2.chain_contains_span(a, s));
    }
    assert forall|a: int| pre.span_placed(a, 1) implies post.byte_at(a) == pre.byte_at(a) by {
        lemma_span_below_frontier(b1, pre.block_size, pre.stride, a, 1);
        assert(a < b2.base);
        assert(prev.chain_byte(a) == b1.chain_byte(a));
        assert(b2.chain_byte(a) == prev.chain_byte(a));
    }
    lemma_span_below_frontier(b1, pre.block_size, pre.stride, b1.base + BLOCK_HEADER_SIZE, 0);
    assert(post.bytes_at(addr, size) =~= bytes);
}

/// An absolute address aligned within its block is aligned absolutely, for
/// any alignment that divides the base alignment.
proof fn lemma_base_alignment(post: ArenaMetadata, addr: int, align: int)
    requires
        post.wf(),
        post.last_block is Some,
        (addr - post.last_block->0.base) % align == 0,
        align >= 1,
    ensures
        BASE_ALIGN as int % align == 0 ==> addr % align == 0,
{
    let base = post.last_block->0.base as int;
    let stride = post.stride as int;
    if BASE_ALIGN as int % align == 0 {
        lemma_mod_transitive(stride, BASE_ALIGN as int, align);
        lemma_mod_transitive(base, stride, align);
        vstd::arithmetic::div_mod::lemma_add_mod_noop(base, addr - base, align);
        assert(addr % align == 0) by {
            assert(base % align == 0 && (addr - base) % align == 0);
            assert((base % align + (addr - base) % align) % align == addr % align);
            assert((0int + 0int) % align == 0) by (nonlinear_arith)
                requires
                    align >= 1,
            ;
        }
    }
}

/// Destructor thunks, in registration order, of the first `l` drop-list
/// nodes.
pub open spec fn items_of_lists(lists: Seq<DropList>, l: int) -> Seq<DropItem>
    decreases l,
{
    if l <= 0 {
        Seq::empty()
    } else {
        items_of_lists(lists, l - 1) + lists[l - 1].items@
    }
}

/// The concatenated thunks of the first `l` nodes depend only on those
/// nodes' slot contents.
proof fn lemma_items_of_lists_agree(l1: Seq<DropList>, l2: Seq<DropList>, l: int)
    requires
        l <= l1.len(),
        l <= l2.len(),
        forall|i: int| 0 <= i < l ==> (#[trigger] l1[i]).items@ == l2[i].items@,
    ensures
        items_of_lists(l1, l) == items_of_lists(l2, l),
    decreases l,
{
    if l > 0 {
        lemma_items_of_lists_agree(l1, l2, l - 1);
    }
}

/// A weak arena reference: it keeps the memory mapped until released, but
/// does not keep the destructor chain from running.
///
/// As long as the strong count is positive this reference can be upgraded.
/// Once the arena is no longer alive, the memory can no longer be written,
/// and the drop functions for all registered objects have been executed;
/// bytes placed without a destructor stay readable while any weak
/// reference is held.
pub struct WeakArena {}

/// The strong arena handle: it gates the execution of the destructor
/// chain. All operations take the arena state [`ArenaMetadata`] and, where
/// blocks may move, the pool, as explicit arguments; creating or releasing
/// a handle is an explicit reference-count step.
pub struct Arena {}

impl Arena {
    /// Build a new arena on one block taken from the pool: the first
    /// drop-list node and the metadata record are placed into that block.
    /// On failure the taken block stays with the pool's address space but
    /// is not returned, because the caller retains no handle to it.
    pub fn new(memory: &mut Memory) -> (r: Result<(Arena, ArenaMetadata), UploadError>)
        requires
            old(memory).wf(),
            old(memory).can_take_n(1),
        ensures
            final(memory).wf(),
            final(memory).same_config(old(memory)),
            final(memory).spec_free_count() == old(memory).spec_count_after_refill() - 1,
            final(memory).spec_next_base() == old(memory).spec_next_base() + old(
                memory,
            ).spec_stride(),
            forall|n: int|
                n >= 1 && old(memory).can_take_n(n) ==> final(memory).can_take_n(n - 1),
            match r {
                Result::Ok((a, md)) => {
                    &&& md.wf()
                    &&& md.strong_rc == 1
                    &&& md.rc == 1
                    &&& md.is_alive()
                    &&& !md.drained
                    &&& md.last_block is Some
                    &&& md.compatible_with(final(memory))
                    &&& md.bases_below(final(memory).spec_next_base() as int)
                    &&& md.all_items() == Seq::<DropItem>::empty()
                    &&& md.drop_log@ == Seq::<usize>::empty()
                    &&& md.expected_drain() == Seq::<usize>::empty()
                    &&& md.cells@.len() == 0
                    &&& md.fixed_arrays@.len() == 0
                    &&& md.growable_arrays@.len() == 0
                    &&& md.block_count() == 1
                    &&& md.last_drop_list.items@.len() == 0
                },
                Result::Err(e) => {
                    &&& (e == UploadError::DropListDoesNotFit || e
                        == UploadError::MetadataDoesNotFit)
                    &&& (e == UploadError::DropListDoesNotFit <==> (old(
                        memory,
                    ).spec_block_size() as int) < BLOCK_HEADER_SIZE + DROP_LIST_BYTE_SIZE)
                    &&& (e == UploadError::MetadataDoesNotFit <==> BLOCK_HEADER_SIZE
                        + DROP_LIST_BYTE_SIZE <= (old(memory).spec_block_size() as int)
                        < BLOCK_HEADER_SIZE + DROP_LIST_BYTE_SIZE + ARENA_METADATA_BYTE_SIZE)
                },
            },
            r is Ok <==> old(memory).spec_block_size() >= BLOCK_HEADER_SIZE + DROP_LIST_BYTE_SIZE
                + ARENA_METADATA_BYTE_SIZE,
    {
        let block_size = memory.shared.new_block_size;
        let stride = memory.shared.stride;
        let (buf, base) = memory.take_block();
        if buf.len() < BLOCK_HEADER_SIZE + DROP_LIST_BYTE_SIZE {
            return Err(UploadError::DropListDoesNotFit);
        }
        let mut block = Block::new(buf, base);
        let dl_addr: usize;
        match block.push_region(DROP_LIST_BYTE_SIZE, DROP_LIST_ALIGN) {
            Result::Ok(a) => {
                dl_addr = a;
            },
            Result::Err(e) => {
                proof {
                    crate::block::lemma_pad_zero(BLOCK_HEADER_SIZE as int, DROP_LIST_ALIGN as int);
                    assert(false);
                }
                return Err(UploadError::DropListDoesNotFit);
            },
        }
        proof {
            crate::block::lemma_pad_zero(BLOCK_HEADER_SIZE as int, DROP_LIST_ALIGN as int);
            crate::block::lemma_pad_zero(
                BLOCK_HEADER_SIZE + DROP_LIST_BYTE_SIZE as int,
                ARENA_METADATA_ALIGN as int,
            );
        }
        match block.push_region(ARENA_METADATA_BYTE_SIZE, ARENA_METADATA_ALIGN) {
            Result::Ok(a) => {},
            Result::Err(e) => {
                return Err(UploadError::MetadataDoesNotFit);
            },
        }
        let mut first = DropList::empty();
        first.addr = dl_addr;
        let md = ArenaMetadata {
            block_size,
            stride,
            last_block: Some(block),
            full_drop_lists: Vec::new(),
            last_drop_list: first,
            drained: false,
            strong_rc: 1,
            rc: 1,
            cells: Vec::new(),
            fixed_arrays: Vec::new(),
            growable_arrays: Vec::new(),
            drop_log: Vec::new(),
        };
        proof {
            assert(items_of_lists(md.lists_seq(), 0) =~= Seq::<DropItem>::empty());
            assert(md.all_items() =~= Seq::<DropItem>::empty());
            assert(md.expected_drain() =~= Seq::<usize>::empty());
            assert(md.last_block->0.chain_wf(md.block_size, md.stride));
            assert(md.wf());
        }
        Ok((Arena {  }, md))
    }

    /// Place a value span with a registered destructor through the strong
    /// handle; aliveness is implied by holding it.
    pub fn upload_auto_drop(
        &self,
        md: &mut ArenaMetadata,
        mem: &mut Memory,
        size: usize,
        align: usize,
    ) -> (r: Result<usize, UploadError>)
        requires
            old(md).wf(),
            old(md).is_alive(),
            !old(md).drained,
            old(md).last_block is Some,
            1 <= align <= MAX_SUPPORTED_ALIGN,
            old(mem).wf(),
            old(mem).can_take_n(2),
            old(md).compatible_with(old(mem)),
            old(md).bases_below(old(mem).spec_next_base() as int),
        ensures
            ArenaMetadata::placement_common(*old(md), *final(md), *old(mem), *final(mem), 2),
            ArenaMetadata::registries_unchanged(*old(md), *final(md)),
            match r {
                Result::Ok(addr) => {
                    &&& final(md).span_placed(addr as int, size as int)
                    &&& (BASE_ALIGN as int % align as int == 0 ==> addr as int % align as int
                        == 0)
                    &&& addr >= old(md).frontier()
                    &&& final(md).all_items() == old(md).all_items().push(
                        DropItem { fun: DropFn::Value, data: addr },
                    )
                },
                Result::Err(e) => {
                    &&& e == UploadError::ItemDoesNotFit
                    &&& final(md).all_items() == old(md).all_items()
                },
            },
            r is Ok <==> old(md).can_place(size as int, align as int),
    {
        md.upload_auto_drop(mem, size, align)
    }

    /// Place a value span without registering a destructor.
    pub fn upload_no_drop(
        &self,
        md: &mut ArenaMetadata,
        mem: &mut Memory,
        size: usize,
        align: usize,
    ) -> (r: Result<usize, UploadError>)
        requires
            old(md).wf(),
            old(md).is_alive(),
            old(md).last_block is Some,
            1 <= align <= MAX_SUPPORTED_ALIGN,
            old(mem).wf(),
            old(mem).can_take_n(1),
            old(md).compatible_with(old(mem)),
            old(md).bases_below(old(mem).spec_next_base() as int),
        ensures
            ArenaMetadata::placement_common(*old(md), *final(md), *old(mem), *final(mem), 1),
            ArenaMetadata::registries_unchanged(*old(md), *final(md)),
            final(md).all_items() == old(md).all_items(),
            r is Ok <==> old(md).can_place(size as int, align as int),
            match r {
                Result::Ok(addr) => {
                    &&& final(md).span_placed(addr as int, size as int)
                    &&& (BASE_ALIGN as int % align as int == 0 ==> addr as int % align as int
                        == 0)
                    &&& addr >= old(md).frontier()
                },
                Result::Err(e) => {
                    &&& e == UploadError::ItemDoesNotFit
                    &&& *final(md) == *old(md)
                    &&& *final(mem) == *old(mem)
                },
            },
    {
        let r = md.upload_no_drop(mem, size, align);
        r
    }

    /// Place a chunk of bytes without a destructor.
    pub fn upload_no_drop_bytes(&self, md: &mut ArenaMetadata, mem: &mut Memory, bytes: &Vec<u8>)
        -> (r: Result<usize, UploadError>)
        requires
            old(md).wf(),
            old(md).is_alive(),
            old(md).last_block is Some,
            old(mem).wf(),
            old(mem).can_take_n(1),
            old(md).compatible_with(old(mem)),
            old(md).bases_below(old(mem).spec_next_base() as int),
        ensures
            ArenaMetadata::placement_common(*old(md), *final(md), *old(mem), *final(mem), 1),
            ArenaMetadata::registries_unchanged(*old(md), *final(md)),
            final(md).all_items() == old(md).all_items(),
            r is Ok <==> old(md).can_place(bytes@.len() as int, 1),
            match r {
                Result::Ok(addr) => {
                    &&& final(md).span_placed(addr as int, bytes@.len() as int)
                    &&& addr >= old(md).frontier()
                    &&& final(md).bytes_at(addr as int, bytes@.len() as int) == bytes@
                },
                Result::Err(e) => {
                    &&& e == UploadError::ItemDoesNotFit
                    &&& *final(md) == *old(md)
                    &&& *final(mem) == *old(mem)
                },
            },
    {
        let r = md.upload_no_drop_bytes(mem, bytes);
        r
    }

    /// Reserve an uninitialized aligned region for `len` items.
    pub fn alloc_no_drop_items_aligned_uninit(
        &self,
        md: &mut ArenaMetadata,
        mem: &mut Memory,
        len: usize,
        offset_between_items: usize,
        align: usize,
    ) -> (r: Result<usize, UploadError>)
        requires
            old(md).wf(),
            old(md).is_alive(),
            old(md).last_block is Some,
            1 <= align <= MAX_SUPPORTED_ALIGN,
            len * offset_between_items <= usize::MAX,
            old(mem).wf(),
            old(mem).can_take_n(1),
            old(md).compatible_with(old(mem)),
            old(md).bases_below(old(mem).spec_next_base() as int),
        ensures
            ArenaMetadata::placement_common(*old(md), *final(md), *old(mem), *final(mem), 1),
            ArenaMetadata::registries_unchanged(*old(md), *final(md)),
            final(md).all_items() == old(md).all_items(),
            r is Ok <==> old(md).can_place(len * offset_between_items, align as int),
            match r {
                Result::Ok(addr) => {
                    &&& final(md).span_placed(addr as int, len * offset_between_items)
                    &&& (BASE_ALIGN as int % align as int == 0 ==> addr as int % align as int
                        == 0)
                    &&& addr >= old(md).frontier()
                    &&& addr + len * offset_between_items <= usize::MAX
                },
                Result::Err(e) => {
                    &&& e == UploadError::ItemDoesNotFit
                    &&& *final(md) == *old(md)
                    &&& *final(mem) == *old(mem)
                },
            },
    {
        let r = md.alloc_no_drop_items_aligned_uninit(mem, len, offset_between_items, align);
        proof {
            assert(final(md).all_items() == old(md).all_items());
        }
        r
    }

    /// Register a custom destructor thunk through the strong handle.
    pub fn push_custom_drop_fn(
        &self,
        md: &mut ArenaMetadata,
        mem: &mut Memory,
        fun: DropFn,
        data: usize,
    ) -> (r: Result<(), UploadError>)
        requires
            old(md).wf(),
            old(md).is_alive(),
            !old(md).drained,
            old(md).last_block is Some,
            old(mem).wf(),
            old(mem).can_take_n(1),
            old(md).compatible_with(old(mem)),
            old(md).bases_below(old(mem).spec_next_base() as int),
            item_wf(
                DropItem { fun, data },
                old(md).cells@,
                old(md).fixed_arrays@,
                old(md).growable_arrays@,
            ),
        ensures
            ArenaMetadata::placement_common(*old(md), *final(md), *old(mem), *final(mem), 1),
            ArenaMetadata::registries_unchanged(*old(md), *final(md)),
            match r {
                Result::Ok(u) => final(md).all_items() == old(md).all_items().push(
                    DropItem { fun, data },
                ),
                Result::Err(e) => {
                    &&& e == UploadError::DropListDoesNotFit
                    &&& *final(md) == *old(md)
                    &&& *final(mem) == *old(mem)
                },
            },
            old(md).last_drop_list.items@.len() < MAX_DROP_LIST_ITEMS ==> r is Ok,
    {
        md.push_custom_drop_fn(mem, fun, data)
    }

    /// Clone as a weak reference: the total count goes up by one.
    pub fn to_weak_arena(&self, md: &mut ArenaMetadata) -> (r: WeakArena)
        requires
            old(md).rc < i64::MAX,
        ensures
            *final(md) == (ArenaMetadata { rc: (old(md).rc + 1) as i64, ..*old(md) }),
    {
        md.inc_weak();
        WeakArena {  }
    }

    /// Clone the strong handle: both counts go up by one.
    pub fn clone_handle(&self, md: &mut ArenaMetadata) -> (r: Arena)
        requires
            old(md).strong_rc < i64::MAX,
            old(md).rc < i64::MAX,
        ensures
            *final(md) == (ArenaMetadata {
                strong_rc: (old(md).strong_rc + 1) as i64,
                rc: (old(md).rc + 1) as i64,
                ..*old(md)
            }),
    {
        md.inc_rc();
        Arena {  }
    }

    /// Drop the strong handle: when the strong count reaches zero the drop
    /// chain runs exactly once, and when the total count reaches zero the
    /// blocks go back to the pool.
    pub fn release(self, md: &mut ArenaMetadata, mem: &mut Memory)
        requires
            old(md).wf(),
            old(md).strong_rc >= 1,
            old(mem).wf(),
            old(md).compatible_with(old(mem)),
        ensures
            final(md).wf(),
            final(md).strong_rc == old(md).strong_rc - 1,
            final(md).rc == old(md).rc - 1,
            final(md).block_size == old(md).block_size,
            final(md).stride == old(md).stride,
            final(md).cells == old(md).cells,
            final(md).fixed_arrays == old(md).fixed_arrays,
            final(md).growable_arrays == old(md).growable_arrays,
            final(mem).same_config(old(mem)),
            final(mem).wf(),
            final(md).compatible_with(final(mem)) == old(md).compatible_with(old(mem)),
            if old(md).strong_rc == 1 {
                final(md).drained && final(md).drop_log@ == old(md).drop_log@ + old(
                    md,
                ).expected_drain() && final(md).all_items() == Seq::<DropItem>::empty()
            } else {
                final(md).drained == old(md).drained && final(md).drop_log == old(md).drop_log
                    && final(md).all_items() == old(md).all_items()
            },
            if old(md).rc == 1 {
                final(md).last_block is None && final(mem).spec_free_count() == old(
                    mem,
                ).spec_free_count() + old(md).block_count()
            } else {
                final(md).last_block == old(md).last_block && *final(mem) == *old(mem)
            },
            old(md).rc > 1 ==> forall|a: int| final(md).byte_at(a) == old(md).byte_at(a),
            old(md).rc > 1 ==> forall|a: int, s: int|
                old(md).span_placed(a, s) ==> final(md).span_placed(a, s),
    {
        md.dec_rc();
        if md.strong_rc == 0 {
            md.drop_objects();
        }
        if md.rc == 0 {
            md.reclaim_memory(mem);
        }
    }
}

impl WeakArena {
    /// Returns true if the drop functions for the arena's objects have not
    /// been executed yet (the arena is still alive).
    pub fn is_alive(&self, md: &ArenaMetadata) -> (r: bool)
        ensures
            r == md.is_alive(),
    {
        md.strong_rc > 0
    }

    /// Place a value span with a registered destructor, or report that the
    /// arena is no longer alive.
    pub fn upload_auto_drop(
        &self,
        md: &mut ArenaMetadata,
        mem: &mut Memory,
        size: usize,
        align: usize,
    ) -> (r: Result<usize, UploadError>)
        requires
            old(md).wf(),
            old(md).is_alive() ==> !old(md).drained && old(md).last_block is Some,
            1 <= align <= MAX_SUPPORTED_ALIGN,
            old(mem).wf(),
            old(mem).can_take_n(2),
            old(md).compatible_with(old(mem)),
            old(md).bases_below(old(mem).spec_next_base() as int),
        ensures
            !old(md).is_alive() ==> r == Result::<usize, UploadError>::Err(
                UploadError::ArenaIsNotAlive,
            ) && *final(md) == *old(md) && *final(mem) == *old(mem),
            old(md).is_alive() ==> ({
                &&& ArenaMetadata::placement_common(
                    *old(md),
                    *final(md),
                    *old(mem),
                    *final(mem),
                    2,
                )
                &&& ArenaMetadata::registries_unchanged(*old(md), *final(md))
                &&& (r is Ok <==> old(md).can_place(size as int, align as int))
                &&& match r {
                    Result::Ok(addr) => {
                        &&& final(md).span_placed(addr as int, size as int)
                        &&& (BASE_ALIGN as int % align as int == 0 ==> addr as int
                            % align as int == 0)
                        &&& addr >= old(md).frontier()
                        &&& final(md).all_items() == old(md).all_items().push(
                            DropItem { fun: DropFn::Value, data: addr },
                        )
                    },
                    Result::Err(e) => {
                        &&& e == UploadError::ItemDoesNotFit
                        &&& final(md).all_items() == old(md).all_items()
                    },
                }
            }),
    {
        if md.strong_rc > 0 {
            md.upload_auto_drop(mem, size, align)
        } else {
            Err(UploadError::ArenaIsNotAlive)
        }
    }

    /// Place a value span without a destructor, or report that the arena
    /// is no longer alive.
    pub fn upload_no_drop(
        &self,
        md: &mut ArenaMetadata,
        mem: &mut Memory,
        size: usize,
        align: usize,
    ) -> (r: Result<usize, UploadError>)
        requires
            old(md).wf(),
            old(md).is_alive() ==> old(md).last_block is Some,
            1 <= align <= MAX_SUPPORTED_ALIGN,
            old(mem).wf(),
            old(mem).can_take_n(1),
            old(md).compatible_with(old(mem)),
            old(md).bases_below(old(mem).spec_next_base() as int),
        ensures
            !old(md).is_alive() ==> r == Result::<usize, UploadError>::Err(
                UploadError::ArenaIsNotAlive,
            ) && *final(md) == *old(md) && *final(mem) == *old(mem),
            old(md).is_alive() ==> ({
                &&& ArenaMetadata::placement_common(
                    *old(md),
                    *final(md),
                    *old(mem),
                    *final(mem),
                    1,
                )
                &&& ArenaMetadata::registries_unchanged(*old(md), *final(md))
                &&& final(md).all_items() == old(md).all_items()
                &&& (r is Ok <==> old(md).can_place(size as int, align as int))
                &&& match r {
                    Result::Ok(addr) => {
                        &&& final(md).span_placed(addr as int, size as int)
                        &&& addr >= old(md).frontier()
                    },
                    Result::Err(e) => e == UploadError::ItemDoesNotFit,
                }
            }),
    {
        if md.strong_rc > 0 {
            md.upload_no_drop(mem, size, align)
        } else {
            Err(UploadError::ArenaIsNotAlive)
        }
    }

    /// Place a chunk of bytes without a destructor, or report that the
    /// arena is no longer alive.
    pub fn upload_no_drop_bytes(&self, md: &mut ArenaMetadata, mem: &mut Memory, bytes: &Vec<u8>)
        -> (r: Result<usize, UploadError>)
        requires
            old(md).wf(),
            old(md).is_alive() ==> old(md).last_block is Some,
            old(mem).wf(),
            old(mem).can_take_n(1),
            old(md).compatible_with(old(mem)),
            old(md).bases_below(old(mem).spec_next_base() as int),
        ensures
            !old(md).is_alive() ==> r == Result::<usize, UploadError>::Err(
                UploadError::ArenaIsNotAlive,
            ) && *final(md) == *old(md) && *final(mem) == *old(mem),
            old(md).is_alive() ==> ({
                &&& ArenaMetadata::placement_common(
                    *old(md),
                    *final(md),
                    *old(mem),
                    *final(mem),
                    1,
                )
                &&& ArenaMetadata::registries_unchanged(*old(md), *final(md))
                &&& final(md).all_items() == old(md).all_items()
                &&& (r is Ok <==> old(md).can_place(bytes@.len() as int, 1))
                &&& match r {
                    Result::Ok(addr) => {
                        &&& final(md).span_placed(addr as int, bytes@.len() as int)
                        &&& addr >= old(md).frontier()
                        &&& final(md).bytes_at(addr as int, bytes@.len() as int) == bytes@
                    },
                    Result::Err(e) => e == UploadError::ItemDoesNotFit,
                }
            }),
    {
        if md.strong_rc > 0 {
            md.upload_no_drop_bytes(mem, bytes)
        } else {
            Err(UploadError::ArenaIsNotAlive)
        }
    }

    /// Try to upgrade to a strong handle; succeeds exactly while the arena
    /// is alive.
    pub fn arena(&self, md: &mut ArenaMetadata) -> (r: Option<Arena>)
        requires
            old(md).strong_rc < i64::MAX,
            old(md).rc < i64::MAX,
        ensures
            r is Some <==> old(md).is_alive(),
            old(md).is_alive() ==> *final(md) == (ArenaMetadata {
                strong_rc: (old(md).strong_rc + 1) as i64,
                rc: (old(md).rc + 1) as i64,
                ..*old(md)
            }),
            !old(md).is_alive() ==> *final(md) == *old(md),
    {
        if md.strong_rc > 0 {
            md.inc_rc();
            Some(Arena {  })
        } else {
            None
        }
    }

    /// Clone the weak handle: the total count goes up by one.
    pub fn clone_handle(&self, md: &mut ArenaMetadata) -> (r: WeakArena)
        requires
            old(md).rc < i64::MAX,
        ensures
            *final(md) == (ArenaMetadata { rc: (old(md).rc + 1) as i64, ..*old(md) }),
    {
        md.inc_weak();
        WeakArena {  }
    }

    /// Drop the weak handle: when the total count reaches zero every block
    /// goes back to the pool.
    pub fn release(self, md: &mut ArenaMetadata, mem: &mut Memory)
        requires
            old(md).wf(),
            old(md).rc >= 1,
            old(md).rc >= old(md).strong_rc + 1,
            old(mem).wf(),
            old(md).compatible_with(old(mem)),
        ensures
            final(md).wf(),
            final(md).strong_rc == old(md).strong_rc,
            final(md).rc == old(md).rc - 1,
            final(md).block_size == old(md).block_size,
            final(md).stride == old(md).stride,
            final(md).drop_log == old(md).drop_log,
            final(md).drained == old(md).drained,
            ArenaMetadata::registries_unchanged(*old(md), *final(md)),
            final(mem).same_config(old(mem)),
            final(mem).wf(),
            final(md).compatible_with(final(mem)) == old(md).compatible_with(old(mem)),
            if old(md).rc == 1 {
                final(md).last_block is None && final(mem).spec_free_count() == old(
                    mem,
                ).spec_free_count() + old(md).block_count()
            } else {
                final(md).last_block == old(md).last_block && *final(mem) == *old(mem)
            },
    {
        md.dec_weak();
        if md.rc == 0 {
            md.reclaim_memory(mem);
        }
    }
}

/// Destroying a cell destroys the same addresses when later cells are
/// recorded: a cell's destruction sequence depends only on the records up
/// to the ones it can reach.
proof fn lemma_cell_drain_grow(cells1: Seq<CellRecord>, cells2: Seq<CellRecord>, i: int)
    requires
        cells_wf(cells1),
        cells1.len() <= cells2.len(),
        forall|j: int| 0 <= j < cells1.len() ==> cells1[j] == cells2[j],
        0 <= i < cells1.len(),
    ensures
        cell_drain(cells2, i) == cell_drain(cells1, i),
    decreases cells1.len() - i, cells1[i].outlives@.len() + 1,
{
    lemma_cell_entries_drain_grow(cells1, cells2, i, cells1[i].outlives@.len() as int);
}

/// The entry-by-entry form of `lemma_cell_drain_grow`.
proof fn lemma_cell_entries_drain_grow(
    cells1: Seq<CellRecord>,
    cells2: Seq<CellRecord>,
    i: int,
    k: int,
)
    requires
        cells_wf(cells1),
        cells1.len() <= cells2.len(),
        forall|j: int| 0 <= j < cells1.len() ==> cells1[j] == cells2[j],
        0 <= i < cells1.len(),
        k <= cells1[i].outlives@.len(),
    ensures
        cell_entries_drain(cells2, i, k) == cell_entries_drain(cells1, i, k),
    decreases cells1.len() - i, k,
{
    if 0 < k {
        let j = cells1[i].outlives@[k - 1] as int;
        lemma_cell_drain_grow(cells1, cells2, j);
        lemma_cell_entries_drain_grow(cells1, cells2, i, k - 1);
    }
}

/// Thunks registered before a new cell was recorded drain the same
/// addresses afterwards.
proof fn lemma_items_drain_cells_grow(
    items: Seq<DropItem>,
    cells1: Seq<CellRecord>,
    cells2: Seq<CellRecord>,
    fixed: Seq<FixedArrayRecord>,
    growable: Seq<GrowableArrayRecord>,
    j: int,
)
    requires
        cells_wf(cells1),
        cells1.len() <= cells2.len(),
        forall|p: int| 0 <= p < cells1.len() ==> cells1[p] == cells2[p],
        j <= items.len(),
        forall|p: int| 0 <= p < j ==> item_wf(#[trigger] items[p], cells1, fixed, growable),
    ensures
        items_drain(items, cells2, fixed, growable, j) == items_drain(
            items,
            cells1,
            fixed,
            growable,
            j,
        ),
    decreases j,
{
    if j > 0 {
        lemma_items_drain_cells_grow(items, cells1, cells2, fixed, growable, j - 1);
        match items[j - 1].fun {
            DropFn::Cell(ci) => {
                lemma_cell_drain_grow(cells1, cells2, ci as int);
            },
            _ => {},
        }
    }
}

/// LAW: a value placed with a registered destructor is destroyed exactly
/// once, at its registration position. Registering one thunk appends
/// exactly that thunk's addresses to the arena's destruction sequence; in
/// particular, after a plain value placement the sequence grows by exactly
/// the placed value's address, at the end.
pub proof fn lemma_drain_after_registration(pre: ArenaMetadata, post: ArenaMetadata, it: DropItem)
    requires
        post.all_items() == pre.all_items().push(it),
        post.cells@ == pre.cells@,
        post.fixed_arrays@ == pre.fixed_arrays@,
        post.growable_arrays@ == pre.growable_arrays@,
    ensures
        post.expected_drain() == pre.expected_drain() + item_drain(
            it,
            post.cells@,
            post.fixed_arrays@,
            post.growable_arrays@,
        ),
        it.fun == DropFn::Value ==> post.expected_drain() == pre.expected_drain().push(it.data),
{
    let items1 = pre.all_items();
    let items2 = post.all_items();
    lemma_items_drain_agree(
        items2,
        items1,
        post.cells@,
        post.fixed_arrays@,
        post.growable_arrays@,
        items1.len() as int,
    );
    assert(items2[items2.len() - 1] == it);
    if it.fun == DropFn::Value {
        assert(item_drain(it, post.cells@, post.fixed_arrays@, post.growable_arrays@)
            =~= seq![it.data]);
        assert(pre.expected_drain() + seq![it.data] =~= pre.expected_drain().push(it.data));
    }
}

/// LAW: a value whose address is not already in the destruction sequence
/// and is then placed with a registered destructor appears in the sequence
/// exactly once: at the end, and nowhere else.
pub proof fn lemma_value_destroyed_exactly_once(
    pre: ArenaMetadata,
    post: ArenaMetadata,
    addr: usize,
)
    requires
        post.all_items() == pre.all_items().push(DropItem { fun: DropFn::Value, data: addr }),
        post.cells@ == pre.cells@,
        post.fixed_arrays@ == pre.fixed_arrays@,
        post.growable_arrays@ == pre.growable_arrays@,
        !pre.expected_drain().contains(addr),
    ensures
        post.expected_drain() == pre.expected_drain().push(addr),
        post.expected_drain().contains(addr),
        forall|p: int|
            0 <= p < post.expected_drain().len() && post.expected_drain()[p] == addr ==> p
                == post.expected_drain().len() - 1,
{
    lemma_drain_after_registration(pre, post, DropItem { fun: DropFn::Value, data: addr });
    let d = post.expected_drain();
    assert(d[d.len() - 1] == addr);
    assert forall|p: int| 0 <= p < d.len() && d[p] == addr implies p == d.len() - 1 by {
        if p < d.len() - 1 {
            assert(pre.expected_drain()[p] == addr);
            assert(pre.expected_drain().contains(addr));
        }
    }
}

/// Thunks registered before a new array record was pushed drain the same
/// addresses afterwards.
proof fn lemma_items_drain_records_grow(
    items: Seq<DropItem>,
    cells: Seq<CellRecord>,
    fixed1: Seq<FixedArrayRecord>,
    fixed2: Seq<FixedArrayRecord>,
    growable1: Seq<GrowableArrayRecord>,
    growable2: Seq<GrowableArrayRecord>,
    j: int,
)
    requires
        fixed1.len() <= fixed2.len(),
        forall|p: int| 0 <= p < fixed1.len() ==> fixed1[p] == fixed2[p],
        growable1.len() <= growable2.len(),
        forall|p: int| 0 <= p < growable1.len() ==> growable1[p] == growable2[p],
        j <= items.len(),
        forall|p: int| 0 <= p < j ==> item_wf(#[trigger] items[p], cells, fixed1, growable1),
    ensures
        items_drain(items, cells, fixed2, growable2, j) == items_drain(
            items,
            cells,
            fixed1,
            growable1,
            j,
        ),
    decreases j,
{
    if j > 0 {
        lemma_items_drain_records_grow(items, cells, fixed1, fixed2, growable1, growable2, j - 1);
        lemma_cell_drain_records_irrelevant(items[j - 1], cells, fixed1, fixed2, growable1,
            growable2);
    }
}

/// One thunk drains the same addresses under two registries that agree on
/// everything it can reach.
proof fn lemma_cell_drain_records_irrelevant(
    it: DropItem,
    cells: Seq<CellRecord>,
    fixed1: Seq<FixedArrayRecord>,
    fixed2: Seq<FixedArrayRecord>,
    growable1: Seq<GrowableArrayRecord>,
    growable2: Seq<GrowableArrayRecord>,
)
    requires
        fixed1.len() <= fixed2.len(),
        forall|p: int| 0 <= p < fixed1.len() ==> fixed1[p] == fixed2[p],
        growable1.len() <= growable2.len(),
        forall|p: int| 0 <= p < growable1.len() ==> growable1[p] == growable2[p],
        item_wf(it, cells, fixed1, growable1),
    ensures
        item_drain(it, cells, fixed2, growable2) == item_drain(it, cells, fixed1, growable1),
{
}

/// LAW: a fixed array whose record holds `len` initialized elements
/// contributes, at its registration position, exactly its `len` slot
/// addresses to the destruction sequence, in index order.
pub proof fn lemma_fixed_array_destroys_len_items(
    pre: ArenaMetadata,
    post: ArenaMetadata,
    ai: usize,
    meta_addr: usize,
)
    requires
        pre.wf(),
        post.all_items() == pre.all_items().push(
            DropItem { fun: DropFn::FixedArraySweep(ai), data: meta_addr },
        ),
        post.cells@ == pre.cells@,
        pre.fixed_arrays@.len() <= post.fixed_arrays@.len(),
        forall|p: int| 0 <= p < pre.fixed_arrays@.len() ==> pre.fixed_arrays@[p]
            == post.fixed_arrays@[p],
        post.growable_arrays@ == pre.growable_arrays@,
        ai < post.fixed_arrays@.len(),
    ensures
        post.expected_drain() == pre.expected_drain() + sweep_addrs(post.fixed_arrays@[ai as int]),
        sweep_addrs(post.fixed_arrays@[ai as int]).len() == post.fixed_arrays@[ai as int].len,
        forall|k: int|
            0 <= k < post.fixed_arrays@[ai as int].len ==> sweep_addrs(
                post.fixed_arrays@[ai as int],
            )[k] == (post.fixed_arrays@[ai as int].data_addr + k * post.fixed_arrays@[
                ai as int
            ].stride) as usize,
{
    let it = DropItem { fun: DropFn::FixedArraySweep(ai), data: meta_addr };
    let items1 = pre.all_items();
    let items2 = post.all_items();
    lemma_all_items_wf(pre);
    lemma_items_drain_records_grow(
        items1,
        pre.cells@,
        pre.fixed_arrays@,
        post.fixed_arrays@,
        pre.growable_arrays@,
        post.growable_arrays@,
        items1.len() as int,
    );
    lemma_items_drain_agree(
        items2,
        items1,
        post.cells@,
        post.fixed_arrays@,
        post.growable_arrays@,
        items1.len() as int,
    );
    assert(items2[items2.len() - 1] == it);
}

/// LAW: a growable array contributes, at its registration position,
/// exactly the element addresses its record still owns when the arena
/// drains, in index order: after `n` pushes and `m` pops those are the
/// first `n - m` placed elements.
pub proof fn lemma_growable_array_destroys_owned_items(
    pre: ArenaMetadata,
    post: ArenaMetadata,
    gi: usize,
    meta_addr: usize,
)
    requires
        pre.wf(),
        post.all_items() == pre.all_items().push(
            DropItem { fun: DropFn::GrowableArraySweep(gi), data: meta_addr },
        ),
        post.cells@ == pre.cells@,
        post.fixed_arrays@ == pre.fixed_arrays@,
        pre.growable_arrays@.len() <= post.growable_arrays@.len(),
        forall|p: int| 0 <= p < pre.growable_arrays@.len() ==> pre.growable_arrays@[p]
            == post.growable_arrays@[p],
        gi < post.growable_arrays@.len(),
    ensures
        post.expected_drain() == pre.expected_drain() + post.growable_arrays@[gi as int].ptrs@,
{
    let it = DropItem { fun: DropFn::GrowableArraySweep(gi), data: meta_addr };
    let items1 = pre.all_items();
    let items2 = post.all_items();
    lemma_all_items_wf(pre);
    lemma_items_drain_records_grow(
        items1,
        pre.cells@,
        pre.fixed_arrays@,
        post.fixed_arrays@,
        pre.growable_arrays@,
        post.growable_arrays@,
        items1.len() as int,
    );
    lemma_items_drain_agree(
        items2,
        items1,
        post.cells@,
        post.fixed_arrays@,
        post.growable_arrays@,
        items1.len() as int,
    );
    assert(items2[items2.len() - 1] == it);
}

/// LAW: a value placed without a destructor is never destroyed by the
/// arena: a step that registers no thunk and touches no container record
/// leaves the destruction sequence unchanged.
pub proof fn lemma_no_registration_no_destruction(pre: ArenaMetadata, post: ArenaMetadata)
    requires
        post.all_items() == pre.all_items(),
        post.cells@ == pre.cells@,
        post.fixed_arrays@ == pre.fixed_arrays@,
        post.growable_arrays@ == pre.growable_arrays@,
    ensures
        post.expected_drain() == pre.expected_drain(),
{
}

/// LAW: registering a cell's destructor after recording the cell appends
/// exactly the cell's destruction sequence, and the thunks registered
/// before drain the same addresses as before.
pub proof fn lemma_drain_after_cell_registration(
    pre: ArenaMetadata,
    post: ArenaMetadata,
    it: DropItem,
)
    requires
        pre.wf(),
        post.all_items() == pre.all_items().push(it),
        pre.cells@.len() <= post.cells@.len(),
        forall|p: int| 0 <= p < pre.cells@.len() ==> pre.cells@[p] == post.cells@[p],
        post.fixed_arrays@ == pre.fixed_arrays@,
        post.growable_arrays@ == pre.growable_arrays@,
    ensures
        post.expected_drain() == pre.expected_drain() + item_drain(
            it,
            post.cells@,
            post.fixed_arrays@,
            post.growable_arrays@,
        ),
{
    let items1 = pre.all_items();
    let items2 = post.all_items();
    lemma_all_items_wf(pre);
    lemma_items_drain_cells_grow(
        items1,
        pre.cells@,
        post.cells@,
        pre.fixed_arrays@,
        pre.growable_arrays@,
        items1.len() as int,
    );
    lemma_items_drain_agree(
        items2,
        items1,
        post.cells@,
        post.fixed_arrays@,
        post.growable_arrays@,
        items1.len() as int,
    );
    assert(items2[items2.len() - 1] == it);
}

/// Every registered thunk of a well-formed arena refers only to records
/// that exist.
pub proof fn lemma_all_items_wf(md: ArenaMetadata)
    requires
        md.wf(),
    ensures
        forall|p: int|
            0 <= p < md.all_items().len() ==> item_wf(
                #[trigger] md.all_items()[p],
                md.cells@,
                md.fixed_arrays@,
                md.growable_arrays@,
            ),
{
    lemma_items_of_lists_wf(
        md.lists_seq(),
        md.cells@,
        md.fixed_arrays@,
        md.growable_arrays@,
        md.lists_seq().len() as int,
    );
}

/// The concatenated thunks of well-formed drop-list nodes are well-formed.
proof fn lemma_items_of_lists_wf(
    lists: Seq<DropList>,
    cells: Seq<CellRecord>,
    fixed: Seq<FixedArrayRecord>,
    growable: Seq<GrowableArrayRecord>,
    l: int,
)
    requires
        l <= lists.len(),
        forall|i: int, j: int|
            0 <= i < lists.len() && 0 <= j < lists[i].items@.len() ==> item_wf(
                #[trigger] lists[i].items@[j],
                cells,
                fixed,
                growable,
            ),
    ensures
        forall|p: int|
            0 <= p < items_of_lists(lists, l).len() ==> item_wf(
                #[trigger] items_of_lists(lists, l)[p],
                cells,
                fixed,
                growable,
            ),
    decreases l,
{
    if l > 0 {
        lemma_items_of_lists_wf(lists, cells, fixed, growable, l - 1);
        assert forall|p: int| 0 <= p < items_of_lists(lists, l).len() implies item_wf(
            #[trigger] items_of_lists(lists, l)[p],
            cells,
            fixed,
            growable,
        ) by {
            if p < items_of_lists(lists, l - 1).len() {
            } else {
                assert(items_of_lists(lists, l)[p] == lists[l - 1].items@[p - items_of_lists(
                    lists,
                    l - 1,
                ).len()]);
            }
        }
    }
}

/// LAW: for a cell that another cell must outlive, the outlived cell's
/// value address stands strictly before the enclosing cell's own value
/// address in the enclosing cell's destruction sequence: it is destroyed
/// first.
pub proof fn lemma_outlives_destroyed_first(cells: Seq<CellRecord>, i: int, k: int)
    requires
        cells_wf(cells),
        0 <= i < cells.len(),
        0 <= k < cells[i].outlives@.len(),
    ensures
        cell_drain(cells, i).len() > 0,
        cell_drain(cells, i).last() == cells[i].addr,
        exists|p: int|
            0 <= p < cell_drain(cells, i).len() - 1 && cell_drain(cells, i)[p]
                == cells[cells[i].outlives@[k] as int].addr,
{
    let n = cells[i].outlives@.len() as int;
    lemma_entries_drain_contains(cells, i, n, k);
    let entries = cell_entries_drain(cells, i, n);
    let p = choose|p: int|
        0 <= p < entries.len() && entries[p] == cells[cells[i].outlives@[k] as int].addr;
    assert(cell_drain(cells, i) == entries.push(cells[i].addr));
    assert(cell_drain(cells, i)[p] == entries[p]);
}

/// The drain of the first `k2` outlives entries of cell `i` contains the
/// value address of each of those entries.
proof fn lemma_entries_drain_contains(cells: Seq<CellRecord>, i: int, k2: int, k: int)
    requires
        cells_wf(cells),
        0 <= i < cells.len(),
        0 <= k < k2 <= cells[i].outlives@.len(),
    ensures
        exists|p: int|
            0 <= p < cell_entries_drain(cells, i, k2).len() && cell_entries_drain(cells, i, k2)[p]
                == cells[cells[i].outlives@[k] as int].addr,
    decreases k2,
{
    let j = cells[i].outlives@[k2 - 1] as int;
    let dj = cell_drain(cells, j);
    let rest = cell_entries_drain(cells, i, k2 - 1);
    assert(cell_entries_drain(cells, i, k2) == dj + rest);
    if k == k2 - 1 {
        assert(dj.len() > 0 && dj.last() == cells[j].addr);
        let p = dj.len() - 1;
        assert(cell_entries_drain(cells, i, k2)[p] == cells[j].addr);
    } else {
        lemma_entries_drain_contains(cells, i, k2 - 1, k);
        let p0 = choose|p0: int|
            0 <= p0 < rest.len() && rest[p0] == cells[cells[i].outlives@[k] as int].addr;
        assert(cell_entries_drain(cells, i, k2)[dj.len() + p0] == rest[p0]);
    }
}

/// A power of two no larger than [`BASE_ALIGN`] divides it.
pub proof fn lemma_pow2_divides_base_align(a: int)
    requires
        is_pow2(a),
        1 <= a <= BASE_ALIGN,
    ensures
        BASE_ALIGN as int % a == 0,
{
    is_pow2_equiv(a);
    assert(is_pow2_exists(a));
    let e = choose|i: nat| vstd::arithmetic::power::pow(2, i) == a;
    lemma_pow2(e);
    lemma2_to64();
    if e > 12 {
        lemma_pow2_strictly_increases(12, e);
        assert(false);
    }
    lemma_pow2_adds((12 - e) as nat, e);
    vstd::arithmetic::div_mod::lemma_mod_multiples_basic(pow2((12 - e) as nat) as int, a);
    assert(BASE_ALIGN as int == pow2((12 - e) as nat) as int * a);
}

/// LAW: a placement aligned for its type is absolutely aligned, for any
/// power-of-two alignment up to the block base alignment: the placement
/// contracts give `addr % align == 0` whenever `align` divides
/// [`BASE_ALIGN`], and every power of two up to [`BASE_ALIGN`] divides it.
///
/// For alignments above [`BASE_ALIGN`] the contracts promise only
/// block-relative alignment (`(addr - base) % align == 0`): block bases are
/// multiples of [`BASE_ALIGN`], not of larger powers of two.
pub proof fn lemma_placement_alignment(addr: int, align: int)
    requires
        vstd::arithmetic::power2::is_pow2(align),
        1 <= align <= BASE_ALIGN,
        BASE_ALIGN as int % align == 0 ==> addr % align == 0,
    ensures
        addr % align == 0,
{
    lemma_pow2_divides_base_align(align);
}

/// A sub-span of a contained span is contained.
proof fn lemma_span_sub(b: Block, a: int, s: int, a2: int, s2: int)
    requires
        b.chain_contains_span(a, s),
        a <= a2,
        a2 + s2 <= a + s,
        s2 >= 0,
    ensures
        b.chain_contains_span(a2, s2),
    decreases b,
{
    if b.base + BLOCK_HEADER_SIZE <= a && a + s <= b.base + b.next_item_offset {
    } else {
        match b.previous_block {
            Option::Some(p) => {
                lemma_span_sub(*p, a, s, a2, s2);
            },
            Option::None => {},
        }
    }
}

/// LAW: pointers are stable. Whatever one placement step preserves, every
/// placed span survives it, with its bytes unchanged, until reclamation:
/// the blocks only grow.
pub proof fn lemma_placed_pointers_stable(
    pre: ArenaMetadata,
    post: ArenaMetadata,
    mem_pre: Memory,
    mem_post: Memory,
    takes: int,
    addr: int,
    size: int,
)
    requires
        ArenaMetadata::arena_preserved(pre, post, mem_pre, mem_post, takes),
        pre.span_placed(addr, size),
        size >= 0,
    ensures
        post.span_placed(addr, size),
        post.bytes_at(addr, size) == pre.bytes_at(addr, size),
{
    assert forall|i: int| 0 <= i < size implies #[trigger] post.byte_at(addr + i)
        == pre.byte_at(addr + i) by {
        lemma_span_sub(pre.last_block->0, addr, size, addr + i, 1);
        assert(pre.span_placed(addr + i, 1));
    }
    assert(post.bytes_at(addr, size) =~= pre.bytes_at(addr, size));
}

} // verus!
