//! Drop lists: fixed-capacity records of destructor thunks, chained into a
//! singly-linked list that the arena executes head-to-tail when it drains.
//!
//! A node's bytes live in the arena itself, close to the data the thunks
//! destroy; the node records its own address and the address of the next
//! node in the chain.

use vstd::prelude::*;

verus! {

/// Capacity of one drop-list node.
pub const MAX_DROP_LIST_ITEMS: usize = 1022;

/// Arena footprint in bytes of one drop-list node: the slot array plus the
/// link and the slot counter.
pub const DROP_LIST_BYTE_SIZE: usize = 24544;

/// Alignment of a drop-list node's bytes in the arena.
pub const DROP_LIST_ALIGN: usize = 8;

/// What a destructor thunk does when the drain executes it. The payload
/// address stands beside it in the [`DropItem`].
#[derive(Debug, PartialEq, Eq, Structural, Clone, Copy)]
pub enum DropFn {
    /// Destroy the single value at the payload address.
    Value,
    /// Destroy a wrapped cell: first its outlives chain, then its own value.
    /// Carries the index of the cell record in the arena.
    Cell(usize),
    /// Destroy the elements of a fixed array, in index order. Carries the
    /// index of the array record in the arena.
    FixedArraySweep(usize),
    /// Destroy the elements a growable array still owns, in index order.
    /// Carries the index of the array record in the arena.
    GrowableArraySweep(usize),
}

/// One destructor thunk: what to do, and the address it acts on.
#[derive(Debug, PartialEq, Eq, Structural, Clone, Copy)]
pub struct DropItem {
    pub fun: DropFn,
    pub data: usize,
}

/// Whether a write filled the node, so that the caller must link a fresh
/// node before the next write.
#[derive(Debug, PartialEq, Eq, Structural)]
pub enum DropListWriteResult {
    ListFull,
    ListNotFull,
}

/// A fixed-capacity array of destructor thunks; slots `[0, used)` are
/// occupied, and `next_list` points at the next node once this one is full.
pub struct DropList {
    /// Address of this node's bytes in the arena (zero until placed).
    pub addr: usize,
    /// The occupied slots, in registration order.
    pub items: Vec<DropItem>,
    /// Address of the next node in the chain, if one was linked.
    pub next_list: Option<usize>,
}

impl DropList {
    pub open spec fn spec_items(&self) -> Seq<DropItem> {
        self.items@
    }

    pub open spec fn wf(&self) -> bool {
        self.items@.len() <= MAX_DROP_LIST_ITEMS
    }

    /// A fresh node with no occupied slots and no successor.
    pub fn empty() -> (r: DropList)
        ensures
            r.addr == 0,
            r.items@ == Seq::<DropItem>::empty(),
            r.next_list is None,
            r.wf(),
    {
        DropList { addr: 0, items: Vec::new(), next_list: None }
    }

    /// Write one thunk into the next free slot and report whether the node
    /// is now full.
    pub(crate) fn write_item(&mut self, item: DropItem) -> (r: DropListWriteResult)
        requires
            old(self).items@.len() < MAX_DROP_LIST_ITEMS,
        ensures
            final(self).items@ == old(self).items@.push(item),
            final(self).addr == old(self).addr,
            final(self).next_list == old(self).next_list,
            final(self).wf(),
            r == DropListWriteResult::ListFull <==> final(self).items@.len()
                == MAX_DROP_LIST_ITEMS,
    {
        self.items.push(item);
        if self.items.len() == MAX_DROP_LIST_ITEMS {
            DropListWriteResult::ListFull
        } else {
            DropListWriteResult::ListNotFull
        }
    }

    /// Record a plain value-destructor thunk for the value at `data`.
    pub fn push_drop_fn(&mut self, data: usize) -> (r: DropListWriteResult)
        requires
            old(self).items@.len() < MAX_DROP_LIST_ITEMS,
        ensures
            final(self).items@ == old(self).items@.push(
                DropItem { fun: DropFn::Value, data },
            ),
            final(self).addr == old(self).addr,
            final(self).next_list == old(self).next_list,
            final(self).wf(),
            r == DropListWriteResult::ListFull <==> final(self).items@.len()
                == MAX_DROP_LIST_ITEMS,
    {
        self.write_item(DropItem { fun: DropFn::Value, data })
    }

    /// Link the node placed at `addr` as this node's successor.
    pub fn set_next_list(&mut self, addr: usize)
        ensures
            final(self).items@ == old(self).items@,
            final(self).addr == old(self).addr,
            final(self).next_list == Option::Some(addr),
    {
        self.next_list = Some(addr);
    }
}

} // verus!
