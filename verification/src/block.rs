//! A single arena block: one fixed-size byte buffer with a bump cursor, a
//! base address, and an owning link to the previous (older) block of the
//! same arena.
//!
//! The first [`BLOCK_HEADER_SIZE`] bytes of every block stand for the header
//! that records the cursor and the back link; the bump cursor therefore
//! starts right past the header and only ever advances.

use vstd::prelude::*;
use crate::memory::MAX_BLOCK_SIZE;

verus! {

/// Bytes reserved at the start of every block for the embedded header
/// (cursor and back link).
pub const BLOCK_HEADER_SIZE: usize = 24;

/// Largest alignment a placement may ask for.
pub const MAX_SUPPORTED_ALIGN: usize = 0x2000_0000;

/// Padding needed to move `cursor` up to the next multiple of `align`.
pub open spec fn spec_pad(cursor: int, align: int) -> int {
    (align - cursor % align) % align
}

/// A cursor already at a multiple of the alignment needs no padding.
pub proof fn lemma_pad_zero(cursor: int, align: int)
    requires
        align >= 1,
        cursor % align == 0,
    ensures
        spec_pad(cursor, align) == 0,
{
    assert((align - cursor % align) % align == 0) by (nonlinear_arith)
        requires
            align >= 1,
            cursor % align == 0,
    ;
}

/// Error while trying to place data in one block.
#[derive(Debug, PartialEq, Eq, Structural)]
pub enum PlacementError {
    /// The current block is too full, but a fresh block would do.
    NotEnoughSpaceInBlock,
    /// The item is bigger than the free space of any block of this size.
    ItemTooBig,
}

/// One block: its base address, its bytes, the bump cursor and the link to
/// the next-older block in the same arena chain.
pub struct Block {
    pub base: usize,
    pub data: Vec<u8>,
    pub next_item_offset: usize,
    pub previous_block: Option<Box<Block>>,
}

impl Block {
    /// Well-formedness of the whole chain hanging off this block, for an
    /// arena whose blocks have `block_size` bytes and whose bases are
    /// multiples of `stride`: cursors stay within bounds and bases strictly
    /// decrease towards the older blocks, so blocks never overlap.
    pub open spec fn chain_wf(&self, block_size: usize, stride: usize) -> bool
        decreases self,
    {
        &&& self.data@.len() == block_size
        &&& BLOCK_HEADER_SIZE <= self.next_item_offset <= block_size
        &&& self.base as int % stride as int == 0
        &&& self.base >= stride
        &&& match self.previous_block {
            Option::None => true,
            Option::Some(p) => p.base < self.base && p.chain_wf(block_size, stride),
        }
    }

    /// Number of blocks in this chain.
    pub open spec fn chain_len(&self) -> nat
        decreases self,
    {
        match self.previous_block {
            Option::None => 1,
            Option::Some(p) => 1 + p.chain_len(),
        }
    }

    /// The span `[addr, addr + size)` lies inside the already-bumped part of
    /// one block of this chain.
    pub open spec fn chain_contains_span(&self, addr: int, size: int) -> bool
        decreases self,
    {
        ||| (self.base + BLOCK_HEADER_SIZE <= addr && addr + size <= self.base
            + self.next_item_offset)
        ||| match self.previous_block {
            Option::None => false,
            Option::Some(p) => p.chain_contains_span(addr, size),
        }
    }

    /// The byte stored at absolute address `addr` in this chain.
    pub open spec fn chain_byte(&self, addr: int) -> u8
        decreases self,
    {
        if self.base <= addr < self.base + self.data@.len() {
            self.data@[addr - self.base]
        } else {
            match self.previous_block {
                Option::None => 0u8,
                Option::Some(p) => p.chain_byte(addr),
            }
        }
    }

    /// All bytes of the span `[addr, addr + len)` in this chain, in order.
    pub open spec fn chain_bytes(&self, addr: int, len: int) -> Seq<u8> {
        Seq::new(if len >= 0 {
            len as nat
        } else {
            0
        }, |i: int| self.chain_byte(addr + i))
    }

    /// Wrap a buffer checked out from the pool; the cursor starts right past
    /// the header.
    pub fn new(data: Vec<u8>, base: usize) -> (r: Block)
        requires
            data@.len() >= BLOCK_HEADER_SIZE,
        ensures
            r.base == base,
            r.data == data,
            r.next_item_offset == BLOCK_HEADER_SIZE,
            r.previous_block is None,
    {
        Block { base, data, next_item_offset: BLOCK_HEADER_SIZE, previous_block: None }
    }

    /// Record `block` as the next-older block of this one.
    pub fn set_previous_block(&mut self, block: Block)
        requires
            old(self).previous_block is None,
        ensures
            final(self).base == old(self).base,
            final(self).data == old(self).data,
            final(self).next_item_offset == old(self).next_item_offset,
            final(self).previous_block == Option::Some(Box::new(block)),
    {
        self.previous_block = Some(Box::new(block));
    }

    /// The biggest item that fits into an empty block of this size.
    pub fn largest_item_size(&self) -> (r: usize)
        requires
            self.data@.len() >= BLOCK_HEADER_SIZE,
        ensures
            r == self.data@.len() - BLOCK_HEADER_SIZE,
    {
        self.data.len() - BLOCK_HEADER_SIZE
    }

    /// Where the next placement for `align` would start, and how many bytes
    /// would remain from there to the end of the block (negative when even
    /// zero bytes do not fit).
    pub fn remaining_bytes_for_alignment(&self, align: usize) -> (r: (isize, usize))
        requires
            1 <= align <= MAX_SUPPORTED_ALIGN,
            self.data@.len() <= MAX_BLOCK_SIZE,
            self.next_item_offset <= self.data@.len(),
        ensures
            r.1 == self.next_item_offset + ((align - self.next_item_offset as int % align as int)
                as int % align as int),
            r.1 as int % align as int == 0,
            r.0 == self.data@.len() - r.1,
    {
        let cursor = self.next_item_offset;
        let padding = (align - cursor % align) % align;
        let aligned = cursor + padding;
        proof {
            assert(aligned as int % align as int == 0 && padding < align) by (nonlinear_arith)
                requires
                    aligned == cursor + padding,
                    padding == ((align - cursor as int % align as int) as int % align as int),
                    align >= 1,
            ;
        }
        (self.data.len() as isize - aligned as isize, aligned)
    }

    /// Reserve `size` bytes aligned to `align` at the bump cursor. On
    /// success the cursor advances and the absolute address of the placed
    /// span comes back; on failure nothing changes and the error says
    /// whether a fresh block would help.
    pub fn push_region(&mut self, size: usize, align: usize) -> (r: Result<usize, PlacementError>)
        requires
            1 <= align <= MAX_SUPPORTED_ALIGN,
            old(self).data@.len() <= MAX_BLOCK_SIZE,
            BLOCK_HEADER_SIZE <= old(self).next_item_offset <= old(self).data@.len(),
            old(self).base + old(self).data@.len() <= usize::MAX,
        ensures
            final(self).base == old(self).base,
            final(self).data == old(self).data,
            final(self).previous_block == old(self).previous_block,
            match r {
                Result::Ok(addr) => {
                    &&& (addr - final(self).base) as int % align as int == 0
                    &&& addr == old(self).base + old(self).next_item_offset + spec_pad(
                        old(self).next_item_offset as int,
                        align as int,
                    )
                    &&& old(self).base + old(self).next_item_offset <= addr
                    &&& addr - final(self).base + size == final(self).next_item_offset
                    &&& final(self).next_item_offset <= final(self).data@.len()
                    &&& old(self).next_item_offset <= final(self).next_item_offset
                    &&& addr >= final(self).base + BLOCK_HEADER_SIZE
                },
                Result::Err(e) => {
                    &&& final(self).next_item_offset == old(self).next_item_offset
                    &&& old(self).next_item_offset + spec_pad(
                        old(self).next_item_offset as int,
                        align as int,
                    ) + size > old(self).data@.len()
                    &&& (e == PlacementError::ItemTooBig <==> size > old(self).data@.len()
                        - BLOCK_HEADER_SIZE)
                },
            },
    {
        let cursor = self.next_item_offset;
        let padding = (align - cursor % align) % align;
        proof {
            assert(padding == spec_pad(cursor as int, align as int) && padding < align && (cursor
                + padding) as int % align as int == 0) by (nonlinear_arith)
                requires
                    padding == ((align - cursor as int % align as int) as int % align as int),
                    align >= 1,
                    cursor >= 0,
            ;
        }
        if size > self.largest_item_size() {
            proof {
                assert(cursor + padding + size > self.data@.len());
            }
            return Err(PlacementError::ItemTooBig);
        }
        let aligned = cursor + padding;
        let end = aligned + size;
        if end > self.data.len() {
            Err(PlacementError::NotEnoughSpaceInBlock)
        } else {
            self.next_item_offset = end;
            Ok(self.base + aligned)
        }
    }

    /// Copy `bytes` into the block at the (already aligned) offset
    /// `aligned_start` and advance the cursor past them.
    pub fn upload_bytes_unchecked(&mut self, aligned_start: usize, bytes: &Vec<u8>) -> (r: usize)
        requires
            old(self).next_item_offset <= aligned_start,
            aligned_start + bytes@.len() <= old(self).data@.len(),
            old(self).base + old(self).data@.len() <= usize::MAX,
        ensures
            final(self).base == old(self).base,
            final(self).previous_block == old(self).previous_block,
            final(self).data@.len() == old(self).data@.len(),
            final(self).next_item_offset == aligned_start + bytes@.len(),
            r == old(self).base + aligned_start,
            forall|i: int|
                0 <= i < bytes@.len() ==> final(self).data@[aligned_start + i] == bytes@[i],
            forall|i: int|
                0 <= i < old(self).data@.len() && !(aligned_start <= i < aligned_start
                    + bytes@.len()) ==> final(self).data@[i] == old(self).data@[i],
    {
        let len = bytes.len();
        let mut i: usize = 0;
        while i < len
            invariant
                i <= len,
                len == bytes@.len(),
                aligned_start + len <= self.data@.len(),
                aligned_start + len <= usize::MAX,
                self.base == old(self).base,
                self.previous_block == old(self).previous_block,
                self.next_item_offset == old(self).next_item_offset,
                self.data@.len() == old(self).data@.len(),
                forall|k: int| 0 <= k < i ==> self.data@[aligned_start + k] == bytes@[k],
                forall|k: int|
                    0 <= k < old(self).data@.len() && !(aligned_start <= k < aligned_start
                        + len) ==> self.data@[k] == old(self).data@[k],
            decreases len - i,
        {
            let b = bytes[i];
            self.data.set(aligned_start + i, b);
            i = i + 1;
        }
        self.next_item_offset = aligned_start + len;
        self.base + aligned_start
    }

    /// Detach the back link and hand both it and the raw buffer out for
    /// reclamation.
    pub fn into_previous_block_and_data(self) -> (r: (Option<Box<Block>>, Vec<u8>))
        ensures
            r.0 == self.previous_block,
            r.1 == self.data,
    {
        let Block { base: _, data, next_item_offset: _, previous_block } = self;
        (previous_block, data)
    }
}

} // verus!
