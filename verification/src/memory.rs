//! The shared block pool: allocates, caches and recycles fixed-size byte
//! blocks for arenas.
//!
//! Every block handed out is paired with a base address taken from a
//! monotonically increasing counter, so distinct blocks never overlap and
//! every base is a multiple of [`BASE_ALIGN`].

use vstd::prelude::*;
use std::collections::VecDeque;

verus! {

/// Every block base handed out by a pool is a multiple of this constant, so
/// a placement aligned within its block is also aligned absolutely, for any
/// alignment that divides it.
pub const BASE_ALIGN: usize = 4096;

/// Largest accepted block size; keeps all address arithmetic inside `usize`
/// on every target.
pub const MAX_BLOCK_SIZE: usize = 0x4000_0000;

/// The pool state proper: a free list of equally sized byte buffers plus the
/// configuration and the base-address counter.
pub struct ArenaMemoryInstance {
    pub free_blocks: VecDeque<Vec<u8>>,
    pub max_free_blocks_to_initialize_or_cleanup_to: usize,
    pub min_free_blocks_before_allocating_new: usize,
    pub new_block_size: usize,
    /// Base address of the next block handed out.
    pub next_base: usize,
    /// Distance between consecutive block bases; a multiple of [`BASE_ALIGN`]
    /// that is at least `new_block_size`, so blocks never overlap.
    pub stride: usize,
}

impl ArenaMemoryInstance {
    pub open spec fn spec_free_count(&self) -> int {
        self.free_blocks@.len() as int
    }

    pub open spec fn spec_block_size(&self) -> usize {
        self.new_block_size
    }

    pub open spec fn spec_stride(&self) -> usize {
        self.stride
    }

    pub open spec fn spec_next_base(&self) -> usize {
        self.next_base
    }

    pub open spec fn wf(&self) -> bool {
        &&& self.stride as int % BASE_ALIGN as int == 0
        &&& self.stride >= BASE_ALIGN
        &&& 1 <= self.new_block_size <= self.stride
        &&& self.new_block_size <= MAX_BLOCK_SIZE
        &&& self.stride <= MAX_BLOCK_SIZE + BASE_ALIGN
        &&& self.next_base as int % self.stride as int == 0
        &&& self.next_base >= self.stride
        &&& forall|i: int|
            0 <= i < self.free_blocks@.len() ==> (#[trigger] self.free_blocks@[i])@.len()
                == self.new_block_size
    }

    /// Exact free count after the refill step: filled up to the high-water
    /// mark when below the low-water mark, otherwise untouched.
    pub open spec fn spec_count_after_refill(&self) -> int {
        if self.spec_free_count() < self.min_free_blocks_before_allocating_new
            && self.spec_free_count() < self.max_free_blocks_to_initialize_or_cleanup_to {
            self.max_free_blocks_to_initialize_or_cleanup_to as int
        } else {
            self.spec_free_count()
        }
    }

    /// The pool can hand out `n` more blocks: either the free list already
    /// holds them or refilling is enabled, and the base counter has room.
    pub open spec fn can_take_n(&self, n: int) -> bool {
        &&& (self.spec_free_count() >= n || (self.min_free_blocks_before_allocating_new >= 1
            && self.max_free_blocks_to_initialize_or_cleanup_to >= 1))
        &&& self.next_base as int + n * self.stride as int <= usize::MAX as int
    }

    /// Everything the configuration fixes once and for all.
    pub open spec fn same_config(&self, other: &ArenaMemoryInstance) -> bool {
        &&& self.new_block_size == other.new_block_size
        &&& self.stride == other.stride
        &&& self.max_free_blocks_to_initialize_or_cleanup_to
            == other.max_free_blocks_to_initialize_or_cleanup_to
        &&& self.min_free_blocks_before_allocating_new
            == other.min_free_blocks_before_allocating_new
    }

    pub fn new(options: &MemoryBuilder) -> (r: ArenaMemoryInstance)
        requires
            options.wf(),
        ensures
            r.wf(),
            r.spec_block_size() == options.new_block_size,
            r.spec_stride() as int == ((options.new_block_size - 1) / BASE_ALIGN as int + 1)
                * BASE_ALIGN as int,
            r.spec_next_base() == r.spec_stride(),
            r.max_free_blocks_to_initialize_or_cleanup_to == options.spec_max_free(),
            r.min_free_blocks_before_allocating_new == options.spec_min_free(),
            r.spec_free_count() == if options.spec_min_free() > 0 {
                options.spec_max_free()
            } else {
                0
            },
            forall|i: int, k: int|
                0 <= i < r.spec_free_count() && 0 <= k < options.new_block_size
                    ==> #[trigger] r.free_blocks@[i]@[k] == 0u8,
    {
        let max = if options.max_free_blocks_to_initialize_or_cleanup_to < 0 {
            0
        } else {
            options.max_free_blocks_to_initialize_or_cleanup_to as usize
        };
        let min = if options.min_free_blocks_before_allocating_new < 0 {
            0
        } else {
            options.min_free_blocks_before_allocating_new as usize
        };
        let q = (options.new_block_size - 1) / BASE_ALIGN;
        proof {
            assert((q as int + 1) * BASE_ALIGN as int % BASE_ALIGN as int == 0
                && options.new_block_size as int <= (q as int + 1) * BASE_ALIGN as int && (q as int
                + 1) * BASE_ALIGN as int <= MAX_BLOCK_SIZE as int + BASE_ALIGN as int) by (nonlinear_arith)
                requires
                    q as int == (options.new_block_size - 1) as int / BASE_ALIGN as int,
                    1 <= options.new_block_size <= MAX_BLOCK_SIZE,
            ;
        }
        let stride = (q + 1) * BASE_ALIGN;
        let mut i = ArenaMemoryInstance {
            free_blocks: VecDeque::new(),
            max_free_blocks_to_initialize_or_cleanup_to: max,
            min_free_blocks_before_allocating_new: min,
            new_block_size: options.new_block_size,
            next_base: stride,
            stride,
        };
        proof {
            assert(i.next_base as int % i.stride as int == 0) by (nonlinear_arith)
                requires
                    i.next_base == i.stride,
                    i.stride >= 1,
            ;
        }
        i.check_if_not_enough_blocks_and_initialize();
        i
    }

    /// Refill the free list up to the high-water mark when it has fallen
    /// below the low-water mark.
    pub fn check_if_not_enough_blocks_and_initialize(&mut self)
        requires
            old(self).wf(),
        ensures
            final(self).wf(),
            final(self).same_config(old(self)),
            final(self).next_base == old(self).next_base,
            final(self).spec_free_count() >= old(self).spec_free_count(),
            final(self).spec_free_count() == old(self).spec_count_after_refill(),
            forall|i: int, k: int|
                0 <= i < final(self).spec_free_count() - old(self).spec_free_count() && 0 <= k
                    < old(self).new_block_size ==> #[trigger] final(self).free_blocks@[i]@[k]
                    == 0u8,
    {
        if self.free_blocks.len() < self.min_free_blocks_before_allocating_new {
            while self.free_blocks.len() < self.max_free_blocks_to_initialize_or_cleanup_to
                invariant
                    self.wf(),
                    self.same_config(old(self)),
                    self.next_base == old(self).next_base,
                    self.spec_free_count() >= old(self).spec_free_count(),
                    old(self).spec_free_count()
                        < old(self).max_free_blocks_to_initialize_or_cleanup_to
                        ==> self.spec_free_count()
                        <= old(self).max_free_blocks_to_initialize_or_cleanup_to,
                    old(self).spec_free_count()
                        >= old(self).max_free_blocks_to_initialize_or_cleanup_to
                        ==> self.spec_free_count() == old(self).spec_free_count(),
                    forall|i: int, k: int|
                        0 <= i < self.spec_free_count() - old(self).spec_free_count() && 0 <= k
                            < old(self).new_block_size
                            ==> #[trigger] self.free_blocks@[i]@[k] == 0u8,
                decreases self.max_free_blocks_to_initialize_or_cleanup_to as int
                    - self.spec_free_count(),
            {
                let block = vec![0u8; self.new_block_size];
                proof {
                    assert forall|k: int| 0 <= k < old(self).new_block_size implies block@[k]
                        == 0u8 by {
                        assert(vstd::pervasive::cloned::<u8>(0u8, block@[k]));
                    }
                }
                self.free_blocks.push_front(block);
            }
        }
    }

    /// Clean up the memory above the high-water mark and return the number of
    /// bytes released.
    pub fn cleanup(&mut self) -> (released: usize)
        requires
            old(self).wf(),
        ensures
            final(self).wf(),
            final(self).same_config(old(self)),
            final(self).next_base == old(self).next_base,
            final(self).spec_free_count() == if old(self).spec_free_count()
                > old(self).max_free_blocks_to_initialize_or_cleanup_to {
                old(self).max_free_blocks_to_initialize_or_cleanup_to as int
            } else {
                old(self).spec_free_count()
            },
            released as int == (if (old(self).spec_free_count() - final(self).spec_free_count())
                * final(self).spec_block_size() <= usize::MAX {
                (old(self).spec_free_count() - final(self).spec_free_count())
                    * final(self).spec_block_size()
            } else {
                usize::MAX as int
            }),
    {
        let ghost start = self.spec_free_count();
        let mut released: usize = 0;
        let mut saturated: bool = false;
        while self.free_blocks.len() > self.max_free_blocks_to_initialize_or_cleanup_to
            invariant
                self.wf(),
                self.same_config(old(self)),
                self.next_base == old(self).next_base,
                self.spec_free_count() <= start,
                self.spec_free_count() >= if start
                    <= old(self).max_free_blocks_to_initialize_or_cleanup_to as int {
                    start
                } else {
                    old(self).max_free_blocks_to_initialize_or_cleanup_to as int
                },
                !saturated ==> released as int == (start - self.spec_free_count())
                    * self.spec_block_size() as int,
                saturated ==> released == usize::MAX && (start - self.spec_free_count())
                    * self.spec_block_size() as int > usize::MAX,
            decreases self.spec_free_count(),
        {
            if let Some(block) = self.free_blocks.pop_front() {
                let len = block.len();
                if released <= usize::MAX - len {
                    if !saturated {
                        released = released + len;
                    }
                } else {
                    released = usize::MAX;
                    saturated = true;
                }
                proof {
                    assert((start - self.spec_free_count()) * self.spec_block_size() as int
                        == (start - self.spec_free_count() - 1) * self.spec_block_size() as int
                            + self.spec_block_size() as int) by (nonlinear_arith);
                }
            }
        }
        released
    }

    /// Hand out one block together with its fresh base address.
    pub fn take_block(&mut self) -> (r: (Vec<u8>, usize))
        requires
            old(self).wf(),
            old(self).can_take_n(1),
        ensures
            final(self).wf(),
            final(self).same_config(old(self)),
            r.0@.len() == final(self).spec_block_size(),
            r.1 == old(self).next_base,
            final(self).next_base == old(self).next_base + final(self).stride,
            forall|n: int| n >= 1 && old(self).can_take_n(n) ==> final(self).can_take_n(n - 1),
            final(self).spec_free_count() == old(self).spec_count_after_refill() - 1,
            final(self).spec_free_count() >= old(self).spec_free_count() - 1,
    {
        self.check_if_not_enough_blocks_and_initialize();
        let block = self.free_blocks.pop_back().unwrap();
        let base = self.next_base;
        let ghost nb: int = self.next_base as int;
        let ghost st: int = self.stride as int;
        self.next_base = self.next_base + self.stride;
        proof {
            assert((nb + st) % st == 0) by (nonlinear_arith)
                requires
                    nb % st == 0,
                    st >= 1;
            assert forall|n: int| n >= 1 && old(self).can_take_n(n) implies self.can_take_n(
                n - 1,
            ) by {
                assert((n - 1) * st == n * st - st) by (nonlinear_arith);
            }
        }
        (block, base)
    }

    /// Put a block back on the free list; the pool never shrinks here.
    pub fn return_block(&mut self, block: Vec<u8>)
        requires
            old(self).wf(),
            block@.len() == old(self).spec_block_size(),
        ensures
            final(self).wf(),
            final(self).same_config(old(self)),
            final(self).next_base == old(self).next_base,
            final(self).spec_free_count() == old(self).spec_free_count() + 1,
            forall|n: int| old(self).can_take_n(n) ==> final(self).can_take_n(n),
    {
        self.free_blocks.push_back(block);
    }
}

/// Memory options builder.
pub struct MemoryBuilder {
    pub max_free_blocks_to_initialize_or_cleanup_to: i32,
    pub min_free_blocks_before_allocating_new: i32,
    pub new_block_size: usize,
}

impl MemoryBuilder {
    pub open spec fn wf(&self) -> bool {
        1 <= self.new_block_size <= MAX_BLOCK_SIZE
    }

    pub open spec fn spec_max_free(&self) -> int {
        if self.max_free_blocks_to_initialize_or_cleanup_to < 0 {
            0
        } else {
            self.max_free_blocks_to_initialize_or_cleanup_to as int
        }
    }

    pub open spec fn spec_min_free(&self) -> int {
        if self.min_free_blocks_before_allocating_new < 0 {
            0
        } else {
            self.min_free_blocks_before_allocating_new as int
        }
    }

    /// Specify the amount of blocks to keep around.
    ///
    /// The pool immediately allocates the `max` blocks when created. If the
    /// amount of unused allocated blocks reaches `min`, new block allocation
    /// kicks in and allocates up to `max` blocks again. Blocks returned can
    /// increase the count above `max`; use `cleanup` to trim it.
    pub fn with_min_max_blocks(self, min: i32, max: i32) -> (r: MemoryBuilder)
        ensures
            r.min_free_blocks_before_allocating_new == min,
            r.max_free_blocks_to_initialize_or_cleanup_to == max,
            r.new_block_size == self.new_block_size,
    {
        MemoryBuilder {
            min_free_blocks_before_allocating_new: min,
            max_free_blocks_to_initialize_or_cleanup_to: max,
            new_block_size: self.new_block_size,
        }
    }

    /// Specify the size of a new block.
    ///
    /// Make sure it is considerably bigger than any structures you want to
    /// keep in it.
    pub fn with_block_size(self, size: usize) -> (r: MemoryBuilder)
        requires
            1 <= size <= MAX_BLOCK_SIZE,
        ensures
            r.new_block_size == size,
            r.min_free_blocks_before_allocating_new
                == self.min_free_blocks_before_allocating_new,
            r.max_free_blocks_to_initialize_or_cleanup_to
                == self.max_free_blocks_to_initialize_or_cleanup_to,
            r.wf(),
    {
        MemoryBuilder {
            min_free_blocks_before_allocating_new: self.min_free_blocks_before_allocating_new,
            max_free_blocks_to_initialize_or_cleanup_to: self.max_free_blocks_to_initialize_or_cleanup_to,
            new_block_size: size,
        }
    }

    pub fn build(self) -> (r: Memory)
        requires
            self.wf(),
        ensures
            r.wf(),
            r.spec_block_size() == self.new_block_size,
            r.shared.max_free_blocks_to_initialize_or_cleanup_to == self.spec_max_free(),
            r.shared.min_free_blocks_before_allocating_new == self.spec_min_free(),
            r.spec_stride() as int == ((self.new_block_size - 1) / BASE_ALIGN as int + 1)
                * BASE_ALIGN as int,
            r.spec_next_base() == r.spec_stride(),
            r.spec_free_count() == if self.spec_min_free() > 0 {
                self.spec_max_free()
            } else {
                0
            },
            forall|i: int, k: int|
                0 <= i < r.spec_free_count() && 0 <= k < self.new_block_size
                    ==> #[trigger] r.shared.free_blocks@[i]@[k] == 0u8,
    {
        Memory { shared: ArenaMemoryInstance::new(&self) }
    }
}

/// Container of pool memory blocks.
/// Does not automatically de-allocate memory: call the `cleanup` method to
/// de-allocate when it is the most convenient.
pub struct Memory {
    pub shared: ArenaMemoryInstance,
}

impl Memory {
    pub open spec fn wf(&self) -> bool {
        self.shared.wf()
    }

    pub open spec fn spec_free_count(&self) -> int {
        self.shared.spec_free_count()
    }

    pub open spec fn spec_block_size(&self) -> usize {
        self.shared.spec_block_size()
    }

    pub open spec fn spec_stride(&self) -> usize {
        self.shared.spec_stride()
    }

    pub open spec fn spec_next_base(&self) -> usize {
        self.shared.spec_next_base()
    }

    pub open spec fn can_take_n(&self, n: int) -> bool {
        self.shared.can_take_n(n)
    }

    /// Exact free count after the refill step.
    pub open spec fn spec_count_after_refill(&self) -> int {
        self.shared.spec_count_after_refill()
    }

    pub open spec fn same_config(&self, other: &Memory) -> bool {
        self.shared.same_config(&other.shared)
    }

    pub fn builder() -> (r: MemoryBuilder)
        ensures
            r.max_free_blocks_to_initialize_or_cleanup_to == 4,
            r.min_free_blocks_before_allocating_new == 2,
            r.new_block_size == 65536,
            r.wf(),
    {
        MemoryBuilder {
            max_free_blocks_to_initialize_or_cleanup_to: 4,
            min_free_blocks_before_allocating_new: 2,
            new_block_size: 1024 * 64,
        }
    }

    pub fn new() -> (r: Memory)
        ensures
            r.wf(),
            r.spec_block_size() == 65536,
            r.spec_stride() == 65536,
            r.spec_next_base() == 65536,
            r.spec_free_count() == 4,
            r.shared.min_free_blocks_before_allocating_new == 2,
            r.shared.max_free_blocks_to_initialize_or_cleanup_to == 4,
            forall|i: int, k: int|
                0 <= i < 4 && 0 <= k < 65536 ==> #[trigger] r.shared.free_blocks@[i]@[k] == 0u8,
    {
        Memory::builder().build()
    }

    /// Cleans up the memory and returns cleaned-up memory size if the amount
    /// of free blocks is above `max`.
    pub fn cleanup(&mut self) -> (released: usize)
        requires
            old(self).wf(),
        ensures
            final(self).wf(),
            final(self).same_config(old(self)),
            final(self).spec_next_base() == old(self).spec_next_base(),
            final(self).spec_free_count() == if old(self).spec_free_count()
                > old(self).shared.max_free_blocks_to_initialize_or_cleanup_to {
                old(self).shared.max_free_blocks_to_initialize_or_cleanup_to as int
            } else {
                old(self).spec_free_count()
            },
            released as int == (if (old(self).spec_free_count() - final(self).spec_free_count())
                * final(self).spec_block_size() <= usize::MAX {
                (old(self).spec_free_count() - final(self).spec_free_count())
                    * final(self).spec_block_size()
            } else {
                usize::MAX as int
            }),
    {
        self.shared.cleanup()
    }

    pub fn take_block(&mut self) -> (r: (Vec<u8>, usize))
        requires
            old(self).wf(),
            old(self).can_take_n(1),
        ensures
            final(self).wf(),
            final(self).same_config(old(self)),
            r.0@.len() == final(self).spec_block_size(),
            r.1 == old(self).spec_next_base(),
            final(self).spec_next_base() == old(self).spec_next_base() + final(self).spec_stride(),
            forall|n: int| n >= 1 && old(self).can_take_n(n) ==> final(self).can_take_n(n - 1),
            final(self).spec_free_count() == old(self).spec_count_after_refill() - 1,
            final(self).spec_free_count() >= old(self).spec_free_count() - 1,
    {
        self.shared.take_block()
    }

    pub fn return_block(&mut self, block: Vec<u8>)
        requires
            old(self).wf(),
            block@.len() == old(self).spec_block_size(),
        ensures
            final(self).wf(),
            final(self).same_config(old(self)),
            final(self).spec_next_base() == old(self).spec_next_base(),
            final(self).spec_free_count() == old(self).spec_free_count() + 1,
            forall|n: int| old(self).can_take_n(n) ==> final(self).can_take_n(n),
    {
        self.shared.return_block(block)
    }
}

} // verus!
