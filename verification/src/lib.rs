//! A grow-only arena for bump allocation with deterministic, batched
//! destruction of stored objects.
//!
//! The crate models the arena at the level of addresses and bytes, so that
//! every placement, destructor registration and reclamation step carries a
//! verified contract:
//!
//! - [`Memory`] is a pool of equally sized byte blocks; arenas take blocks
//!   from it and return all of them when the last handle is gone.
//! - [`ArenaMetadata`] owns the block chain and the drop-list chain,
//!   performs bump placement with alignment, records destructor thunks and
//!   runs the drain when the strong count reaches zero.
//! - [`Arena`] and [`WeakArena`] are the strong and weak handles; the
//!   strong count gates destructor execution, the total count gates memory
//!   reclamation, and handle cloning and dropping are explicit
//!   reference-count steps on the arena state.
//! - The containers ([`N`], [`FixedArray`], [`Array`], [`List`], [`UStr`])
//!   place their contents through the arena and register the thunks that
//!   destroy them in a deterministic order.
//!
//! Destruction is observable through the arena's drop log: draining appends
//! the address of every destroyed value, in the exact order the destructor
//! thunks run, and that order is pinned by the drain contract.

mod memory;
mod block;
mod droplist;
mod arena;
mod n;
mod iter;
mod array_uninit;
mod array_fixed;
mod array;
mod list;
mod ustr;
mod traits;

pub use memory::{Memory, MemoryBuilder, ArenaMemoryInstance};
pub use block::{Block, PlacementError};
pub use droplist::{DropList, DropListWriteResult, DropItem, DropFn};
pub use arena::{Arena, WeakArena, ArenaMetadata, UploadError};
pub use n::N;
pub use iter::EmptyIfDeadIter;
pub use array_uninit::UninitArray;
pub use array_fixed::{FixedArray, ArrayInitializer};
pub use array::{Array, ArrayIter, GrowableArrayMetadata};
pub use list::{List, PartialSequence};
pub use ustr::{UStr, UStrError};
pub use traits::{MemurIterator, ToArenaArray, ToArenaFixedArray, ToArenaList};
