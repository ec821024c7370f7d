//! A NUL-terminated UTF-8 string stored in arena memory without a
//! destructor thunk: its bytes stay readable while any weak reference is
//! held, even after the arena's destructor chain has run.

use vstd::prelude::*;
use vstd::string::{StrSliceExecFns, StringSliceAdditionalSpecFns};
use crate::memory::Memory;
use crate::arena::{Arena, ArenaMetadata, UploadError, lemma_can_take_all_monotone};

verus! {

/// Longest accepted string in bytes, without the trailing NUL.
pub const MAX_USTR: usize = 65534;

/// Error while building a string in the arena.
#[derive(Debug, PartialEq, Eq, Structural)]
pub enum UStrError {
    /// The input holds a NUL byte, which the terminator would collide
    /// with.
    StrContainsNul,
    /// The input is longer than the accepted maximum.
    StringIsTooLong { length: usize, max_size: usize },
    /// The arena rejected the placement.
    UploadError(UploadError),
}

impl UStrError {
    /// A short description of the error, in place of a formatter-based
    /// rendering.
    pub fn description(&self) -> (r: String)
        ensures
            r@ == match self {
                UStrError::StrContainsNul => "Input str slice contains nul"@,
                UStrError::StringIsTooLong { .. } => "Input string is longer than the accepted maximum"@,
                UStrError::UploadError(e) => "Failed to upload to arena"@,
            },
    {
        match self {
            UStrError::StrContainsNul => "Input str slice contains nul".to_owned(),
            UStrError::StringIsTooLong { length: _, max_size: _ } =>
                "Input string is longer than the accepted maximum".to_owned(),
            UStrError::UploadError(_) => "Failed to upload to arena".to_owned(),
        }
    }
}

/// UTF-8 string that does not contain NUL bytes and is stored with a NUL
/// terminator.
///
/// The string is valid even when the strong arena handles are gone,
/// because it stands for a weak reference, which keeps the memory from
/// being returned to the pool as long as it is held. No destructor thunk
/// is registered for it.
pub struct UStr {
    /// Length of the stored bytes including the trailing NUL.
    pub cstr_with_nul_len: u16,
    /// Address of the first byte in the arena.
    pub first: usize,
}

impl UStr {
    /// The handle points at a placed span holding the bytes of `text`
    /// followed by one NUL.
    pub open spec fn wf(&self, md: &ArenaMetadata, text: Seq<u8>) -> bool {
        &&& self.cstr_with_nul_len == text.len() + 1
        &&& md.span_placed(self.first as int, self.cstr_with_nul_len as int)
        &&& md.bytes_at(self.first as int, self.cstr_with_nul_len as int) == text.push(0u8)
    }

    /// Initialize from a string slice: rejected when it is longer than
    /// [`MAX_USTR`] bytes or holds a NUL byte; otherwise its bytes and one
    /// trailing NUL are placed in the arena, and the handle counts as a
    /// weak reference.
    #[verifier::loop_isolation(false)]
    pub fn from_str(arena: &Arena, md: &mut ArenaMetadata, mem: &mut Memory, value: &str) -> (r:
        Result<UStr, UStrError>)
        requires
            old(md).wf(),
            old(md).is_alive(),
            old(md).last_block is Some,
            old(mem).wf(),
            old(mem).can_take_n(1),
            old(md).compatible_with(old(mem)),
            old(md).bases_below(old(mem).spec_next_base() as int),
            old(md).rc < i64::MAX,
        ensures
            ArenaMetadata::arena_preserved(*old(md), *final(md), *old(mem), *final(mem), 1),
            ArenaMetadata::registries_unchanged(*old(md), *final(md)),
            final(md).all_items() == old(md).all_items(),
            final(md).strong_rc == old(md).strong_rc,
            match r {
                Result::Ok(u) => {
                    &&& u.wf(final(md), value.spec_bytes())
                    &&& final(md).rc == old(md).rc + 1
                },
                Result::Err(e) => {
                    &&& final(md).rc == old(md).rc
                    &&& (e matches UStrError::StringIsTooLong { length, max_size } <==> (
                    value.spec_bytes().len() > MAX_USTR))
                    &&& (e == UStrError::StrContainsNul <==> (value.spec_bytes().len()
                        <= MAX_USTR && value.spec_bytes().contains(0u8)))
                },
            },
            r is Ok <==> (value.spec_bytes().len() <= MAX_USTR && !value.spec_bytes().contains(
                0u8,
            ) && old(md).can_place(value.spec_bytes().len() as int + 1, 1)),
            r is Err ==> *final(md) == *old(md) && *final(mem) == *old(mem),
    {
        let bytes = value.as_bytes_vec();
        let len = bytes.len();
        if len > MAX_USTR {
            proof {
                lemma_can_take_all_monotone(*mem);
            }
            return Err(UStrError::StringIsTooLong { length: len, max_size: MAX_USTR });
        }
        let mut i: usize = 0;
        while i < len
            invariant
                i <= len,
                len == bytes@.len(),
                bytes@ == value.spec_bytes(),
                forall|k: int| 0 <= k < i ==> bytes@[k] != 0u8,
                *md == *old(md),
                *mem == *old(mem),
            decreases len - i,
        {
            if bytes[i] == 0u8 {
                proof {
                    assert(value.spec_bytes().contains(0u8));
                    lemma_can_take_all_monotone(*mem);
                }
                return Err(UStrError::StrContainsNul);
            }
            i = i + 1;
        }
        proof {
            assert(!value.spec_bytes().contains(0u8)) by {
                if value.spec_bytes().contains(0u8) {
                    let k = choose|k: int|
                        0 <= k < value.spec_bytes().len() && value.spec_bytes()[k] == 0u8;
                    assert(bytes@[k] != 0u8);
                }
            }
        }
        UStr::from_str_unchecked(arena, md, mem, bytes)
    }

    /// Place already-checked bytes with one trailing NUL.
    fn from_str_unchecked(
        arena: &Arena,
        md: &mut ArenaMetadata,
        mem: &mut Memory,
        bytes: Vec<u8>,
    ) -> (r: Result<UStr, UStrError>)
        requires
            old(md).wf(),
            old(md).is_alive(),
            old(md).last_block is Some,
            old(mem).wf(),
            old(mem).can_take_n(1),
            old(md).compatible_with(old(mem)),
            old(md).bases_below(old(mem).spec_next_base() as int),
            old(md).rc < i64::MAX,
            bytes@.len() <= MAX_USTR,
        ensures
            ArenaMetadata::arena_preserved(*old(md), *final(md), *old(mem), *final(mem), 1),
            ArenaMetadata::registries_unchanged(*old(md), *final(md)),
            final(md).all_items() == old(md).all_items(),
            final(md).strong_rc == old(md).strong_rc,
            r is Ok <==> old(md).can_place(bytes@.len() as int + 1, 1),
            match r {
                Result::Ok(u) => {
                    &&& u.wf(final(md), bytes@)
                    &&& final(md).rc == old(md).rc + 1
                },
                Result::Err(e) => {
                    &&& e == UStrError::UploadError(UploadError::ItemDoesNotFit)
                    &&& final(md).rc == old(md).rc
                    &&& *final(md) == *old(md)
                    &&& *final(mem) == *old(mem)
                },
            },
    {
        let mut with_nul = bytes;
        with_nul.push(0u8);
        let cstr_with_nul_len = with_nul.len() as u16;
        match md.upload_no_drop_bytes(mem, &with_nul) {
            Result::Ok(addr) => {
                md.inc_weak();
                let u = UStr { cstr_with_nul_len, first: addr };
                proof {
                    assert(md.bytes_at(addr as int, with_nul@.len() as int) =~= with_nul@);
                }
                Ok(u)
            },
            Result::Err(e) => Err(UStrError::UploadError(e)),
        }
    }

    /// The address of the first byte; the bytes up to and including the
    /// trailing NUL stay valid while this handle is held.
    pub fn as_ptr(&self) -> (r: usize)
        ensures
            r == self.first,
    {
        self.first
    }

    /// The stored bytes including the trailing NUL, read back from the
    /// arena.
    pub fn bytes_with_nul(&self, md: &ArenaMetadata) -> (r: Vec<u8>)
        requires
            md.wf(),
            md.last_block is Some,
            md.span_placed(self.first as int, self.cstr_with_nul_len as int),
        ensures
            r@ == md.bytes_at(self.first as int, self.cstr_with_nul_len as int),
    {
        md.read_bytes(self.first, self.cstr_with_nul_len as usize)
    }

    /// Drop this string's weak reference; when the total count reaches
    /// zero the blocks go back to the pool and the bytes are gone.
    pub fn release(self, md: &mut ArenaMetadata, mem: &mut Memory)
        requires
            old(md).wf(),
            old(md).rc >= 1,
            old(md).rc >= old(md).strong_rc + 1,
            old(mem).wf(),
            old(md).compatible_with(old(mem)),
        ensures
            final(md).wf(),
            final(md).rc == old(md).rc - 1,
            final(md).strong_rc == old(md).strong_rc,
            final(md).block_size == old(md).block_size,
            final(md).stride == old(md).stride,
            final(md).drop_log == old(md).drop_log,
            final(md).drained == old(md).drained,
            final(mem).wf(),
            final(mem).same_config(old(mem)),
            final(md).compatible_with(final(mem)) == old(md).compatible_with(old(mem)),
            if old(md).rc == 1 {
                final(md).last_block is None && final(mem).spec_free_count() == old(
                    mem,
                ).spec_free_count() + old(md).block_count()
            } else {
                final(md).last_block == old(md).last_block && *final(mem) == *old(mem)
            },
    {
        md.dec_weak();
        if md.rc == 0 {
            md.reclaim_memory(mem);
        }
    }
}

} // verus!
