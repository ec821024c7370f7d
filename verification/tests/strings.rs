use memur::{Memory, Arena, UStr, UStrError};

#[test]
fn test_str() {
    let mut memory = Memory::new();
    let (arena, mut md) = Arena::new(&mut memory).unwrap();
    let s = UStr::from_str(&arena, &mut md, &mut memory, "hello world!").expect(
        "failed to create",
    );
    let bytes = s.bytes_with_nul(&md);
    assert_eq!(b"hello world!\0".to_vec(), bytes);
    assert_eq!(
        "hello world!",
        std::str::from_utf8(&bytes[..bytes.len() - 1]).unwrap()
    );
    s.release(&mut md, &mut memory);
    arena.release(&mut md, &mut memory);
}

#[test]
fn test_str_with_nul() {
    let mut memory = Memory::new();
    let (arena, mut md) = Arena::new(&mut memory).unwrap();
    assert!(UStr::from_str(&arena, &mut md, &mut memory, "hello\0world!").is_err());
    assert_eq!(
        UStr::from_str(&arena, &mut md, &mut memory, "hello\0world!").err(),
        Some(UStrError::StrContainsNul)
    );
    arena.release(&mut md, &mut memory);
}

#[test]
fn too_long_strings_are_rejected() {
    let mut memory = Memory::new();
    let (arena, mut md) = Arena::new(&mut memory).unwrap();
    let long = "x".repeat(65535);
    assert_eq!(
        UStr::from_str(&arena, &mut md, &mut memory, &long).err(),
        Some(UStrError::StringIsTooLong { length: 65535, max_size: 65534 })
    );
    let just_fits = "x".repeat(65534);
    // The default 64 KiB block cannot host 65535 bytes beside the drop
    // list, but a fresh block is not enough either, so the placement is
    // rejected rather than silently truncated.
    match UStr::from_str(&arena, &mut md, &mut memory, &just_fits) {
        Ok(s) => {
            let bytes = s.bytes_with_nul(&md);
            assert_eq!(bytes.len(), 65535);
            s.release(&mut md, &mut memory);
        }
        Err(e) => {
            assert_eq!(e, UStrError::UploadError(memur::UploadError::ItemDoesNotFit));
        }
    }
    arena.release(&mut md, &mut memory);
}
