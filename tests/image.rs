use tau_image::compose::{LOADER_PATH, SUPERVISOR_PATH, SYSTEM_PATH};
use tau_image::{compose_tau_image, elf_to_raw, place_segments, ComposeError, ElfError, Segment};

/// A little-endian ELF64 RISC-V executable with one loadable segment per
/// entry of `segs`: (virtual address, file bytes, memory size).
fn elf(segs: &[(u64, &[u8], u64)]) -> Vec<u8> {
    let mut out = Vec::new();
    out.extend_from_slice(&[0x7f, b'E', b'L', b'F', 2, 1, 1, 0]);
    out.extend_from_slice(&[0; 8]);
    out.extend_from_slice(&2u16.to_le_bytes());
    out.extend_from_slice(&0xf3u16.to_le_bytes());
    out.extend_from_slice(&1u32.to_le_bytes());
    out.extend_from_slice(&segs.first().map(|s| s.0).unwrap_or(0).to_le_bytes());
    out.extend_from_slice(&64u64.to_le_bytes());
    out.extend_from_slice(&0u64.to_le_bytes());
    out.extend_from_slice(&0u32.to_le_bytes());
    out.extend_from_slice(&64u16.to_le_bytes());
    out.extend_from_slice(&56u16.to_le_bytes());
    out.extend_from_slice(&(segs.len() as u16).to_le_bytes());
    out.extend_from_slice(&64u16.to_le_bytes());
    out.extend_from_slice(&0u16.to_le_bytes());
    out.extend_from_slice(&0u16.to_le_bytes());
    let mut data_off = 64 + 56 * segs.len() as u64;
    for (vaddr, bytes, memsz) in segs {
        out.extend_from_slice(&1u32.to_le_bytes());
        out.extend_from_slice(&5u32.to_le_bytes());
        out.extend_from_slice(&data_off.to_le_bytes());
        out.extend_from_slice(&vaddr.to_le_bytes());
        out.extend_from_slice(&vaddr.to_le_bytes());
        out.extend_from_slice(&(bytes.len() as u64).to_le_bytes());
        out.extend_from_slice(&memsz.to_le_bytes());
        out.extend_from_slice(&8u64.to_le_bytes());
        data_off += bytes.len() as u64;
    }
    for (_, bytes, _) in segs {
        out.extend_from_slice(bytes);
    }
    out
}

#[test]
fn compose_stub_round_trip() {
    let loader = elf(&[(0x1000, &[0xAA; 16], 16)]);
    let supervisor = elf(&[(0x8020_0000, &[0xBB; 8], 8)]);
    let system = vec![1u8, 2, 3];
    let image = compose_tau_image(&loader, &supervisor, &system).ok().unwrap();
    assert_eq!(image.len(), 0x40000);
    assert_eq!(&image[0..16], &[0xAA; 16]);
    assert!(image[16..0x5000].iter().all(|b| *b == 0));
    assert_eq!(&image[0x5000..0x5008], &[0xBB; 8]);
    assert!(image[0x5008..0x10000].iter().all(|b| *b == 0));
    assert_eq!(&image[0x10000..0x10003], &[1, 2, 3]);
    assert!(image[0x10003..].iter().all(|b| *b == 0));
}

#[test]
fn compose_is_repeatable() {
    let loader = elf(&[(0x1000, &[0x11, 0x22, 0x33], 3)]);
    let supervisor = elf(&[(0x2000, &[0x44; 5], 5)]);
    let system = vec![9u8; 100];
    let a = compose_tau_image(&loader, &supervisor, &system).ok().unwrap();
    let b = compose_tau_image(&loader, &supervisor, &system).ok().unwrap();
    assert_eq!(a, b);
}

#[test]
fn compose_system_too_large() {
    let loader = elf(&[(0x1000, &[1], 1)]);
    let supervisor = elf(&[(0x2000, &[2], 1)]);
    let system = vec![7u8; 0x30001];
    let err: ComposeError = compose_tau_image(&loader, &supervisor, &system).err().unwrap();
    assert_eq!(err.file, SYSTEM_PATH);
    assert!(matches!(err.err, ElfError::ElfOutputTooSmall));
    let fits = vec![7u8; 0x30000];
    let image = compose_tau_image(&loader, &supervisor, &fits).ok().unwrap();
    assert_eq!(image.len(), 0x40000);
    assert_eq!(image[0x3FFFF], 7);
}

#[test]
fn compose_names_the_failing_artifact() {
    let good = elf(&[(0x1000, &[1], 1)]);
    let err = compose_tau_image(b"not an executable", &good, &[]).err().unwrap();
    assert_eq!(err.file, LOADER_PATH);
    assert!(matches!(err.err, ElfError::ElfParse(_)));
    let big = elf(&[(0x1000, &[5u8; 0xB001], 0xB001)]);
    let err = compose_tau_image(&good, &big, &[]).err().unwrap();
    assert_eq!(err.file, SUPERVISOR_PATH);
    assert!(matches!(err.err, ElfError::ElfSegment));
}

#[test]
fn elf_to_raw_places_segments_by_offset() {
    let data = elf(&[(0x1000, &[1, 2, 3, 4], 4), (0x1008, &[5, 6], 2)]);
    let mut image = vec![0u8; 16];
    assert!(elf_to_raw(&data, &mut image).is_ok());
    assert_eq!(image, vec![1, 2, 3, 4, 0, 0, 0, 0, 5, 6, 0, 0, 0, 0, 0, 0]);
}

#[test]
fn elf_to_raw_bss_stays_zero() {
    let data = elf(&[(0x4000, &[0xEE; 4], 12), (0x4010, &[0xDD; 2], 2)]);
    let mut image = vec![0u8; 0x20];
    assert!(elf_to_raw(&data, &mut image).is_ok());
    assert_eq!(&image[0..4], &[0xEE; 4]);
    assert!(image[4..0x10].iter().all(|b| *b == 0));
    assert_eq!(&image[0x10..0x12], &[0xDD; 2]);
}

#[test]
fn elf_to_raw_segment_out_of_range() {
    let data = elf(&[(0x1000, &[1; 8], 8), (0x1010, &[2; 8], 8)]);
    let mut image = vec![0u8; 0x14];
    let r = elf_to_raw(&data, &mut image);
    assert!(matches!(r, Err(ElfError::ElfSegment)));
    assert_eq!(image.len(), 0x14);
}

#[test]
fn elf_to_raw_exact_fit() {
    let data = elf(&[(0x1000, &[3; 8], 8)]);
    let mut image = vec![0u8; 8];
    assert!(elf_to_raw(&data, &mut image).is_ok());
    assert_eq!(image, vec![3; 8]);
}

#[test]
fn elf_to_raw_rejects_garbage() {
    let mut image = vec![0u8; 8];
    let r = elf_to_raw(&[0u8; 10], &mut image);
    assert!(matches!(r, Err(ElfError::ElfParse(_))));
    assert_eq!(image, vec![0u8; 8]);
}

#[test]
fn place_segments_skips_empty_segments() {
    let segs = vec![
        Segment { address: 0x10, size: 0, data: vec![] },
        Segment { address: 0x20, size: 8, data: vec![] },
        Segment { address: 0x22, size: 2, data: vec![9, 8] },
    ];
    let mut image = vec![0u8; 4];
    assert!(place_segments(&segs, &mut image).is_ok());
    assert_eq!(image, vec![0, 0, 9, 8]);
}

#[test]
fn place_segments_later_segment_wins() {
    let segs = vec![
        Segment { address: 0x100, size: 4, data: vec![1, 1, 1, 1] },
        Segment { address: 0x102, size: 2, data: vec![2, 2] },
    ];
    let mut image = vec![0u8; 6];
    assert!(place_segments(&segs, &mut image).is_ok());
    assert_eq!(image, vec![1, 1, 2, 2, 0, 0]);
}

#[test]
fn place_segments_keeps_untouched_bytes() {
    let segs = vec![Segment { address: 0x8, size: 2, data: vec![4, 5] }];
    let mut image = vec![7u8; 4];
    assert!(place_segments(&segs, &mut image).is_ok());
    assert_eq!(image, vec![4, 5, 7, 7]);
    let too_far = vec![
        Segment { address: 0x8, size: 1, data: vec![1] },
        Segment { address: 0xC, size: 1, data: vec![1] },
    ];
    let mut image = vec![0u8; 4];
    assert!(matches!(place_segments(&too_far, &mut image), Err(ElfError::ElfSegment)));
}

#[test]
fn compose_error_constructors() {
    let e = ComposeError::io("a/b", std::io::Error::other("gone"));
    assert_eq!(e.file, "a/b");
    assert!(matches!(e.err, ElfError::Read(_)));
    let e = ComposeError::err("c", ElfError::ElfSegment);
    assert_eq!(e.file, "c");
    assert!(matches!(e.err, ElfError::ElfSegment));
}
