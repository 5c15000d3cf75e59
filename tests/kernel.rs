use marios_kernel::boot::{
    alloc_error_handler, check_framebuffer_size, get_first_ata_drive, get_user_partition, on_fatal,
    require_physical_memory_offset, FatalCause, FrameBufferShape, FramebufferSlot, KernelInitError,
    KernelState, Partition, SlotError,
};
use marios_kernel::boot_record::partition_entries;
use marios_kernel::bytes::read_le;
use marios_kernel::elf::{parse_elf, segment_permissions, LoadError, Segment, USER_STACK_TOP};
use marios_kernel::frame::{FrameAllocator, FrameError, MemoryRegion, RegionKind};
use marios_kernel::heap::{HeapAllocator, HeapError};
use marios_kernel::loader::{load_program, segment_page_bytes};
use marios_kernel::paging::{AddressSpace, MapError, Permissions};

fn put_u16(b: &mut [u8], off: usize, v: u16) {
    b[off..off + 2].copy_from_slice(&v.to_le_bytes());
}

fn put_u32(b: &mut [u8], off: usize, v: u32) {
    b[off..off + 4].copy_from_slice(&v.to_le_bytes());
}

fn put_u64(b: &mut [u8], off: usize, v: u64) {
    b[off..off + 8].copy_from_slice(&v.to_le_bytes());
}

/// A boot record with two entries: (status, tag, start sector, sector count).
fn boot_record(e0: (u8, u8, u32, u32), e1: (u8, u8, u32, u32)) -> Vec<u8> {
    let mut b = vec![0u8; 512];
    for (i, e) in [e0, e1].iter().enumerate() {
        let off = 446 + 16 * i;
        b[off] = e.0;
        b[off + 4] = e.1;
        put_u32(&mut b, off + 8, e.2);
        put_u32(&mut b, off + 12, e.3);
    }
    b[510] = 0x55;
    b[511] = 0xaa;
    b
}

/// An x86-64 executable with the given (flags, vaddr, file size, mem size) segments.
fn elf_image(segments: &[(u32, u64, u64, u64)]) -> Vec<u8> {
    let ph_count = segments.len();
    let data_start = 64 + 56 * ph_count;
    let mut b = vec![0u8; data_start + 0x100];
    b[0..4].copy_from_slice(&[0x7f, b'E', b'L', b'F']);
    b[4] = 2;
    b[5] = 1;
    b[6] = 1;
    put_u16(&mut b, 16, 2);
    put_u16(&mut b, 18, 0x3e);
    put_u64(&mut b, 24, 0x40_1000);
    put_u64(&mut b, 32, 64);
    put_u16(&mut b, 54, 56);
    put_u16(&mut b, 56, ph_count as u16);
    for (i, s) in segments.iter().enumerate() {
        let ph = 64 + 56 * i;
        put_u32(&mut b, ph, 1);
        put_u32(&mut b, ph + 4, s.0);
        put_u64(&mut b, ph + 8, data_start as u64);
        put_u64(&mut b, ph + 16, s.1);
        put_u64(&mut b, ph + 32, s.2);
        put_u64(&mut b, ph + 40, s.3);
    }
    for k in 0..0x100 {
        b[data_start + k] = (k as u8) | 1;
    }
    b
}

fn one_region_allocator(start: u64, end: u64) -> FrameAllocator {
    FrameAllocator::new(vec![MemoryRegion { start, end, kind: RegionKind::Usable }])
}

#[test]
fn framebuffer_800x600_is_rejected() {
    let fb = FrameBufferShape { width: 800, height: 600, bytes_per_pixel: 4 };
    assert_eq!(check_framebuffer_size(fb), Err(KernelInitError::FramebufferWrongSize));
}

#[test]
fn framebuffer_640x480_passes() {
    let fb = FrameBufferShape { width: 640, height: 480, bytes_per_pixel: 4 };
    assert_eq!(check_framebuffer_size(fb), Ok(()));
    let fb3 = FrameBufferShape { width: 640, height: 480, bytes_per_pixel: 3 };
    assert_eq!(check_framebuffer_size(fb3), Err(KernelInitError::FramebufferWrongSize));
}

#[test]
fn physical_memory_offset_must_be_present() {
    assert_eq!(require_physical_memory_offset(Some(0xf000_0000_0000)), Ok(0xf000_0000_0000));
    assert_eq!(require_physical_memory_offset(None), Err(KernelInitError::PhysicalMemoryNotMapped));
}

#[test]
fn first_drive_or_no_drive() {
    assert_eq!(get_first_ata_drive(3), Ok(0));
    assert_eq!(get_first_ata_drive(0), Err(KernelInitError::AtaNoDrive));
}

#[test]
fn boot_record_unused_entry_zero_is_rejected() {
    let b = boot_record((0, 0, 0, 0), (0, 0x0c, 2048, 4096));
    assert_eq!(get_user_partition(&b), Err(KernelInitError::InvalidDiskMbr));
}

#[test]
fn boot_record_user_partition_found() {
    let b = boot_record((0x80, 0x83, 0, 2048), (0, 0x0c, 2048, 4096));
    let p = get_user_partition(&b).unwrap();
    assert_eq!(p, Partition { start_sector: 2048, sector_count: 4096 });
    assert_eq!(p.size_in_kib(), 2048);
}

#[test]
fn boot_record_layout_violations() {
    let not_bootable = boot_record((0, 0x83, 0, 2048), (0, 0x0c, 2048, 4096));
    assert_eq!(get_user_partition(&not_bootable), Err(KernelInitError::InvalidDiskMbr));
    let not_at_zero = boot_record((0x80, 0x83, 1, 2048), (0, 0x0c, 2048, 4096));
    assert_eq!(get_user_partition(&not_at_zero), Err(KernelInitError::InvalidDiskMbr));
    let no_user = boot_record((0x80, 0x83, 0, 2048), (0, 0, 0, 0));
    assert_eq!(get_user_partition(&no_user), Err(KernelInitError::InvalidDiskMbr));
    let mut bad_signature = boot_record((0x80, 0x83, 0, 2048), (0, 0x0c, 2048, 4096));
    bad_signature[511] = 0;
    assert_eq!(get_user_partition(&bad_signature), Err(KernelInitError::InvalidDiskMbr));
    let unknown_tag = boot_record((0x80, 0x83, 0, 2048), (0, 0x42, 2048, 4096));
    assert_eq!(get_user_partition(&unknown_tag), Err(KernelInitError::InvalidDiskMbr));
    assert_eq!(get_user_partition(&[0u8; 100]), Err(KernelInitError::InvalidDiskMbr));
}

#[test]
fn boot_record_entries_are_decoded() {
    let b = boot_record((0x80, 0x83, 0x0102_0304, 7), (0, 0x0c, 2048, 4096));
    let entries = partition_entries(&b).unwrap();
    assert_eq!(entries.len(), 4);
    assert_eq!(entries[0].tag, 0x83);
    assert_eq!(entries[0].start_sector, 0x0102_0304);
    assert_eq!(entries[0].sector_count, 7);
    assert_eq!(entries[1].tag, 0x0c);
    assert_eq!(entries[2].tag, 0);
}

#[test]
fn little_endian_read() {
    let b = [0x78u8, 0x56, 0x34, 0x12, 0xff];
    assert_eq!(read_le(&b, 0, 4), 0x1234_5678);
    assert_eq!(read_le(&b, 3, 2), 0xff12);
    assert_eq!(read_le(&b, 0, 0), 0);
}

#[test]
fn fatal_conditions_halt() {
    assert_eq!(alloc_error_handler(64, 8), FatalCause::AllocFailed { size: 64, align: 8 });
    assert_eq!(on_fatal(KernelState::Running, FatalCause::Panic), KernelState::Halted);
    assert_eq!(on_fatal(KernelState::Halted, FatalCause::UnhandledException { vector: 14 }), KernelState::Halted);
}

#[test]
fn framebuffer_slot_is_set_once() {
    let mut slot = FramebufferSlot::new();
    assert_eq!(slot.get(), Err(SlotError::NotSet));
    let fb = FrameBufferShape { width: 640, height: 480, bytes_per_pixel: 4 };
    assert_eq!(slot.set(fb), Ok(()));
    assert_eq!(slot.get(), Ok(fb));
    let other = FrameBufferShape { width: 800, height: 600, bytes_per_pixel: 4 };
    assert_eq!(slot.set(other), Err(SlotError::AlreadySet));
    assert_eq!(slot.get(), Ok(fb));
}

#[test]
fn frames_are_distinct_aligned_and_usable() {
    let mut alloc = FrameAllocator::new(vec![
        MemoryRegion { start: 0x1000, end: 0x3800, kind: RegionKind::Usable },
        MemoryRegion { start: 0x10000, end: 0x20000, kind: RegionKind::Reserved },
        MemoryRegion { start: 0x20800, end: 0x22000, kind: RegionKind::Usable },
    ]);
    let mut got = Vec::new();
    while let Ok(f) = alloc.allocate() {
        got.push(f);
    }
    assert_eq!(got, vec![0x1000, 0x2000, 0x21000]);
    assert_eq!(alloc.allocate(), Err(FrameError::OutOfMemory));
}

#[test]
fn freed_frame_is_reused() {
    let mut alloc = one_region_allocator(0, 0x10000);
    let a = alloc.allocate().unwrap();
    let b = alloc.allocate().unwrap();
    assert_ne!(a, b);
    alloc.deallocate(a);
    assert_eq!(alloc.allocate(), Ok(a));
    assert_eq!(alloc.allocate(), Ok(0x2000));
}

#[test]
fn no_usable_memory() {
    let mut alloc = FrameAllocator::new(vec![MemoryRegion { start: 0, end: 0x10000, kind: RegionKind::Bootloader }]);
    assert_eq!(alloc.allocate(), Err(FrameError::OutOfMemory));
}

#[test]
fn map_translate_unmap_round_trip() {
    let mut alloc = one_region_allocator(0x10_0000, 0x20_0000);
    let mut space = AddressSpace::new(&mut alloc).unwrap();
    let perms = Permissions { writable: true, user: true, executable: false };
    assert_eq!(space.translate(0x40_0000), None);
    assert_eq!(space.map(&mut alloc, 0x40_0000, 0x5000, perms), Ok(()));
    assert_eq!(space.translate(0x40_0000), Some(0x5000));
    assert_eq!(space.lookup(0x40_0000).unwrap().perms, perms);
    assert_eq!(space.unmap(0x40_0000), Some(0x5000));
    assert_eq!(space.translate(0x40_0000), None);
    assert_eq!(space.unmap(0x40_0000), None);
}

#[test]
fn double_map_is_refused() {
    let mut alloc = one_region_allocator(0x10_0000, 0x20_0000);
    let mut space = AddressSpace::new(&mut alloc).unwrap();
    let perms = Permissions { writable: false, user: true, executable: true };
    assert_eq!(space.map(&mut alloc, 0x40_0000, 0x5000, perms), Ok(()));
    assert_eq!(space.map(&mut alloc, 0x40_0000, 0x6000, perms), Err(MapError::AlreadyMapped));
    assert_eq!(space.translate(0x40_0000), Some(0x5000));
}

#[test]
fn map_without_frames_for_tables_fails() {
    let mut alloc = one_region_allocator(0x10_0000, 0x10_2000);
    let mut space = AddressSpace::new(&mut alloc).unwrap();
    let perms = Permissions { writable: false, user: true, executable: false };
    assert_eq!(space.map(&mut alloc, 0x40_0000, 0x5000, perms), Err(MapError::OutOfMemory));
    assert_eq!(space.translate(0x40_0000), None);
}

#[test]
fn heap_grants_do_not_overlap() {
    let mut heap = HeapAllocator::new(0x4444_0000, 0x1000);
    let a = heap.allocate(10, 1).unwrap();
    let b = heap.allocate(16, 16).unwrap();
    assert_eq!(a, 0x4444_0000);
    assert_eq!(b, 0x4444_0010);
    assert!(a + 10 <= b);
    assert_eq!(heap.allocate(0x1000, 8), Err(HeapError::OutOfMemory));
    heap.deallocate(a, 10);
    heap.deallocate(b, 16);
    assert_eq!(heap.allocate(0x1000, 8), Ok(0x4444_0000));
}

#[test]
fn elf_bad_magic_is_invalid() {
    let mut b = elf_image(&[(5, 0x40_0000, 0x10, 0x10)]);
    b[1] = b'X';
    assert_eq!(parse_elf(&b).unwrap_err(), LoadError::InvalidFormat);
    assert_eq!(parse_elf(&[0x7f, b'E']).unwrap_err(), LoadError::InvalidFormat);
}

#[test]
fn elf_not_executable_is_invalid() {
    let mut b = elf_image(&[(5, 0x40_0000, 0x10, 0x10)]);
    b[16] = 3;
    assert_eq!(parse_elf(&b).unwrap_err(), LoadError::InvalidFormat);
}

#[test]
fn elf_overlapping_segments_are_rejected() {
    let b = elf_image(&[(5, 0x40_0000, 0x10, 0x2000), (6, 0x40_1000, 0x10, 0x1000)]);
    assert_eq!(parse_elf(&b).unwrap_err(), LoadError::OverlappingSegments);
}

#[test]
fn elf_segment_in_kernel_range_is_rejected() {
    let b = elf_image(&[(5, 0xffff_8000_0000_0000, 0x10, 0x1000)]);
    assert_eq!(parse_elf(&b).unwrap_err(), LoadError::SegmentOverlapsKernel);
    let stack = elf_image(&[(6, USER_STACK_TOP - 0x1000, 0x10, 0x1000)]);
    assert_eq!(parse_elf(&stack).unwrap_err(), LoadError::SegmentOverlapsKernel);
}

#[test]
fn elf_file_larger_than_memory_is_invalid() {
    let b = elf_image(&[(5, 0x40_0000, 0x20, 0x10)]);
    assert_eq!(parse_elf(&b).unwrap_err(), LoadError::InvalidFormat);
}

#[test]
fn elf_valid_image_is_parsed() {
    let b = elf_image(&[(5, 0x40_0000, 0x80, 0x80), (6, 0x40_1000, 0x10, 0x2000)]);
    let img = parse_elf(&b).unwrap();
    assert_eq!(img.entry, 0x40_1000);
    assert_eq!(img.segments.len(), 2);
    assert_eq!(img.segments[1], Segment { vaddr: 0x40_1000, offset: 64 + 112, file_size: 0x10, mem_size: 0x2000, flags: 6 });
}

#[test]
fn segment_flags_to_permissions() {
    let rx = segment_permissions(4 | 1);
    assert!(!rx.writable && rx.executable && rx.user);
    let rw = segment_permissions(4 | 2);
    assert!(rw.writable && !rw.executable);
    let rwx = segment_permissions(7);
    assert!(rwx.writable && !rwx.executable);
}

#[test]
fn program_is_loaded_with_stack() {
    let b = elf_image(&[(5, 0x40_0000, 0x80, 0x80), (6, 0x40_1000, 0x10, 0x2000)]);
    let img = parse_elf(&b).unwrap();
    let mut alloc = one_region_allocator(0x10_0000, 0x100_0000);
    let mut space = AddressSpace::new(&mut alloc).unwrap();
    let prog = load_program(&img, &mut space, &mut alloc).unwrap();
    assert_eq!(prog.entry, 0x40_1000);
    assert_eq!(prog.stack_top, USER_STACK_TOP);
    let text = space.lookup(0x40_0000).unwrap().perms;
    assert!(!text.writable && text.executable);
    let data = space.lookup(0x40_2000).unwrap().perms;
    assert!(data.writable && !data.executable);
    assert!(space.lookup(0x40_3000).is_none());
    let stack = space.lookup(USER_STACK_TOP - 0x1000).unwrap().perms;
    assert!(stack.writable && !stack.executable);
    assert!(space.lookup(USER_STACK_TOP).is_none());
}

#[test]
fn page_bytes_copy_then_zero() {
    let b = elf_image(&[(6, 0x40_1008, 0x10, 0x2000)]);
    let img = parse_elf(&b).unwrap();
    let page = segment_page_bytes(&b, img.segments[0], 0x40_1000);
    assert_eq!(page.len(), 4096);
    assert_eq!(page[7], 0);
    assert_eq!(page[8], b[64 + 56]);
    assert_eq!(page[8 + 15], b[64 + 56 + 15]);
    assert_eq!(page[8 + 16], 0);
}

#[test]
fn usable_region_overlapping_reserved_is_skipped() {
    let mut alloc = FrameAllocator::new(vec![
        MemoryRegion { start: 0x1000, end: 0x4000, kind: RegionKind::Usable },
        MemoryRegion { start: 0x3000, end: 0x5000, kind: RegionKind::Bootloader },
        MemoryRegion { start: 0x8000, end: 0x9000, kind: RegionKind::Usable },
    ]);
    assert_eq!(alloc.allocate(), Ok(0x8000));
    assert_eq!(alloc.allocate(), Err(FrameError::OutOfMemory));
}

#[test]
fn descending_regions_are_all_used() {
    let mut alloc = FrameAllocator::new(vec![
        MemoryRegion { start: 0x10000, end: 0x12000, kind: RegionKind::Usable },
        MemoryRegion { start: 0x1000, end: 0x3000, kind: RegionKind::Usable },
    ]);
    let mut got = Vec::new();
    while let Ok(f) = alloc.allocate() {
        got.push(f);
    }
    got.sort();
    assert_eq!(got, vec![0x1000, 0x2000, 0x10000, 0x11000]);
}

#[test]
fn repeated_usable_memory_is_handed_out_once() {
    let mut alloc = FrameAllocator::new(vec![
        MemoryRegion { start: 0x1000, end: 0x3000, kind: RegionKind::Usable },
        MemoryRegion { start: 0x2000, end: 0x5000, kind: RegionKind::Usable },
    ]);
    assert_eq!(alloc.allocate(), Ok(0x1000));
    assert_eq!(alloc.allocate(), Ok(0x2000));
    assert_eq!(alloc.allocate(), Err(FrameError::OutOfMemory));
}

#[test]
fn segments_sharing_a_page_fail_to_load() {
    let b = elf_image(&[(5, 0x40_0000, 0x10, 0x10), (6, 0x40_0800, 0x10, 0x10)]);
    let img = parse_elf(&b).unwrap();
    let mut alloc = one_region_allocator(0x10_0000, 0x100_0000);
    let mut space = AddressSpace::new(&mut alloc).unwrap();
    assert_eq!(load_program(&img, &mut space, &mut alloc), Err(LoadError::AlreadyMapped));
}

#[test]
fn loading_without_memory_fails() {
    let b = elf_image(&[(5, 0x40_0000, 0x80, 0x80)]);
    let img = parse_elf(&b).unwrap();
    let mut alloc = one_region_allocator(0x10_0000, 0x10_3000);
    let mut space = AddressSpace::new(&mut alloc).unwrap();
    assert_eq!(load_program(&img, &mut space, &mut alloc), Err(LoadError::OutOfMemory));
}

#[test]
fn elf_overlap_is_reported_before_malformed_segment() {
    let b = elf_image(&[(5, 0x40_0000, 0x10_0000, 0x10_0000), (6, 0x40_1000, 0x10, 0x1000)]);
    assert_eq!(parse_elf(&b).unwrap_err(), LoadError::OverlappingSegments);
}
