use enos::memory::{
    available_memory_kb, map_steps_fit, memory_map_entries, read_entry, BumpAllocator,
    MemoryMapEntry, MultibootInfo, MULTIBOOT_FLAG_MMAP, PAGE_SIZE,
};

fn info(flags: u32, mmap_length: u32) -> MultibootInfo {
    MultibootInfo {
        flags,
        mem_lower: 0,
        mem_upper: 0,
        boot_device: 0,
        cmdline: 0,
        mods_count: 0,
        mods_addr: 0,
        syms: [0; 4],
        mmap_length,
        mmap_addr: 0x9000,
        drives_length: 0,
        drives_addr: 0,
        config_table: 0,
        boot_loader_name: 0,
        apm_table: 0,
        vbe_control_info: 0,
        vbe_mode_info: 0,
        vbe_mode: 0,
        vbe_interface_seg: 0,
        vbe_interface_off: 0,
        vbe_interface_len: 0,
    }
}

fn push_u32(buf: &mut Vec<u8>, v: u32) {
    buf.extend_from_slice(&v.to_le_bytes());
}

/// One 24-byte memory-map entry (size field 20).
fn push_entry(buf: &mut Vec<u8>, base: u64, len: u64, kind: u32) {
    push_u32(buf, 20);
    push_u32(buf, base as u32);
    push_u32(buf, (base >> 32) as u32);
    push_u32(buf, len as u32);
    push_u32(buf, (len >> 32) as u32);
    push_u32(buf, kind);
}

fn allocator(map: Vec<u8>, kernel_start: u32, kernel_end: u32) -> BumpAllocator {
    let i = info(MULTIBOOT_FLAG_MMAP, map.len() as u32);
    assert!(map_steps_fit(&map));
    BumpAllocator::new(&i, map, kernel_start, kernel_end)
}

#[test]
fn read_entry_decodes_little_endian_fields() {
    let mut map = Vec::new();
    push_entry(&mut map, 0x1_0000_2000, 0x3000, 2);
    let e = read_entry(&map, 0);
    assert_eq!(e.size, 20);
    assert_eq!(e.base_addr_low, 0x2000);
    assert_eq!(e.base_addr_high, 1);
    assert_eq!(e.length_low, 0x3000);
    assert_eq!(e.length_high, 0);
    assert_eq!(e.buffer_type, 2);
    assert!(!e.is_available());
}

#[test]
fn first_frames_skip_low_memory_and_kernel_image() {
    let mut map = Vec::new();
    push_entry(&mut map, 0, 0x0200_0000, 1);
    let mut a = allocator(map, 0x0010_0000, 0x0010_4800);
    let f1 = a.allocate_frame().unwrap();
    let f2 = a.allocate_frame().unwrap();
    let f3 = a.allocate_frame().unwrap();
    assert_eq!(f1.start_address, 0x0010_5000);
    assert_eq!(f2.start_address, 0x0010_6000);
    assert_eq!(f3.start_address, 0x0010_7000);
}

#[test]
fn reserved_regions_are_skipped_and_small_regions_run_out() {
    let mut map = Vec::new();
    push_entry(&mut map, 0x0010_0000, 0x0010_0000, 2);
    push_entry(&mut map, 0x0020_0000, 2 * PAGE_SIZE as u64, 1);
    let mut a = allocator(map, 0x0080_0000, 0x0090_0000);
    assert_eq!(a.allocate_frame().unwrap().start_address, 0x0020_0000);
    assert_eq!(a.allocate_frame().unwrap().start_address, 0x0020_1000);
    assert!(a.allocate_frame().is_none());
    assert!(a.allocate_frame().is_none());
}

#[test]
fn region_start_is_rounded_up_to_a_page() {
    let mut map = Vec::new();
    push_entry(&mut map, 0x0030_0010, 0x3000, 1);
    let mut a = allocator(map, 0x0010_0000, 0x0010_1000);
    assert_eq!(a.allocate_frame().unwrap().start_address, 0x0030_1000);
    assert_eq!(a.allocate_frame().unwrap().start_address, 0x0030_2000);
    assert!(a.allocate_frame().is_none());
}

#[test]
fn regions_above_four_gib_give_no_frames() {
    let mut map = Vec::new();
    push_entry(&mut map, 0x1_0000_0000, 0x0010_0000, 1);
    let mut a = allocator(map, 0x0010_0000, 0x0010_1000);
    assert!(a.allocate_frame().is_none());
}

#[test]
fn missing_memory_map_gives_no_frames() {
    let mut map = Vec::new();
    push_entry(&mut map, 0, 0x0200_0000, 1);
    let i = info(0, map.len() as u32);
    assert!(!i.has_memory_map());
    let mut a = BumpAllocator::new(&i, map, 0x0010_0000, 0x0010_1000);
    assert!(a.allocate_frame().is_none());
}

#[test]
fn frames_are_page_aligned_and_increasing() {
    let mut map = Vec::new();
    push_entry(&mut map, 0x0010_0000, 0x0004_0000, 1);
    push_entry(&mut map, 0x0100_0000, 0x0000_8000, 1);
    let mut a = allocator(map, 0x0011_0000, 0x0011_2000);
    let mut last: Option<u32> = None;
    let mut count = 0;
    while let Some(f) = a.allocate_frame() {
        assert_eq!(f.start_address % PAGE_SIZE, 0);
        assert!(f.start_address >= 0x0010_0000);
        assert!(f.start_address + PAGE_SIZE <= 0x0011_0000 || f.start_address >= 0x0011_2000);
        if let Some(prev) = last {
            assert!(f.start_address > prev);
        }
        last = Some(f.start_address);
        count += 1;
    }
    // 64 pages in the first region minus 2 for the kernel, 8 in the second.
    assert_eq!(count, 62 + 8);
}

#[test]
fn align_up_rounds_to_the_next_multiple() {
    assert_eq!(BumpAllocator::align_up(0, 4096), 0);
    assert_eq!(BumpAllocator::align_up(1, 4096), 4096);
    assert_eq!(BumpAllocator::align_up(4096, 4096), 4096);
    assert_eq!(BumpAllocator::align_up(0x0010_0001, 0x1000), 0x0010_1000);
}

#[test]
fn map_steps_fit_rejects_oversized_entry() {
    let mut map = Vec::new();
    push_entry(&mut map, 0, 0x1000, 1);
    assert!(map_steps_fit(&map));
    let mut bad = Vec::new();
    push_u32(&mut bad, 0xFFFF_FFFC);
    push_u32(&mut bad, 0);
    assert!(!map_steps_fit(&bad));
}

#[test]
fn entries_and_available_memory() {
    let mut map = Vec::new();
    push_entry(&mut map, 0, 0x9FC00, 1);
    push_entry(&mut map, 0x9FC00, 0x400, 2);
    push_entry(&mut map, 0x0010_0000, 0x7EE_0000, 1);
    let entries: Vec<MemoryMapEntry> = memory_map_entries(&map);
    assert_eq!(entries.len(), 3);
    assert_eq!(entries[1].buffer_type, 2);
    assert_eq!(entries[2].base_addr_low, 0x0010_0000);
    assert_eq!(available_memory_kb(&entries), 639 + 129920);
}

#[test]
fn frames_from_regions_out_of_address_order_stay_distinct() {
    let mut map = Vec::new();
    push_entry(&mut map, 0x0200_0000, 3 * PAGE_SIZE as u64, 1);
    push_entry(&mut map, 0x0100_0000, 2 * PAGE_SIZE as u64, 1);
    push_entry(&mut map, 0x0100_0000, 0x0100_0000, 2);
    let mut a = allocator(map, 0x0010_0000, 0x0010_1000);
    let mut seen = Vec::new();
    while let Some(f) = a.allocate_frame() {
        assert!(!seen.contains(&f.start_address));
        seen.push(f.start_address);
    }
    assert_eq!(seen, vec![0x0200_0000, 0x0200_1000, 0x0200_2000, 0x0100_0000, 0x0100_1000]);
    // once exhausted, it stays exhausted
    for _ in 0..3 {
        assert!(a.allocate_frame().is_none());
    }
}

#[test]
fn entry_count_is_bounded_by_map_size() {
    let mut map = Vec::new();
    push_entry(&mut map, 0, 0x1000, 1);
    push_entry(&mut map, 0x1000, 0x1000, 1);
    let entries = memory_map_entries(&map);
    assert!(entries.len() <= map.len());
    assert_eq!(entries.len(), 2);
}
