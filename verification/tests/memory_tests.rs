use x86_kernel::memory::{
    BootInfoFrameAllocator, EmptyFrameAllocator, FrameSource, MapError, MemoryRegion,
    OffsetPageTable, PageTable, TableSet, TranslateError,
};

fn fresh_mapper() -> OffsetPageTable {
    x86_kernel::memory::init(0x0000_6000_0000_0000, 0x1000)
}

fn region_allocator(start: u64, frames: u64) -> BootInfoFrameAllocator {
    BootInfoFrameAllocator::init(vec![MemoryRegion { start, end: start + 4096 * frames }])
}

#[test]
fn test_translate_unmapped_returns_not_mapped() {
    let mapper = fresh_mapper();
    assert_eq!(mapper.translate_virt_addr(0), Err(TranslateError::NotMapped));
    assert_eq!(
        mapper.translate_virt_addr(0x4444_4444_0000),
        Err(TranslateError::NotMapped)
    );
    assert_eq!(
        mapper.translate_virt_addr(0xffff_ffff_ffff),
        Err(TranslateError::NotMapped)
    );
}

#[test]
fn test_create_mapping_and_translate() {
    let mut mapper = fresh_mapper();
    let mut frames = region_allocator(0x10_0000, 16);
    let page: u64 = 0x4000_0000;
    let frame: u64 = 0xb8000;
    assert_eq!(mapper.create_mapping(page, frame, true, &mut frames), Ok(()));
    assert_eq!(mapper.translate_virt_addr(page), Ok(frame));
    assert_eq!(mapper.translate_virt_addr(page + 42), Ok(frame + 42));
    assert_eq!(mapper.translate_virt_addr(page + 4095), Ok(frame + 4095));
    // The neighbouring pages stay unmapped.
    assert_eq!(
        mapper.translate_virt_addr(page + 4096),
        Err(TranslateError::NotMapped)
    );
    assert_eq!(
        mapper.translate_virt_addr(page - 1),
        Err(TranslateError::NotMapped)
    );
}

#[test]
fn test_translation_is_pointwise_within_page() {
    let mut mapper = fresh_mapper();
    let mut frames = region_allocator(0x10_0000, 16);
    let page: u64 = 0x7f_f000_0000;
    let frame: u64 = 0x44000;
    assert_eq!(mapper.create_mapping(page, frame, true, &mut frames), Ok(()));
    for k in 0..4096u64 {
        assert_eq!(mapper.translate_virt_addr(page + k), Ok(frame + k));
    }
}

#[test]
fn test_read_only_mapping_clears_writable_bit() {
    let mut mapper = fresh_mapper();
    let mut frames = region_allocator(0x10_0000, 16);
    let page: u64 = 0x4000_0000;
    assert_eq!(mapper.create_mapping(page, 0x20000, false, &mut frames), Ok(()));
    assert_eq!(mapper.translate_virt_addr(page), Ok(0x20000));
    // The one leaf table holds the entry: present, not writable, frame
    // address in the high bits.
    let leaf_index = ((page >> 12) & 0x1ff) as usize;
    let entry = mapper.l1.tables[0].entries[leaf_index];
    assert_eq!(entry & 1, 1);
    assert_eq!(entry & 2, 0);
    assert_eq!(entry & 0x000f_ffff_ffff_f000, 0x20000);
}

#[test]
fn test_remap_same_page_is_refused() {
    let mut mapper = fresh_mapper();
    let mut frames = region_allocator(0x10_0000, 16);
    let page: u64 = 0x4000_0000;
    assert_eq!(mapper.create_mapping(page, 0xb8000, true, &mut frames), Ok(()));
    // A second mapping of the same page, to a different frame, must be
    // refused, and the page must stay bound to the first frame.
    assert_eq!(
        mapper.create_mapping(page, 0xc0000, true, &mut frames),
        Err(MapError::PageAlreadyMapped)
    );
    assert_eq!(mapper.translate_virt_addr(page), Ok(0xb8000));
    assert_eq!(mapper.translate_virt_addr(page + 7), Ok(0xb8000 + 7));
}

#[test]
fn test_empty_frame_allocator_yields_nothing() {
    let mut empty = EmptyFrameAllocator;
    assert_eq!(empty.allocate_frame(), None);
    assert_eq!(empty.allocate_frame(), None);
}

#[test]
fn test_mapping_fails_without_frames() {
    let mut mapper = fresh_mapper();
    let mut empty = EmptyFrameAllocator;
    // A fresh hierarchy needs three intermediate tables, which the empty
    // source cannot supply.
    assert_eq!(
        mapper.create_mapping(0x4000_0000, 0xb8000, true, &mut empty),
        Err(MapError::FrameAllocationFailed)
    );
    assert_eq!(
        mapper.translate_virt_addr(0x4000_0000),
        Err(TranslateError::NotMapped)
    );
}

#[test]
fn test_two_pages_same_leaf_table_share_intermediates() {
    let mut mapper = fresh_mapper();
    let mut frames = region_allocator(0x10_0000, 16);
    assert_eq!(mapper.create_mapping(0x4000_0000, 0x20000, true, &mut frames), Ok(()));
    // The second page lies in the same leaf table: no new tables needed.
    assert_eq!(mapper.create_mapping(0x4000_1000, 0x30000, true, &mut frames), Ok(()));
    assert_eq!(mapper.translate_virt_addr(0x4000_0000), Ok(0x20000));
    assert_eq!(mapper.translate_virt_addr(0x4000_1fff), Ok(0x30fff));
    // Three intermediate tables were drawn for the first page, none for
    // the second.
    assert_eq!(mapper.l3.addrs.len(), 1);
    assert_eq!(mapper.l2.addrs.len(), 1);
    assert_eq!(mapper.l1.addrs.len(), 1);
}

#[test]
fn test_translate_refuses_huge_page_entry() {
    // A hand-built hierarchy whose level-4 entry carries the huge-page
    // bit: the walker must refuse it rather than guess.
    let mut entries = vec![0u64; 512];
    entries[0] = 0x20000 | 1 | 0x80;
    let mapper = OffsetPageTable {
        phys_offset: 0,
        l4_addr: 0x1000,
        l4: PageTable { entries },
        l3: TableSet { addrs: Vec::new(), tables: Vec::new() },
        l2: TableSet { addrs: Vec::new(), tables: Vec::new() },
        l1: TableSet { addrs: Vec::new(), tables: Vec::new() },
    };
    assert_eq!(
        mapper.translate_virt_addr(0x1234),
        Err(TranslateError::HugePageUnsupported)
    );
    let mut mapper = mapper;
    let mut frames = region_allocator(0x10_0000, 16);
    assert_eq!(
        mapper.create_mapping(0x1000, 0xb8000, true, &mut frames),
        Err(MapError::ParentEntryHugePage)
    );
}

#[test]
fn test_frame_allocator_walks_regions_in_order() {
    let regions = vec![
        MemoryRegion { start: 0x1000, end: 0x3000 },
        MemoryRegion { start: 0x10000, end: 0x12fff },
    ];
    let mut alloc = BootInfoFrameAllocator::init(regions);
    assert_eq!(alloc.allocate_frame(), Some(0x1000));
    assert_eq!(alloc.allocate_frame(), Some(0x2000));
    // The ragged tail of the second region holds two whole frames.
    assert_eq!(alloc.allocate_frame(), Some(0x10000));
    assert_eq!(alloc.allocate_frame(), Some(0x11000));
    assert_eq!(alloc.allocate_frame(), None);
    assert_eq!(alloc.allocate_frame(), None);
}

#[test]
fn test_frame_allocator_aligns_region_starts() {
    // An unaligned region start is aligned up to the next frame boundary;
    // a region too small to hold a whole frame yields nothing.
    let mut alloc = BootInfoFrameAllocator::init(vec![
        MemoryRegion { start: 0x1800, end: 0x4000 },
        MemoryRegion { start: 0x4100, end: 0x4f00 },
        MemoryRegion { start: 0x5001, end: 0x7000 },
    ]);
    assert_eq!(alloc.allocate_frame(), Some(0x2000));
    assert_eq!(alloc.allocate_frame(), Some(0x3000));
    assert_eq!(alloc.allocate_frame(), Some(0x6000));
    assert_eq!(alloc.allocate_frame(), None);
}

#[test]
fn test_frame_allocator_never_repeats() {
    // Several region lists, each drained completely: no frame may come
    // back twice, every frame is aligned and lies in some region.
    let lists = vec![
        vec![MemoryRegion { start: 0, end: 0x4000 }],
        vec![
            MemoryRegion { start: 0x1000, end: 0x1000 },
            MemoryRegion { start: 0x2000, end: 0x9000 },
            MemoryRegion { start: 0x9000, end: 0x9fff },
        ],
        vec![
            MemoryRegion { start: 0x100_000, end: 0x110_000 },
            MemoryRegion { start: 0x200_000, end: 0x240_000 },
            MemoryRegion { start: 0x240_000, end: 0x241_000 },
        ],
        vec![
            MemoryRegion { start: 0x1234, end: 0x9000 },
            MemoryRegion { start: 0x9001, end: 0xd777 },
        ],
    ];
    for regions in lists {
        let mut alloc = BootInfoFrameAllocator::init(regions.clone());
        let mut seen: Vec<u64> = Vec::new();
        while let Some(f) = alloc.allocate_frame() {
            assert_eq!(f % 4096, 0);
            assert!(regions.iter().any(|r| r.start <= f && f + 4096 <= r.end));
            assert!(!seen.contains(&f), "frame handed out twice");
            seen.push(f);
        }
        let expected: usize = regions
            .iter()
            .map(|r| {
                let start = (r.start + 4095) & !4095;
                if start + 4096 <= r.end {
                    ((r.end - start) / 4096) as usize
                } else {
                    0
                }
            })
            .sum();
        assert_eq!(seen.len(), expected);
        // Exhausted stays exhausted.
        assert_eq!(alloc.allocate_frame(), None);
    }
}
