use x86_kernel::allocator::{map_heap, SimpleAlloc, HEAP_SIZE, HEAP_START};
use x86_kernel::memory::{BootInfoFrameAllocator, MapError, MemoryRegion, TranslateError};

fn mapper_and_frames(frame_count: u64) -> (x86_kernel::memory::OffsetPageTable, BootInfoFrameAllocator) {
    let mapper = x86_kernel::memory::init(0x0000_6000_0000_0000, 0x1000);
    let frames = BootInfoFrameAllocator::init(vec![MemoryRegion {
        start: 0x100_000,
        end: 0x100_000 + 4096 * frame_count,
    }]);
    (mapper, frames)
}

#[test]
fn test_map_heap_backs_whole_window() {
    let (mut mapper, mut frames) = mapper_and_frames(120);
    let bump = map_heap(&mut mapper, &mut frames).expect("heap mapping failed");
    assert_eq!(bump.heap_start, HEAP_START);
    assert_eq!(bump.heap_end, HEAP_START + HEAP_SIZE);
    // Every page of the window translates; the window's edges do not leak.
    assert!(mapper.translate_virt_addr(HEAP_START).is_ok());
    assert!(mapper.translate_virt_addr(HEAP_START + HEAP_SIZE / 2).is_ok());
    assert!(mapper.translate_virt_addr(HEAP_START + HEAP_SIZE - 1).is_ok());
    assert_eq!(
        mapper.translate_virt_addr(HEAP_START + HEAP_SIZE),
        Err(TranslateError::NotMapped)
    );
    assert_eq!(
        mapper.translate_virt_addr(HEAP_START - 1),
        Err(TranslateError::NotMapped)
    );
}

#[test]
fn test_map_heap_pages_get_distinct_frames() {
    let (mut mapper, mut frames) = mapper_and_frames(120);
    map_heap(&mut mapper, &mut frames).expect("heap mapping failed");
    let mut backing: Vec<u64> = Vec::new();
    let mut page = HEAP_START;
    while page < HEAP_START + HEAP_SIZE {
        let phys = mapper.translate_virt_addr(page).expect("page not mapped");
        assert!(!backing.contains(&phys), "two pages share a frame");
        backing.push(phys);
        page += 4096;
    }
    assert_eq!(backing.len(), 25);
}

#[test]
fn test_map_heap_propagates_frame_exhaustion() {
    let (mut mapper, mut frames) = mapper_and_frames(10);
    assert_eq!(
        map_heap(&mut mapper, &mut frames),
        Err(MapError::FrameAllocationFailed)
    );
}

#[test]
fn test_heap_window_serves_99_kib_then_refuses() {
    let (mut mapper, mut frames) = mapper_and_frames(120);
    let mut bump = map_heap(&mut mapper, &mut frames).expect("heap mapping failed");
    // 99 KiB in 1-KiB requests: all served, all inside the window.
    for _ in 0..99 {
        let a = bump.allocate(1024, 8).expect("allocation refused inside the window");
        assert!(a >= HEAP_START);
        assert!(a + 1024 <= HEAP_START + HEAP_SIZE);
    }
    // The next 2 KiB would pass 100 KiB: refused, not served out of bounds.
    assert_eq!(bump.allocate(2048, 8), None);
    // A request that still fits is served.
    assert!(bump.allocate(1024, 8).is_some());
}

#[test]
fn test_bump_allocator_alignment() {
    let mut bump = SimpleAlloc::init(0x1000, 0x1000);
    let a = bump.allocate(10, 1).unwrap();
    assert_eq!(a, 0x1000);
    let b = bump.allocate(16, 64).unwrap();
    assert_eq!(b % 64, 0);
    assert!(b >= 0x1000 + 10);
    let c = bump.allocate(1, 1).unwrap();
    assert_eq!(c, b + 16);
    // Exactly filling the window succeeds; one byte more does not.
    let remaining = 0x2000 - (c + 1);
    let d = bump.allocate(remaining, 1).unwrap();
    assert_eq!(d, c + 1);
    assert_eq!(bump.allocate(1, 1), None);
}
