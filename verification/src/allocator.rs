//! The heap window and its allocator: a fixed virtual range is backed page
//! by page through the mapper, and only a fully mapped window is handed to
//! the bump allocator that serves allocation requests from it.
use crate::memory::lemma_page_base_bounds;
use crate::memory::page_aligned;
use crate::memory::page_base;
use crate::memory::page_offset;
use crate::memory::FrameSource;
use crate::memory::MapError;
use crate::memory::OffsetPageTable;
use crate::memory::MAX_VIRT_ADDR;
use vstd::prelude::*;

verus! {

/// First virtual address of the heap window.
pub const HEAP_START: u64 = 0x4444_4444_0000;

/// Size of the heap window in bytes: 100 KiB.
pub const HEAP_SIZE: u64 = 100 * 1024;

/// Number of pages that back the window.
pub const HEAP_PAGE_COUNT: u64 = 25;

/// Bump allocator over the mapped heap window.  It only moves forward and
/// never frees; every address it returns lies inside the window it was
/// initialized with.
#[derive(Debug, Clone, Copy, PartialEq, Eq, Structural)]
pub struct SimpleAlloc {
    pub heap_start: u64,
    pub heap_end: u64,
    pub next: u64,
}

impl SimpleAlloc {
    pub open spec fn wf(self) -> bool {
        self.heap_start <= self.next <= self.heap_end
    }

    /// The next multiple of `align` at or above `x`.
    pub open spec fn spec_align_up(x: u64, align: u64) -> int
        recommends
            align > 0,
    {
        if x % align == 0 {
            x as int
        } else {
            x + (align - x % align)
        }
    }

    /// Whether a request of `size` bytes at alignment `align` still fits.
    pub open spec fn fits(self, size: u64, align: u64) -> bool {
        Self::spec_align_up(self.next, align) + size <= self.heap_end
    }

    /// An allocator over the window `[heap_start, heap_start + heap_size)`,
    /// with nothing allocated yet.
    pub fn init(heap_start: u64, heap_size: u64) -> (a: SimpleAlloc)
        requires
            heap_start + heap_size <= u64::MAX,
        ensures
            a.wf(),
            a.heap_start == heap_start,
            a.heap_end == heap_start + heap_size,
            a.next == heap_start,
    {
        SimpleAlloc { heap_start, heap_end: heap_start + heap_size, next: heap_start }
    }

    /// Serves one allocation request: returns the aligned start of a fresh
    /// block of `size` bytes inside the window, exactly when the block
    /// still fits; a request past the window's end is refused, never served
    /// out of bounds.
    pub fn allocate(&mut self, size: u64, align: u64) -> (r: Option<u64>)
        requires
            old(self).wf(),
            align > 0,
        ensures
            final(self).wf(),
            final(self).heap_start == old(self).heap_start,
            final(self).heap_end == old(self).heap_end,
            r is Some <==> old(self).fits(size, align),
            match r {
                Some(a) => {
                    &&& a == Self::spec_align_up(old(self).next, align)
                    &&& a % align == 0
                    &&& old(self).heap_start <= a
                    &&& old(self).next <= a
                    &&& a + size <= old(self).heap_end
                    &&& final(self).next == a + size
                },
                None => *final(self) == *old(self),
            },
    {
        let rem = self.next % align;
        let pad = if rem == 0 {
            0u64
        } else {
            align - rem
        };
        if pad > self.heap_end - self.next {
            return None;
        }
        let start = self.next + pad;
        proof {
            let n = old(self).next;
            if rem != 0 {
                assert(start % align == 0) by (nonlinear_arith)
                    requires
                        align > 0,
                        rem == n % align,
                        rem != 0,
                        start == n + (align - rem),
                ;
            }
        }
        if size > self.heap_end - start {
            return None;
        }
        self.next = start + size;
        Some(start)
    }
}

/// An aligned page of the heap window.
pub open spec fn is_heap_page(p: u64) -> bool {
    HEAP_START <= p < HEAP_START + HEAP_SIZE && p % 4096 == 0
}

/// Computes the page range covering the heap window, backs every page with
/// a fresh frame through `create_mapping`, and only on full success hands
/// the window to a bump allocator.  The first failure — frame exhaustion or
/// a mapping conflict — is propagated at once, and no allocator is handed
/// out over a partially mapped window.
#[verifier::loop_isolation(false)]
#[verifier::rlimit(100)]
pub fn map_heap<A: FrameSource>(mapper: &mut OffsetPageTable, frame_allocator: &mut A) -> (r:
    Result<SimpleAlloc, MapError>)
    requires
        old(mapper).wf(),
        old(frame_allocator).inv(),
        forall|k: int|
            0 <= k < old(frame_allocator).future().len() ==> !old(mapper).is_table_addr(
                #[trigger] old(frame_allocator).future()[k],
            ),
    ensures
        final(mapper).wf(),
        final(frame_allocator).inv(),
        final(mapper).phys_offset == old(mapper).phys_offset,
        final(mapper).l4_addr == old(mapper).l4_addr,
        forall|k: int|
            0 <= k < final(frame_allocator).future().len() ==> !final(mapper).is_table_addr(
                #[trigger] final(frame_allocator).future()[k],
            ),
        forall|va: u64|
            va < MAX_VIRT_ADDR && !(HEAP_START <= page_base(va) < HEAP_START + HEAP_SIZE)
                ==> #[trigger] final(mapper).spec_translate(va) == old(mapper).spec_translate(va),
        match r {
            Result::Ok(bump) => {
                &&& bump.wf()
                &&& bump.heap_start == HEAP_START
                &&& bump.heap_end == HEAP_START + HEAP_SIZE
                &&& bump.next == HEAP_START
                &&& forall|va: u64|
                    HEAP_START <= va < HEAP_START + HEAP_SIZE ==> (#[trigger] final(mapper).spec_translate(va)) is Ok
                        && final(mapper).spec_writable(va)
                &&& forall|i: int|
                    #![trigger final(mapper).spec_translate((HEAP_START + 4096 * i) as u64)]
                    0 <= i < HEAP_PAGE_COUNT ==> (final(mapper).spec_translate(
                        (HEAP_START + 4096 * i) as u64,
                    ) matches Result::Ok(f) && final(frame_allocator).taken().contains(f)
                        && !old(frame_allocator).taken().contains(f))
                &&& forall|i: int, j: int|
                    #![trigger final(mapper).spec_translate((HEAP_START + 4096 * i) as u64),
                        final(mapper).spec_translate((HEAP_START + 4096 * j) as u64)]
                    0 <= i < j < HEAP_PAGE_COUNT ==> final(mapper).spec_translate(
                        (HEAP_START + 4096 * i) as u64,
                    ) != final(mapper).spec_translate((HEAP_START + 4096 * j) as u64)
            },
            Result::Err(MapError::FrameAllocationFailed) => final(frame_allocator).future().len()
                == 0,
            Result::Err(MapError::PageAlreadyMapped) => exists|p: u64|
                #[trigger] is_heap_page(p) && old(mapper).spec_walk(p) is Leaf,
            Result::Err(MapError::ParentEntryHugePage) => exists|p: u64|
                #[trigger] is_heap_page(p) && old(mapper).spec_walk(p) is Huge,
        },
        ((forall|va: u64|
            HEAP_START <= va < HEAP_START + HEAP_SIZE ==> (#[trigger] old(mapper).spec_walk(
                va,
            )) is Missing) && old(frame_allocator).future().len() >= 4 * HEAP_PAGE_COUNT) ==> r
            is Ok,
{
    let ghost m0 = *old(mapper);
    let ghost fut0 = old(frame_allocator).future();
    let ghost taken0 = old(frame_allocator).taken();
    let ghost mut assigned: Seq<u64> = Seq::empty();
    let ghost precond = (forall|va: u64|
        HEAP_START <= va < HEAP_START + HEAP_SIZE ==> (#[trigger] m0.spec_walk(va)) is Missing)
        && fut0.len() >= 4 * HEAP_PAGE_COUNT;
    let mut i: u64 = 0;
    while i < HEAP_PAGE_COUNT
        invariant
            mapper.wf(),
            frame_allocator.inv(),
            mapper.phys_offset == m0.phys_offset,
            mapper.l4_addr == m0.l4_addr,
            i <= HEAP_PAGE_COUNT,
            forall|k: int|
                0 <= k < frame_allocator.future().len() ==> !mapper.is_table_addr(
                    #[trigger] frame_allocator.future()[k],
                ),
            forall|va: u64|
                HEAP_START <= va < HEAP_START + 4096 * i ==> (#[trigger] mapper.spec_translate(
                    va,
                )) is Ok && mapper.spec_writable(va),
            forall|va: u64|
                va < MAX_VIRT_ADDR && !(HEAP_START <= page_base(va) < HEAP_START + HEAP_SIZE)
                    ==> #[trigger] mapper.spec_translate(va) == m0.spec_translate(va),
            forall|va: u64|
                HEAP_START + 4096 * i <= va < HEAP_START + HEAP_SIZE
                    ==> #[trigger] mapper.spec_walk(va) == m0.spec_walk(va),
            assigned.len() == i,
            forall|j: int|
                0 <= j < i ==> #[trigger] mapper.spec_translate((HEAP_START + 4096 * j) as u64)
                    == Result::<u64, crate::memory::TranslateError>::Ok(assigned[j]),
            forall|j: int|
                0 <= j < i ==> frame_allocator.taken().contains(#[trigger] assigned[j])
                    && !taken0.contains(assigned[j]),
            forall|j: int, j2: int| 0 <= j < j2 < i ==> assigned[j] != assigned[j2],
            frame_allocator.taken().len() >= taken0.len(),
            forall|k: int| 0 <= k < taken0.len() ==> #[trigger] frame_allocator.taken()[k]
                == taken0[k],
            precond ==> frame_allocator.future().len() >= 4 * (HEAP_PAGE_COUNT - i),
        decreases HEAP_PAGE_COUNT - i,
    {
        let page = HEAP_START + 4096 * i;
        let ghost m_pre = *mapper;
        let ghost fut_pre = frame_allocator.future();
        let ghost taken_pre = frame_allocator.taken();
        let f = match frame_allocator.allocate_frame() {
            Some(f) => f,
            None => {
                proof {
                    if precond {
                        assert(false);
                    }
                }
                return Result::Err(MapError::FrameAllocationFailed);
            },
        };
        proof {
            assert forall|k: int|
                0 <= k < frame_allocator.future().len() implies !mapper.is_table_addr(
                #[trigger] frame_allocator.future()[k],
            ) by {
                assert(frame_allocator.future()[k] == fut_pre[k + 1]);
            }
            if precond {
                assert(page_aligned(page) && page < MAX_VIRT_ADDR) by (bit_vector)
                    requires
                        page == 0x4444_4444_0000 + 4096 * i,
                        i < 25,
                ;
                assert(m_pre.spec_walk(page) == m0.spec_walk(page));
                assert(m0.spec_walk(page) is Missing);
                assert(m_pre.spec_walk(page) is Missing);
                assert(m_pre.missing_tables(page) <= 3);
            }
        }
        proof {
            assert(page_aligned(page) && page < MAX_VIRT_ADDR && page + 4096 <= HEAP_START
                + HEAP_SIZE) by (bit_vector)
                requires
                    page == 0x4444_4444_0000 + 4096 * i,
                    i < 25,
            ;
        }
        let ghost m_mid = *mapper;
        let ghost fut_mid = frame_allocator.future();
        match mapper.create_mapping(page, f, true, frame_allocator) {
            Ok(_) => {},
            Err(e) => {
                proof {
                    if precond {
                        assert(m_mid.spec_walk(page) is Missing);
                        assert(m_mid.missing_tables(page) <= 3);
                        assert(fut_mid.len() >= 4 * (HEAP_PAGE_COUNT - i) - 1);
                        assert(false);
                    }
                    assert(is_heap_page(page)) by (bit_vector)
                        requires
                            page == 0x4444_4444_0000 + 4096 * i,
                            i < 25,
                    ;
                    assert(m_mid.spec_walk(page) == m0.spec_walk(page));
                    if e is PageAlreadyMapped {
                        assert(m0.spec_walk(page) is Leaf);
                        assert(exists|p: u64|
                            #[trigger] is_heap_page(p) && m0.spec_walk(p) is Leaf);
                    }
                    if e is ParentEntryHugePage {
                        assert(m0.spec_walk(page) is Huge);
                        assert(exists|p: u64|
                            #[trigger] is_heap_page(p) && m0.spec_walk(p) is Huge);
                    }
                    // Outside the window nothing changed: a conflict leaves
                    // the state as it was, exhaustion preserves every walk.
                    assert forall|va: u64|
                        va < MAX_VIRT_ADDR && !(HEAP_START <= page_base(va) < HEAP_START
                            + HEAP_SIZE) implies #[trigger] mapper.spec_translate(va)
                        == m0.spec_translate(va) by {
                        assert(mapper.spec_walk(va) == m_mid.spec_walk(va));
                        assert(mapper.spec_translate(va) == m_mid.spec_translate(va));
                    }
                }
                return Result::Err(e);
            },
        }
        proof {
            // Older heap pages and everything outside the window keep their
            // translations: they lie in a different page than `page`.
            assert forall|va: u64|
                HEAP_START <= va < HEAP_START + 4096 * (i + 1) implies (
            #[trigger] mapper.spec_translate(va)) is Ok && mapper.spec_writable(va) by {
                lemma_page_base_bounds(va);
                if va < page {
                    assert(page_base(va) <= va);
                    assert(page_base(va) != page);
                    assert(va < MAX_VIRT_ADDR) by (bit_vector)
                        requires
                            va < 0x4444_4444_0000 + 4096 * 25,
                    ;
                    assert(mapper.spec_walk(va) == m_mid.spec_walk(va));
                    assert(mapper.spec_translate(va) == m_mid.spec_translate(va));
                    assert(mapper.spec_writable(va) == m_mid.spec_writable(va));
                } else {
                    assert(page <= va < page + 4096);
                    assert(page_base(va) == page) by (bit_vector)
                        requires
                            page <= va < page + 4096,
                            page % 4096 == 0,
                    ;
                    assert(va < MAX_VIRT_ADDR) by (bit_vector)
                        requires
                            va < 0x4444_4444_0000 + 4096 * 25,
                    ;
                }
            }
            assert forall|va: u64|
                va < MAX_VIRT_ADDR && !(HEAP_START <= page_base(va) < HEAP_START + HEAP_SIZE)
                    implies #[trigger] mapper.spec_translate(va) == m0.spec_translate(va) by {
                assert(!(page_base(va) == page)) by (bit_vector)
                    requires
                        page == 0x4444_4444_0000 + 4096 * i,
                        i < 25,
                        !(0x4444_4444_0000 <= (va & 0xffff_ffff_ffff_f000) < 0x4444_4444_0000
                            + 102400),
                ;
                assert(mapper.spec_walk(va) == m_mid.spec_walk(va));
                assert(mapper.spec_translate(va) == m_mid.spec_translate(va));
            }
            assert forall|va: u64|
                HEAP_START + 4096 * (i + 1) <= va < HEAP_START + HEAP_SIZE
                    implies #[trigger] mapper.spec_walk(va) == m0.spec_walk(va) by {
                lemma_page_base_bounds(va);
                assert(page_base(va) != page && va < MAX_VIRT_ADDR) by (bit_vector)
                    requires
                        page == 0x4444_4444_0000 + 4096 * i,
                        i < 25,
                        0x4444_4444_0000 + 4096 * (i + 1) <= va < 0x4444_4444_0000 + 102400,
                ;
                assert(mapper.spec_walk(va) == m_mid.spec_walk(va));
            }
            // Bookkeeping for the frames that back the window: the new
            // page's frame came from the allocator's stream and differs
            // from every frame assigned so far.
            assert(page % 4096 == 0 ==> page & 0xfff == 0) by (bit_vector);
            assert(page_offset(page) == 0);
            assert(mapper.spec_translate(page) == Result::<u64,
                crate::memory::TranslateError>::Ok(f));
            assert forall|k: int| 0 <= k < taken_pre.len() implies #[trigger] frame_allocator
                .taken()[k] == taken_pre[k] by {}
            assert(frame_allocator.taken().len() > taken_pre.len());
            assert(frame_allocator.taken()[taken_pre.len() as int] == f);
            assert(frame_allocator.taken().contains(f));
            if taken0.contains(f) {
                let k = choose|k: int| 0 <= k < taken0.len() && taken0[k] == f;
                assert(taken_pre[k] == taken0[k]);
                assert(false);
            }
            assert forall|j: int| 0 <= j < i implies f != assigned[j]
                && frame_allocator.taken().contains(#[trigger] assigned[j]) by {
                let k = choose|k: int|
                    0 <= k < taken_pre.len() && taken_pre[k] == assigned[j];
                assert(frame_allocator.taken()[k] == assigned[j]);
                if f == assigned[j] {
                    assert(taken_pre.contains(f));
                    assert(false);
                }
            }
            assigned = assigned.push(f);
            assert forall|j: int|
                0 <= j < i + 1 implies #[trigger] mapper.spec_translate(
                (HEAP_START + 4096 * j) as u64,
            ) == Result::<u64, crate::memory::TranslateError>::Ok(assigned[j]) by {
                if j < i {
                    let va = (HEAP_START + 4096 * j) as u64;
                    assert(HEAP_START + 4096 * j < HEAP_START + 4096 * i);
                    assert(va == HEAP_START + 4096 * j);
                    assert(HEAP_START <= va < HEAP_START + 4096 * i);
                    assert(m_pre.spec_translate(va) == Result::<u64,
                        crate::memory::TranslateError>::Ok(assigned[j]));
                    lemma_page_base_bounds(va);
                    assert(page_base(va) <= va && va < page);
                    assert(page_base(va) != page);
                    assert(va < MAX_VIRT_ADDR);
                    assert(mapper.spec_walk(va) == m_mid.spec_walk(va));
                    assert(mapper.spec_translate(va) == m_mid.spec_translate(va));
                } else {
                    assert(assigned[j] == f);
                }
            }
        }
        i = i + 1;
    }
    proof {
        assert(4096 * i == HEAP_SIZE as int + 0) by (nonlinear_arith)
            requires
                i == 25,
        ;
        assert(HEAP_START + HEAP_SIZE <= u64::MAX);
        assert forall|ii: int|
            #![trigger mapper.spec_translate((HEAP_START + 4096 * ii) as u64)]
            0 <= ii < HEAP_PAGE_COUNT implies (mapper.spec_translate(
            (HEAP_START + 4096 * ii) as u64,
        ) matches Result::Ok(ff) && frame_allocator.taken().contains(ff) && !taken0.contains(
            ff,
        )) by {
            assert(mapper.spec_translate((HEAP_START + 4096 * ii) as u64) == Result::<u64,
                crate::memory::TranslateError>::Ok(assigned[ii]));
            assert(frame_allocator.taken().contains(assigned[ii]));
            assert(!taken0.contains(assigned[ii]));
        }
        assert forall|ii: int, jj: int|
            #![trigger mapper.spec_translate((HEAP_START + 4096 * ii) as u64),
                mapper.spec_translate((HEAP_START + 4096 * jj) as u64)]
            0 <= ii < jj < HEAP_PAGE_COUNT implies mapper.spec_translate(
            (HEAP_START + 4096 * ii) as u64,
        ) != mapper.spec_translate((HEAP_START + 4096 * jj) as u64) by {
            assert(mapper.spec_translate((HEAP_START + 4096 * ii) as u64) == Result::<u64,
                crate::memory::TranslateError>::Ok(assigned[ii]));
            assert(mapper.spec_translate((HEAP_START + 4096 * jj) as u64) == Result::<u64,
                crate::memory::TranslateError>::Ok(assigned[jj]));
            assert(assigned[ii] != assigned[jj]);
        }
    }
    Result::Ok(SimpleAlloc::init(HEAP_START, HEAP_SIZE))
}

} // verus!
