//! Virtual-to-physical mapping: page-table entries, the 4-level walk, and
//! the frame allocators.
//!
//! Physical memory is modelled as an arena of page tables addressed by their
//! physical frame address (the "physical memory at a fixed virtual offset"
//! view a real kernel uses to reach table memory).  A table is 512 entries of
//! 64 bits; an entry is either unused (zero in the present bit) or encodes a
//! frame address together with the present, writable and huge-page flags in
//! the architecture's bit positions.
use vstd::prelude::*;

verus! {

/// Size of a page and of a frame, in bytes.
pub const PAGE_SIZE: u64 = 4096;

/// Number of entries in one page table.
pub const ENTRY_COUNT: usize = 512;

/// Bit 0 of an entry: the entry maps something.
pub const FLAG_PRESENT: u64 = 1;

/// Bit 1 of an entry: the mapped memory may be written.
pub const FLAG_WRITABLE: u64 = 2;

/// Bit 7 of an entry: the entry maps a huge page instead of a table.
pub const FLAG_HUGE: u64 = 0x80;

/// Bits 12..52 of an entry: the physical frame address.
pub const ENTRY_ADDR_MASK: u64 = 0x000f_ffff_ffff_f000;

/// One past the largest physical address an entry can carry.
pub const MAX_PHYS_ADDR: u64 = 0x0010_0000_0000_0000;

/// One past the largest virtual address the 4-level walk reads: the low 48
/// bits select the four table indices and the page offset.
pub const MAX_VIRT_ADDR: u64 = 0x0001_0000_0000_0000;

/// An address that lies on a page (or frame) boundary.
pub open spec fn page_aligned(a: u64) -> bool {
    a % 4096 == 0
}

/// Index into the level-4 table: bits 39..48 of the virtual address.
pub open spec fn l4_index(va: u64) -> int {
    ((va >> 39) & 0x1ff) as int
}

/// Index into the level-3 table: bits 30..39 of the virtual address.
pub open spec fn l3_index(va: u64) -> int {
    ((va >> 30) & 0x1ff) as int
}

/// Index into the level-2 table: bits 21..30 of the virtual address.
pub open spec fn l2_index(va: u64) -> int {
    ((va >> 21) & 0x1ff) as int
}

/// Index into the level-1 table: bits 12..21 of the virtual address.
pub open spec fn l1_index(va: u64) -> int {
    ((va >> 12) & 0x1ff) as int
}

/// Byte offset of the address within its page: bits 0..12.
pub open spec fn page_offset(va: u64) -> u64 {
    va & 0xfff
}

/// The page containing the address: the address with its offset cleared.
pub open spec fn page_base(va: u64) -> u64 {
    va & 0xffff_ffff_ffff_f000
}

/// Whether the entry's present bit is set.
pub open spec fn entry_present(e: u64) -> bool {
    e & FLAG_PRESENT == FLAG_PRESENT
}

/// Whether the entry's writable bit is set.
pub open spec fn entry_writable(e: u64) -> bool {
    e & FLAG_WRITABLE == FLAG_WRITABLE
}

/// Whether the entry's huge-page bit is set.
pub open spec fn entry_huge(e: u64) -> bool {
    e & FLAG_HUGE == FLAG_HUGE
}

/// The frame address carried by the entry.
pub open spec fn entry_addr(e: u64) -> u64 {
    e & ENTRY_ADDR_MASK
}

fn exec_l4_index(va: u64) -> (i: usize)
    ensures
        i == l4_index(va),
        i < 512,
{
    proof {
        assert((va >> 39) & 0x1ff < 512) by (bit_vector);
    }
    ((va >> 39) & 0x1ff) as usize
}

fn exec_l3_index(va: u64) -> (i: usize)
    ensures
        i == l3_index(va),
        i < 512,
{
    proof {
        assert((va >> 30) & 0x1ff < 512) by (bit_vector);
    }
    ((va >> 30) & 0x1ff) as usize
}

fn exec_l2_index(va: u64) -> (i: usize)
    ensures
        i == l2_index(va),
        i < 512,
{
    proof {
        assert((va >> 21) & 0x1ff < 512) by (bit_vector);
    }
    ((va >> 21) & 0x1ff) as usize
}

fn exec_l1_index(va: u64) -> (i: usize)
    ensures
        i == l1_index(va),
        i < 512,
{
    proof {
        assert((va >> 12) & 0x1ff < 512) by (bit_vector);
    }
    ((va >> 12) & 0x1ff) as usize
}

fn exec_entry_addr(e: u64) -> (a: u64)
    ensures
        a == entry_addr(e),
        page_aligned(a),
        a < MAX_PHYS_ADDR,
{
    proof {
        assert((e & 0x000f_ffff_ffff_f000) % 4096 == 0 && (e & 0x000f_ffff_ffff_f000)
            < 0x0010_0000_0000_0000) by (bit_vector);
    }
    e & ENTRY_ADDR_MASK
}

/// Builds an entry for the given frame address and flag bits.  The flags are
/// a combination of the flag constants above; the frame address must be
/// aligned so that it does not disturb them.
fn make_entry(addr: u64, flags: u64) -> (e: u64)
    requires
        page_aligned(addr),
        addr < MAX_PHYS_ADDR,
        flags & ENTRY_ADDR_MASK == 0,
    ensures
        entry_addr(e) == addr,
        entry_present(e) == (flags & FLAG_PRESENT == FLAG_PRESENT),
        entry_writable(e) == (flags & FLAG_WRITABLE == FLAG_WRITABLE),
        entry_huge(e) == (flags & FLAG_HUGE == FLAG_HUGE),
{
    let e = addr | flags;
    proof {
        assert(addr % 4096 == 0 && addr < 0x0010_0000_0000_0000 && flags & 0x000f_ffff_ffff_f000
            == 0 ==> ((addr | flags) & 0x000f_ffff_ffff_f000 == addr) && ((addr | flags) & 1 == flags
            & 1) && ((addr | flags) & 2 == flags & 2) && ((addr | flags) & 0x80 == flags
            & 0x80)) by (bit_vector);
    }
    e
}

/// One page table: 512 raw 64-bit entries.
pub struct PageTable {
    pub entries: Vec<u64>,
}

impl PageTable {
    pub open spec fn wf(self) -> bool {
        self.entries@.len() == 512
    }

    /// A table whose entries are all unused.
    pub fn new_zeroed() -> (t: PageTable)
        ensures
            t.wf(),
            forall|i: int| 0 <= i < 512 ==> t.entries@[i] == 0,
    {
        let mut entries: Vec<u64> = Vec::new();
        let mut k: usize = 0;
        while k < 512
            invariant
                k <= 512,
                entries@.len() == k,
                forall|i: int| 0 <= i < k ==> entries@[i] == 0,
            decreases 512 - k,
        {
            entries.push(0);
            k = k + 1;
        }
        PageTable { entries }
    }
}

/// The page tables of one level, addressed by the physical frame address
/// each occupies.  This is the arena view of physical memory: reading the
/// table behind a frame address stands for dereferencing that frame through
/// the fixed physical-memory offset.
pub struct TableSet {
    pub addrs: Vec<u64>,
    pub tables: Vec<PageTable>,
}

impl TableSet {
    pub open spec fn wf(self) -> bool {
        &&& self.addrs@.len() == self.tables@.len()
        &&& forall|i: int| 0 <= i < self.tables@.len() ==> (#[trigger] self.tables@[i]).wf()
        &&& forall|i: int, j: int|
            0 <= i < j < self.addrs@.len() ==> self.addrs@[i] != self.addrs@[j]
        &&& forall|i: int|
            0 <= i < self.addrs@.len() ==> page_aligned(#[trigger] self.addrs@[i])
                && self.addrs@[i] < MAX_PHYS_ADDR
    }

    /// Whether a table lives at the given frame address.
    pub open spec fn has_table(self, a: u64) -> bool {
        self.addrs@.contains(a)
    }

    /// Position of the table at the given address.
    pub open spec fn index_for(self, a: u64) -> int {
        choose|i: int| 0 <= i < self.addrs@.len() && self.addrs@[i] == a
    }

    /// The entries of the table at the given address.
    pub open spec fn table_at(self, a: u64) -> Seq<u64> {
        self.tables@[self.index_for(a)].entries@
    }

    /// Under distinctness the index of a held address is unique and in range.
    pub proof fn lemma_index_for(self, a: u64)
        requires
            self.wf(),
            self.has_table(a),
        ensures
            0 <= self.index_for(a) < self.addrs@.len(),
            self.addrs@[self.index_for(a)] == a,
            forall|j: int| 0 <= j < self.addrs@.len() && self.addrs@[j] == a ==> j == self.index_for(a),
    {
        let w = choose|i: int| 0 <= i < self.addrs@.len() && self.addrs@[i] == a;
        assert(self.addrs@.contains(a));
        assert(exists|i: int| 0 <= i < self.addrs@.len() && self.addrs@[i] == a);
    }

    /// Linear scan for the table at an address.
    pub fn find(&self, a: u64) -> (r: Option<usize>)
        requires
            self.wf(),
        ensures
            match r {
                Some(i) => self.has_table(a) && i < self.addrs@.len() && self.addrs@[i as int] == a
                    && i == self.index_for(a) && self.table_at(a) == self.tables@[i as int].entries@,
                None => !self.has_table(a),
            },
    {
        let n = self.addrs.len();
        let mut k: usize = 0;
        while k < n
            invariant
                self.wf(),
                n == self.addrs@.len(),
                k <= n,
                forall|j: int| 0 <= j < k ==> self.addrs@[j] != a,
            decreases n - k,
        {
            if self.addrs[k] == a {
                proof {
                    assert(self.addrs@.contains(a));
                    self.lemma_index_for(a);
                }
                return Some(k);
            }
            k = k + 1;
        }
        proof {
            if self.addrs@.contains(a) {
                let j = choose|j: int| 0 <= j < self.addrs@.len() && self.addrs@[j] == a;
                assert(false);
            }
        }
        None
    }

    /// Adds a zeroed table at a fresh frame address.
    pub fn push_zeroed(&mut self, a: u64)
        requires
            old(self).wf(),
            !old(self).has_table(a),
            page_aligned(a),
            a < MAX_PHYS_ADDR,
        ensures
            final(self).wf(),
            final(self).addrs@ == old(self).addrs@.push(a),
            final(self).tables@.len() == old(self).tables@.len() + 1,
            forall|t: int|
                0 <= t < old(self).tables@.len() ==> final(self).tables@[t] == old(self).tables@[t],
            final(self).tables@[old(self).tables@.len() as int].entries@.len() == 512,
            forall|i: int|
                0 <= i < 512 ==> final(self).tables@[old(self).tables@.len() as int].entries@[i]
                    == 0,
            final(self).has_table(a),
            final(self).index_for(a) == old(self).tables@.len(),
            final(self).table_at(a).len() == 512,
            forall|i: int| 0 <= i < 512 ==> final(self).table_at(a)[i] == 0,
            forall|b: u64| #[trigger] final(self).has_table(b) <==> old(self).has_table(b) || b == a,
            forall|b: u64|
                old(self).has_table(b) ==> final(self).table_at(b) == old(self).table_at(b)
                    && final(self).index_for(b) == old(self).index_for(b),
    {
        let t = PageTable::new_zeroed();
        self.addrs.push(a);
        self.tables.push(t);
        proof {
            let news = *self;
            let olds = *old(self);
            assert forall|b: u64| #[trigger] news.has_table(b) implies olds.has_table(b) || b
                == a by {
                let j = choose|j: int| 0 <= j < news.addrs@.len() && news.addrs@[j] == b;
                if j < olds.addrs@.len() {
                    assert(olds.addrs@[j] == b);
                }
            }
            assert forall|b: u64| olds.has_table(b) || b == a implies #[trigger] news.has_table(
                b,
            ) by {
                if olds.has_table(b) {
                    let j = choose|j: int| 0 <= j < olds.addrs@.len() && olds.addrs@[j] == b;
                    assert(news.addrs@[j] == b);
                } else {
                    assert(news.addrs@[news.addrs@.len() - 1] == a);
                }
            }
            news.lemma_index_for(a);
            assert(news.addrs@[news.addrs@.len() - 1] == a);
            assert(news.index_for(a) == news.addrs@.len() - 1);
            assert(news.table_at(a) == t.entries@);
            assert forall|b: u64| olds.has_table(b) implies news.table_at(b) == olds.table_at(b)
                && news.index_for(b) == olds.index_for(b) by {
                olds.lemma_index_for(b);
                news.lemma_index_for(b);
                let j = olds.index_for(b);
                assert(news.addrs@[j] == b);
                assert(news.index_for(b) == j);
                assert(news.tables@[j] == olds.tables@[j]);
            }
        }
    }

    /// Overwrites one entry of the table at position `ti`.
    pub fn write_entry(&mut self, ti: usize, ei: usize, e: u64)
        requires
            old(self).wf(),
            ti < old(self).tables@.len(),
            ei < 512,
        ensures
            final(self).wf(),
            final(self).addrs@ == old(self).addrs@,
            final(self).tables@.len() == old(self).tables@.len(),
            forall|t: int|
                0 <= t < old(self).tables@.len() && t != ti ==> final(self).tables@[t] == old(
                    self,
                ).tables@[t],
            final(self).tables@[ti as int].entries@ == old(self).tables@[ti as int].entries@.update(
                ei as int,
                e,
            ),
            forall|b: u64| #[trigger] final(self).has_table(b) <==> old(self).has_table(b),
            forall|b: u64| old(self).has_table(b) ==> final(self).index_for(b) == old(
                self,
            ).index_for(b),
            final(self).table_at(old(self).addrs@[ti as int]) == old(self).table_at(
                old(self).addrs@[ti as int],
            ).update(ei as int, e),
            forall|b: u64|
                old(self).has_table(b) && old(self).index_for(b) != ti ==> final(self).table_at(b)
                    == old(self).table_at(b),
    {
        self.tables[ti].entries[ei] = e;
        proof {
            let news = *self;
            let olds = *old(self);
            assert(news.addrs@ == olds.addrs@);
            assert forall|b: u64| olds.has_table(b) implies news.index_for(b) == olds.index_for(
                b,
            ) by {
                olds.lemma_index_for(b);
                news.lemma_index_for(b);
                assert(news.addrs@[olds.index_for(b)] == b);
            }
            let a = olds.addrs@[ti as int];
            olds.lemma_index_for(a);
            assert(olds.index_for(a) == ti);
            assert(news.tables@[ti as int].entries@ == olds.tables@[ti as int].entries@.update(
                ei as int,
                e,
            ));
        }
    }

    /// Reads one entry of the table at position `ti`.
    pub fn read_entry(&self, ti: usize, ei: usize) -> (e: u64)
        requires
            self.wf(),
            ti < self.tables@.len(),
            ei < 512,
        ensures
            e == self.tables@[ti as int].entries@[ei as int],
    {
        self.tables[ti].entries[ei]
    }
}

/// A one-way stream of unused physical frames.  `future()` is the exact
/// sequence of frames the source will hand out, `taken()` the frames it
/// already has; a frame is never handed out twice.
pub trait FrameSource: Sized {
    /// The source's internal invariant.
    spec fn inv(&self) -> bool;

    /// The frames still to be handed out, in order.
    spec fn future(&self) -> Seq<u64>;

    /// The frames handed out so far, in order.
    spec fn taken(&self) -> Seq<u64>;

    /// Hands out the next frame of the stream, or nothing once the stream
    /// is exhausted.
    fn allocate_frame(&mut self) -> (r: Option<u64>)
        requires
            old(self).inv(),
        ensures
            final(self).inv(),
            match r {
                Some(f) => {
                    &&& old(self).future().len() > 0
                    &&& f == old(self).future()[0]
                    &&& final(self).future() == old(self).future().skip(1)
                    &&& final(self).taken() == old(self).taken().push(f)
                    &&& page_aligned(f)
                    &&& f < MAX_PHYS_ADDR
                    &&& !old(self).taken().contains(f)
                    &&& !final(self).future().contains(f)
                },
                None => {
                    &&& old(self).future().len() == 0
                    &&& final(self).future() == old(self).future()
                    &&& final(self).taken() == old(self).taken()
                },
            },
    ;
}

/// A frame source with nothing to give: every request is answered with
/// nothing.  It backs mappings whose intermediate tables all exist already.
pub struct EmptyFrameAllocator;

impl FrameSource for EmptyFrameAllocator {
    open spec fn inv(&self) -> bool {
        true
    }

    open spec fn future(&self) -> Seq<u64> {
        Seq::empty()
    }

    open spec fn taken(&self) -> Seq<u64> {
        Seq::empty()
    }

    fn allocate_frame(&mut self) -> (r: Option<u64>) {
        None
    }
}

/// One usable region of physical memory handed over at boot: byte addresses
/// `start` (inclusive, frame-aligned) to `end` (exclusive).
#[derive(Clone, Copy, PartialEq, Eq, Structural, Debug)]
pub struct MemoryRegion {
    pub start: u64,
    pub end: u64,
}

/// The frame-aligned frames of `[from, end)`, in address order.
pub open spec fn frames_in(from: u64, end: u64) -> Seq<u64>
    decreases end - from,
{
    if from + 4096 <= end {
        seq![from] + frames_in((from + 4096) as u64, end)
    } else {
        Seq::empty()
    }
}

/// All frames of the regions from `idx` on, in region order.
pub open spec fn tail_frames(regions: Seq<MemoryRegion>, idx: int) -> Seq<u64>
    decreases regions.len() - idx,
{
    if 0 <= idx < regions.len() {
        frames_in(regions[idx].start, regions[idx].end) + tail_frames(regions, idx + 1)
    } else {
        Seq::empty()
    }
}

/// What the boot loader promises of its region list: addresses inside the
/// encodable physical range, and regions ordered and disjoint.  Starts need
/// not be aligned; the allocator aligns them up itself.
pub open spec fn regions_ordered(regions: Seq<MemoryRegion>) -> bool {
    &&& forall|i: int|
        0 <= i < regions.len() ==> (#[trigger] regions[i]).start <= regions[i].end
            && regions[i].end <= MAX_PHYS_ADDR
    &&& forall|i: int, j: int| 0 <= i < j < regions.len() ==> regions[i].end <= regions[j].start
}

/// The next frame boundary at or above an address.
pub open spec fn spec_align4k(a: u64) -> u64 {
    if a % 4096 == 0 {
        a
    } else {
        (a + (4096 - a % 4096)) as u64
    }
}

/// The region list with every start aligned up to a frame boundary.
pub open spec fn aligned_regions(regions: Seq<MemoryRegion>) -> Seq<MemoryRegion> {
    regions.map_values(
        |r: MemoryRegion| MemoryRegion { start: spec_align4k(r.start), end: r.end },
    )
}

/// The allocator's internal shape of a region list: frame-aligned starts
/// inside the encodable range, regions ordered and disjoint.  A start may
/// exceed its end: such a region holds no whole frame and yields nothing.
pub open spec fn regions_wf(regions: Seq<MemoryRegion>) -> bool {
    &&& forall|i: int|
        0 <= i < regions.len() ==> (#[trigger] regions[i]).start % 4096 == 0 && regions[i].start
            <= MAX_PHYS_ADDR + 4096 && regions[i].end <= MAX_PHYS_ADDR
    &&& forall|i: int, j: int| 0 <= i < j < regions.len() ==> regions[i].end <= regions[j].start
}

/// Every frame of `[from, end)` is aligned, inside the range, and the
/// sequence ascends.
proof fn lemma_frames_in_props(from: u64, end: u64)
    requires
        from % 4096 == 0,
    ensures
        forall|i: int|
            0 <= i < frames_in(from, end).len() ==> (#[trigger] frames_in(from, end)[i]) % 4096
                == 0 && from <= frames_in(from, end)[i] && frames_in(from, end)[i] + 4096 <= end,
        forall|i: int, j: int|
            0 <= i < j < frames_in(from, end).len() ==> frames_in(from, end)[i] < frames_in(
                from,
                end,
            )[j],
    decreases end - from,
{
    if from + 4096 <= end {
        assert((from + 4096) as u64 % 4096 == 0) by (nonlinear_arith)
            requires
                from % 4096 == 0,
                from + 4096 <= u64::MAX,
        ;
        lemma_frames_in_props((from + 4096) as u64, end);
        assert(frames_in(from, end) == seq![from] + frames_in((from + 4096) as u64, end));
    }
}

/// The regions' frames ascend and never fall below the first region's
/// start.
proof fn lemma_tail_frames_props(regions: Seq<MemoryRegion>, idx: int)
    requires
        regions_wf(regions),
        0 <= idx,
    ensures
        forall|i: int|
            0 <= i < tail_frames(regions, idx).len() ==> (#[trigger] tail_frames(regions, idx)[i])
                % 4096 == 0 && tail_frames(regions, idx)[i] + 4096 <= MAX_PHYS_ADDR,
        forall|i: int, j: int|
            0 <= i < j < tail_frames(regions, idx).len() ==> tail_frames(regions, idx)[i]
                < tail_frames(regions, idx)[j],
        forall|i: int, q: int|
            #![trigger regions[q].end, tail_frames(regions, idx)[i]]
            0 <= i < tail_frames(regions, idx).len() && 0 <= q < idx && q < regions.len()
                ==> regions[q].end <= tail_frames(regions, idx)[i],
    decreases regions.len() - idx,
{
    if idx < regions.len() {
        lemma_frames_in_props(regions[idx].start, regions[idx].end);
        lemma_tail_frames_props(regions, idx + 1);
        let head = frames_in(regions[idx].start, regions[idx].end);
        let tail = tail_frames(regions, idx + 1);
        assert(tail_frames(regions, idx) == head + tail);
        assert forall|i: int, q: int|
            #![trigger regions[q].end, head[i]]
            0 <= i < head.len() && 0 <= q < idx implies regions[q].end <= head[i] by {
            assert(regions[q].end <= regions[idx].start);
            assert(regions[idx].start <= head[i]);
        }
        assert forall|i: int, j: int|
            #![trigger head[i], tail[j]]
            0 <= i < head.len() && 0 <= j < tail.len() implies head[i] < tail[j] by {
            assert(head[i] + 4096 <= regions[idx].end);
            assert(regions[idx].end <= tail[j]);
        }
    }
}

/// Turns the boot-supplied list of usable regions into a one-way stream of
/// page-aligned frames: each region is split into frame-sized chunks in
/// region order, and the cursor only moves forward, so no frame is ever
/// handed out twice.
pub struct BootInfoFrameAllocator {
    pub regions: Vec<MemoryRegion>,
    pub region_idx: usize,
    pub next_frame: u64,
    pub handed_out: Ghost<Seq<u64>>,
}

impl BootInfoFrameAllocator {
    /// Builds the allocator over the boot loader's region list, which the
    /// core trusts to be ordered and disjoint.  Each region is partitioned
    /// into frame-sized, frame-aligned chunks: an unaligned start is
    /// aligned up here, so the boot loader owes no alignment.
    pub fn init(regions: Vec<MemoryRegion>) -> (a: BootInfoFrameAllocator)
        requires
            regions_ordered(regions@),
        ensures
            a.inv(),
            a.taken() == Seq::<u64>::empty(),
            a.future() == tail_frames(aligned_regions(regions@), 0),
            a.regions@ == aligned_regions(regions@),
    {
        let n = regions.len();
        let mut adjusted: Vec<MemoryRegion> = Vec::new();
        let mut k: usize = 0;
        while k < n
            invariant
                k <= n,
                n == regions@.len(),
                regions_ordered(regions@),
                adjusted@.len() == k,
                forall|j: int|
                    0 <= j < k ==> #[trigger] adjusted@[j] == (MemoryRegion {
                        start: spec_align4k(regions@[j].start),
                        end: regions@[j].end,
                    }),
            decreases n - k,
        {
            let r = regions[k];
            let rem = r.start % 4096;
            let s2: u64 = if rem == 0 {
                r.start
            } else {
                r.start + (4096 - rem)
            };
            adjusted.push(MemoryRegion { start: s2, end: r.end });
            k = k + 1;
        }
        let next: u64 = if adjusted.len() > 0 {
            adjusted[0].start
        } else {
            0
        };
        let a = BootInfoFrameAllocator {
            regions: adjusted,
            region_idx: 0,
            next_frame: next,
            handed_out: Ghost(Seq::empty()),
        };
        proof {
            assert(a.regions@ =~= aligned_regions(regions@));
            assert forall|i: int|
                0 <= i < a.regions@.len() implies (#[trigger] a.regions@[i]).start % 4096 == 0
                && a.regions@[i].start <= MAX_PHYS_ADDR + 4096 && a.regions@[i].end
                <= MAX_PHYS_ADDR by {
                let st = regions@[i].start;
                assert(regions@[i].start <= regions@[i].end && regions@[i].end <= MAX_PHYS_ADDR);
                if st % 4096 != 0 {
                    let m = st % 4096;
                    assert((st + (4096 - m)) % 4096 == 0) by (nonlinear_arith)
                        requires
                            m == st % 4096,
                            0 < m < 4096,
                    ;
                }
            }
            assert forall|i: int, j: int|
                0 <= i < j < a.regions@.len() implies a.regions@[i].end <= a.regions@[j].start by {
                assert(regions@[i].end <= regions@[j].start);
                assert(regions@[j].start <= spec_align4k(regions@[j].start));
            }
            assert(regions_wf(a.regions@));
            if a.regions@.len() > 0 {
                assert(a.future() == tail_frames(a.regions@, 0));
            }
        }
        a
    }
}

impl FrameSource for BootInfoFrameAllocator {
    open spec fn inv(&self) -> bool {
        &&& regions_wf(self.regions@)
        &&& self.region_idx <= self.regions@.len()
        &&& (self.region_idx < self.regions@.len() ==> self.next_frame % 4096 == 0
            && self.regions@[self.region_idx as int].start <= self.next_frame && self.next_frame
            <= MAX_PHYS_ADDR + 4096)
        &&& forall|i: int, j: int|
            0 <= i < j < self.handed_out@.len() ==> self.handed_out@[i] < self.handed_out@[j]
        &&& forall|i: int, j: int|
            0 <= i < self.handed_out@.len() && 0 <= j < self.future().len()
                ==> self.handed_out@[i] < self.future()[j]
        &&& forall|i: int|
            0 <= i < self.handed_out@.len() ==> (#[trigger] self.handed_out@[i]) % 4096 == 0
                && self.handed_out@[i] + 4096 <= MAX_PHYS_ADDR
    }

    open spec fn future(&self) -> Seq<u64> {
        if self.region_idx < self.regions@.len() {
            frames_in(self.next_frame, self.regions@[self.region_idx as int].end) + tail_frames(
                self.regions@,
                self.region_idx + 1,
            )
        } else {
            Seq::empty()
        }
    }

    open spec fn taken(&self) -> Seq<u64> {
        self.handed_out@
    }

    fn allocate_frame(&mut self) -> (r: Option<u64>) {
        loop
            invariant
                self.inv(),
                self.regions@ == old(self).regions@,
                self.future() == old(self).future(),
                self.taken() == old(self).taken(),
            decreases self.regions@.len() - self.region_idx,
        {
            if self.region_idx >= self.regions.len() {
                return None;
            }
            let reg = self.regions[self.region_idx];
            proof {
                lemma_frames_in_props(self.next_frame, reg.end);
                lemma_tail_frames_props(self.regions@, self.region_idx + 1);
            }
            if self.next_frame + 4096 <= reg.end {
                let f = self.next_frame;
                let ghost pre = *self;
                self.next_frame = f + 4096;
                proof {
                    self.handed_out@ = self.handed_out@.push(f);
                    assert((f + 4096) as u64 % 4096 == 0) by (nonlinear_arith)
                        requires
                            f % 4096 == 0,
                            f + 4096 <= u64::MAX,
                    ;
                    assert(pre.future() == seq![f] + self.future());
                    assert(self.future() =~= pre.future().skip(1));
                    let head = frames_in(pre.next_frame, reg.end);
                    let tail = tail_frames(pre.regions@, pre.region_idx + 1);
                    assert(pre.future() == head + tail);
                    assert(head[0] == f);
                    assert forall|j: int|
                        0 <= j < self.future().len() implies f < #[trigger] self.future()[j] by {
                        assert(self.future()[j] == pre.future()[j + 1]);
                        lemma_frames_in_props(pre.next_frame, reg.end);
                        lemma_tail_frames_props(pre.regions@, pre.region_idx + 1);
                        if j + 1 < head.len() {
                            assert(pre.future()[j + 1] == head[j + 1]);
                        } else {
                            assert(pre.future()[j + 1] == tail[j + 1 - head.len()]);
                            assert(pre.regions@[pre.region_idx as int].end <= tail[j + 1
                                - head.len()]);
                        }
                    }
                    if pre.taken().contains(f) {
                        let w = choose|i: int|
                            0 <= i < pre.taken().len() && pre.taken()[i] == f;
                        assert(pre.taken()[w] < pre.future()[0]);
                        assert(false);
                    }
                    assert(self.regions@[self.region_idx as int].end <= MAX_PHYS_ADDR);
                    assert forall|i: int|
                        0 <= i < self.taken().len() implies (#[trigger] self.taken()[i]) % 4096
                        == 0 && self.taken()[i] + 4096 <= MAX_PHYS_ADDR by {
                        if i < self.taken().len() - 1 {
                            assert(self.taken()[i] == pre.taken()[i]);
                        } else {
                            assert(self.taken()[i] == f);
                        }
                    }
                    assert forall|i: int, j: int|
                        0 <= i < j < self.taken().len() implies self.taken()[i]
                        < self.taken()[j] by {
                        if j == self.taken().len() - 1 {
                            assert(self.taken()[i] == pre.taken()[i]);
                            assert(pre.taken()[i] < pre.future()[0]);
                        }
                    }
                    assert forall|i: int, j: int|
                        0 <= i < self.taken().len() && 0 <= j < self.future().len() implies self
                        .taken()[i] < self.future()[j] by {
                        assert(f < self.future()[j]);
                        if i < self.taken().len() - 1 {
                            assert(self.taken()[i] == pre.taken()[i]);
                            assert(pre.taken()[i] < pre.future()[0]);
                        } else {
                            assert(self.taken()[i] == f);
                        }
                    }
                }
                return Some(f);
            } else {
                let ghost pre = *self;
                self.region_idx = self.region_idx + 1;
                if self.region_idx < self.regions.len() {
                    self.next_frame = self.regions[self.region_idx].start;
                }
                proof {
                    assert(frames_in(pre.next_frame, reg.end) == Seq::<u64>::empty());
                    assert(self.future() == pre.future());
                }
            }
        }
    }
}

/// The allocator never yields the same physical frame twice across its
/// lifetime: the frames it has handed out ascend strictly, so they are
/// pairwise distinct.
pub proof fn lemma_frames_never_repeat(a: &BootInfoFrameAllocator)
    requires
        a.inv(),
    ensures
        forall|i: int, j: int| 0 <= i < j < a.taken().len() ==> a.taken()[i] != a.taken()[j],
{
}

/// Why a translation does not produce a physical address.
#[derive(Clone, Copy, PartialEq, Eq, Structural, Debug)]
pub enum TranslateError {
    /// Some entry on the walk is unused.
    NotMapped,
    /// Some entry on the walk maps a huge page, which this walker does not
    /// implement; callers must not assume success.
    HugePageUnsupported,
}

/// Why a new mapping cannot be installed.
#[derive(Clone, Copy, PartialEq, Eq, Structural, Debug)]
pub enum MapError {
    /// The frame allocator ran out of frames for an intermediate table.
    FrameAllocationFailed,
    /// An entry above the leaf level already maps a huge page.
    ParentEntryHugePage,
    /// The leaf entry is already present: overwriting a live mapping is a
    /// caller error and is never done silently.
    PageAlreadyMapped,
}

/// Where a page-table walk ends.
#[derive(Clone, Copy, PartialEq, Eq, Structural, Debug)]
pub enum WalkResult {
    /// Some entry on the path is unused: the address is not mapped.
    Missing,
    /// An entry above the leaf maps a huge page: the walk cannot descend.
    Huge,
    /// The walk reached a present leaf entry.
    Leaf { entry: u64 },
}

/// The 4-level mapper: the active top-level table, the arenas of the three
/// lower levels, and the fixed virtual offset at which all of physical
/// memory is assumed mapped (carried so the surrounding program can turn the
/// frame addresses the walk produces into dereferenceable pointers).
pub struct OffsetPageTable {
    pub phys_offset: u64,
    pub l4_addr: u64,
    pub l4: PageTable,
    pub l3: TableSet,
    pub l2: TableSet,
    pub l1: TableSet,
}

impl OffsetPageTable {
    /// Frame addresses occupied by tables of the hierarchy.
    pub open spec fn is_table_addr(self, a: u64) -> bool {
        a == self.l4_addr || self.l3.has_table(a) || self.l2.has_table(a) || self.l1.has_table(a)
    }

    /// No frame holds two tables: the arenas are disjoint from each other
    /// and from the top-level table's frame.
    pub open spec fn levels_disjoint(self) -> bool {
        &&& forall|a: u64|
            #[trigger] self.l3.has_table(a) ==> !self.l2.has_table(a) && !self.l1.has_table(a)
                && a != self.l4_addr
        &&& forall|a: u64| #[trigger] self.l2.has_table(a) ==> !self.l1.has_table(a) && a != self.l4_addr
        &&& forall|a: u64| #[trigger] self.l1.has_table(a) ==> a != self.l4_addr
    }

    /// Every present non-huge entry of a table points to a table of the next
    /// level down.  This is what lets the walk descend without ever touching
    /// a frame that holds no table.
    pub open spec fn entries_point_down(self) -> bool {
        &&& forall|i: int|
            0 <= i < 512 && entry_present(#[trigger] self.l4.entries@[i]) && !entry_huge(
                self.l4.entries@[i],
            ) ==> self.l3.has_table(entry_addr(self.l4.entries@[i]))
        &&& forall|t: int, i: int|
            0 <= t < self.l3.tables@.len() && 0 <= i < 512 && entry_present(
                #[trigger] self.l3.tables@[t].entries@[i],
            ) && !entry_huge(self.l3.tables@[t].entries@[i]) ==> self.l2.has_table(
                entry_addr(self.l3.tables@[t].entries@[i]),
            )
        &&& forall|t: int, i: int|
            0 <= t < self.l2.tables@.len() && 0 <= i < 512 && entry_present(
                #[trigger] self.l2.tables@[t].entries@[i],
            ) && !entry_huge(self.l2.tables@[t].entries@[i]) ==> self.l1.has_table(
                entry_addr(self.l2.tables@[t].entries@[i]),
            )
    }

    /// No table is pointed to by two entries: each table has one parent
    /// slot, so a write through one virtual page never changes the walk of
    /// a page with a different path.
    pub open spec fn parents_unique(self) -> bool {
        &&& forall|i: int, j: int|
            0 <= i < 512 && 0 <= j < 512 && i != j && entry_present(#[trigger] self.l4.entries@[i])
                && !entry_huge(self.l4.entries@[i]) && entry_present(
                #[trigger] self.l4.entries@[j],
            ) && !entry_huge(self.l4.entries@[j]) ==> entry_addr(self.l4.entries@[i]) != entry_addr(
                self.l4.entries@[j],
            )
        &&& forall|t: int, i: int, t2: int, j: int|
            0 <= t < self.l3.tables@.len() && 0 <= i < 512 && 0 <= t2 < self.l3.tables@.len() && 0
                <= j < 512 && !(t == t2 && i == j) && entry_present(
                #[trigger] self.l3.tables@[t].entries@[i],
            ) && !entry_huge(self.l3.tables@[t].entries@[i]) && entry_present(
                #[trigger] self.l3.tables@[t2].entries@[j],
            ) && !entry_huge(self.l3.tables@[t2].entries@[j]) ==> entry_addr(
                self.l3.tables@[t].entries@[i],
            ) != entry_addr(self.l3.tables@[t2].entries@[j])
        &&& forall|t: int, i: int, t2: int, j: int|
            0 <= t < self.l2.tables@.len() && 0 <= i < 512 && 0 <= t2 < self.l2.tables@.len() && 0
                <= j < 512 && !(t == t2 && i == j) && entry_present(
                #[trigger] self.l2.tables@[t].entries@[i],
            ) && !entry_huge(self.l2.tables@[t].entries@[i]) && entry_present(
                #[trigger] self.l2.tables@[t2].entries@[j],
            ) && !entry_huge(self.l2.tables@[t2].entries@[j]) ==> entry_addr(
                self.l2.tables@[t].entries@[i],
            ) != entry_addr(self.l2.tables@[t2].entries@[j])
    }

    pub open spec fn wf(self) -> bool {
        &&& self.l4.wf()
        &&& self.l3.wf()
        &&& self.l2.wf()
        &&& self.l1.wf()
        &&& page_aligned(self.l4_addr)
        &&& self.l4_addr < MAX_PHYS_ADDR
        &&& self.levels_disjoint()
        &&& self.entries_point_down()
        &&& self.parents_unique()
    }

    /// The walk, as a function of the raw table state.  An unused entry at
    /// any level ends the walk at `Missing`; a huge-page entry above the
    /// leaf ends it at `Huge`; a complete walk ends at the leaf entry.
    /// Only the low 48 bits of the address take part, as in the hardware
    /// walk.
    pub open spec fn spec_walk(self, va: u64) -> WalkResult {
        let e4 = self.l4.entries@[l4_index(va)];
        if !entry_present(e4) {
            WalkResult::Missing
        } else if entry_huge(e4) {
            WalkResult::Huge
        } else if !self.l3.has_table(entry_addr(e4)) {
            WalkResult::Missing
        } else {
            let e3 = self.l3.table_at(entry_addr(e4))[l3_index(va)];
            if !entry_present(e3) {
                WalkResult::Missing
            } else if entry_huge(e3) {
                WalkResult::Huge
            } else if !self.l2.has_table(entry_addr(e3)) {
                WalkResult::Missing
            } else {
                let e2 = self.l2.table_at(entry_addr(e3))[l2_index(va)];
                if !entry_present(e2) {
                    WalkResult::Missing
                } else if entry_huge(e2) {
                    WalkResult::Huge
                } else if !self.l1.has_table(entry_addr(e2)) {
                    WalkResult::Missing
                } else {
                    let e1 = self.l1.table_at(entry_addr(e2))[l1_index(va)];
                    if !entry_present(e1) {
                        WalkResult::Missing
                    } else {
                        WalkResult::Leaf { entry: e1 }
                    }
                }
            }
        }
    }

    /// What the walk yields as a translation: the leaf frame address plus
    /// the page offset, or the reason the walk stopped short.  A leaf whose
    /// huge bit is set is refused like a huge parent: this walker does not
    /// interpret it.
    pub open spec fn spec_translate(self, va: u64) -> Result<u64, TranslateError> {
        match self.spec_walk(va) {
            WalkResult::Missing => Result::Err(TranslateError::NotMapped),
            WalkResult::Huge => Result::Err(TranslateError::HugePageUnsupported),
            WalkResult::Leaf { entry } => if entry_huge(entry) {
                Result::Err(TranslateError::HugePageUnsupported)
            } else {
                Result::Ok((entry_addr(entry) + page_offset(va)) as u64)
            },
        }
    }

    /// Whether the address is mapped writable.
    pub open spec fn spec_writable(self, va: u64) -> bool {
        match self.spec_walk(va) {
            WalkResult::Leaf { entry } => entry_writable(entry),
            _ => false,
        }
    }

    /// How many intermediate tables a mapping of this address still needs.
    pub open spec fn missing_tables(self, va: u64) -> int {
        let e4 = self.l4.entries@[l4_index(va)];
        if !entry_present(e4) || entry_huge(e4) || !self.l3.has_table(entry_addr(e4)) {
            3
        } else {
            let e3 = self.l3.table_at(entry_addr(e4))[l3_index(va)];
            if !entry_present(e3) || entry_huge(e3) || !self.l2.has_table(entry_addr(e3)) {
                2
            } else {
                let e2 = self.l2.table_at(entry_addr(e3))[l2_index(va)];
                if !entry_present(e2) || entry_huge(e2) || !self.l1.has_table(entry_addr(e2)) {
                    1
                } else {
                    0
                }
            }
        }
    }

    /// Walks the four levels read-only and translates a virtual address to
    /// the physical address it maps to.  The walk never reads outside the
    /// arena: a dangling entry cannot arise under `wf`, and the walk answers
    /// `NotMapped` rather than touch one.
    pub fn translate_virt_addr(&self, va: u64) -> (r: Result<u64, TranslateError>)
        requires
            self.wf(),
        ensures
            r == self.spec_translate(va),
    {
        let i4 = exec_l4_index(va);
        let e4 = self.l4.entries[i4];
        if e4 & FLAG_PRESENT != FLAG_PRESENT {
            return Result::Err(TranslateError::NotMapped);
        }
        if e4 & FLAG_HUGE == FLAG_HUGE {
            return Result::Err(TranslateError::HugePageUnsupported);
        }
        let a3 = exec_entry_addr(e4);
        let t3 = match self.l3.find(a3) {
            Some(t) => t,
            None => {
                return Result::Err(TranslateError::NotMapped);
            },
        };
        let e3 = self.l3.read_entry(t3, exec_l3_index(va));
        if e3 & FLAG_PRESENT != FLAG_PRESENT {
            return Result::Err(TranslateError::NotMapped);
        }
        if e3 & FLAG_HUGE == FLAG_HUGE {
            return Result::Err(TranslateError::HugePageUnsupported);
        }
        let a2 = exec_entry_addr(e3);
        let t2 = match self.l2.find(a2) {
            Some(t) => t,
            None => {
                return Result::Err(TranslateError::NotMapped);
            },
        };
        let e2 = self.l2.read_entry(t2, exec_l2_index(va));
        if e2 & FLAG_PRESENT != FLAG_PRESENT {
            return Result::Err(TranslateError::NotMapped);
        }
        if e2 & FLAG_HUGE == FLAG_HUGE {
            return Result::Err(TranslateError::HugePageUnsupported);
        }
        let a1 = exec_entry_addr(e2);
        let t1 = match self.l1.find(a1) {
            Some(t) => t,
            None => {
                return Result::Err(TranslateError::NotMapped);
            },
        };
        let e1 = self.l1.read_entry(t1, exec_l1_index(va));
        if e1 & FLAG_PRESENT != FLAG_PRESENT {
            return Result::Err(TranslateError::NotMapped);
        }
        if e1 & FLAG_HUGE == FLAG_HUGE {
            return Result::Err(TranslateError::HugePageUnsupported);
        }
        let frame_addr = exec_entry_addr(e1);
        let off = va & 0xfff;
        proof {
            assert(va & 0xfff < 4096) by (bit_vector);
        }
        Result::Ok(frame_addr + off)
    }

    /// Installs a mapping from `page` to `frame`, drawing any missing
    /// intermediate tables from the allocator and zero-initializing them.
    /// A present leaf entry is never overwritten; the error says so.  On
    /// success the caller must flush the translation cache for the page
    /// before relying on the mapping: the model carries no such cache, the
    /// hardware does.
    pub fn create_mapping<A: FrameSource>(
        &mut self,
        page: u64,
        frame: u64,
        writable: bool,
        allocator: &mut A,
    ) -> (r: Result<(), MapError>)
        requires
            old(self).wf(),
            old(allocator).inv(),
            page_aligned(page),
            page < MAX_VIRT_ADDR,
            page_aligned(frame),
            frame < MAX_PHYS_ADDR,
            forall|k: int|
                0 <= k < old(allocator).future().len() ==> !old(self).is_table_addr(
                    #[trigger] old(allocator).future()[k],
                ),
        ensures
            final(self).wf(),
            final(allocator).inv(),
            final(self).phys_offset == old(self).phys_offset,
            final(self).l4_addr == old(self).l4_addr,
            forall|k: int|
                0 <= k < final(allocator).future().len() ==> !final(self).is_table_addr(
                    #[trigger] final(allocator).future()[k],
                ),
            r is Ok <==> (old(self).spec_walk(page) is Missing && old(self).missing_tables(page)
                <= old(allocator).future().len()),
            match r {
                Result::Ok(_) => {
                    &&& forall|va: u64|
                        va < MAX_VIRT_ADDR && page_base(va) == page ==> final(self).spec_translate(
                            va,
                        ) == Result::<u64, TranslateError>::Ok((frame + page_offset(va)) as u64)
                    &&& forall|va: u64|
                        va < MAX_VIRT_ADDR && page_base(va) == page ==> final(self).spec_writable(
                            va,
                        ) == writable
                    &&& forall|va: u64|
                        va < MAX_VIRT_ADDR && page_base(va) != page ==> final(self).spec_walk(va)
                            == old(self).spec_walk(va)
                    &&& final(allocator).future() == old(allocator).future().skip(
                        old(self).missing_tables(page),
                    )
                    &&& final(allocator).taken() == old(allocator).taken() + old(
                        allocator,
                    ).future().take(old(self).missing_tables(page))
                },
                Result::Err(MapError::PageAlreadyMapped) => {
                    &&& old(self).spec_walk(page) is Leaf
                    &&& *final(self) == *old(self)
                    &&& *final(allocator) == *old(allocator)
                },
                Result::Err(MapError::ParentEntryHugePage) => {
                    &&& old(self).spec_walk(page) is Huge
                    &&& *final(self) == *old(self)
                    &&& *final(allocator) == *old(allocator)
                },
                Result::Err(MapError::FrameAllocationFailed) => {
                    &&& old(self).spec_walk(page) is Missing
                    &&& old(self).missing_tables(page) > old(allocator).future().len()
                    &&& final(allocator).future().len() == 0
                    &&& forall|va: u64| #[trigger]
                        final(self).spec_walk(va) == old(self).spec_walk(va)
                },
            },
    {
        proof {
            lemma_flag_bits();
            lemma_zero_entry();
        }
        let ghost m0 = *old(self);
        let ghost fut0 = old(allocator).future();
        let ghost taken0 = old(allocator).taken();

        // Level 4.
        let i4 = exec_l4_index(page);
        let e4 = self.l4.entries[i4];
        let a3: u64;
        if e4 & FLAG_PRESENT != FLAG_PRESENT {
            let f = match allocator.allocate_frame() {
                Some(f) => f,
                None => {
                    proof {
                        assert(m0.spec_walk(page) is Missing);
                        assert(m0.missing_tables(page) == 3);
                    }
                    return Result::Err(MapError::FrameAllocationFailed);
                },
            };
            self.l3.push_zeroed(f);
            proof {
                assert(FLAG_PRESENT | FLAG_WRITABLE == 3u64) by (bit_vector);
            }
            let enew = make_entry(f, FLAG_PRESENT | FLAG_WRITABLE);
            self.l4.entries[i4] = enew;
            proof {
                lemma_grow_l3(m0, *self, i4 as int, f, enew);
            }
            a3 = f;
        } else if e4 & FLAG_HUGE == FLAG_HUGE {
            proof {
                assert(m0.spec_walk(page) is Huge);
            }
            return Result::Err(MapError::ParentEntryHugePage);
        } else {
            a3 = exec_entry_addr(e4);
            proof {
                assert(self.l3.has_table(a3));
            }
        }
        let ghost m1 = *self;
        let ghost k1: int = if entry_present(m0.l4.entries@[l4_index(page)]) {
            0
        } else {
            1
        };
        proof {
            assert(allocator.future() =~= fut0.skip(k1));
            assert(allocator.taken() =~= taken0 + fut0.take(k1));
            assert forall|j: int|
                0 <= j < allocator.future().len() implies !m1.is_table_addr(
                #[trigger] allocator.future()[j],
            ) by {
                assert(allocator.future()[j] == fut0[k1 + j]);
            }
            assert(m1.l3.has_table(a3));
            assert(entry_present(m1.l4.entries@[l4_index(page)]) && !entry_huge(
                m1.l4.entries@[l4_index(page)],
            ) && entry_addr(m1.l4.entries@[l4_index(page)]) == a3);
        }

        // Level 3.
        let i3 = exec_l3_index(page);
        let t3 = match self.l3.find(a3) {
            Some(t) => t,
            None => {
                // Unreachable: the entry just checked points into the arena.
                proof {
                    assert(false);
                }
                return Result::Err(MapError::FrameAllocationFailed);
            },
        };
        let e3 = self.l3.read_entry(t3, i3);
        proof {
            assert(e3 == m1.l3.table_at(a3)[i3 as int]);
        }
        let a2: u64;
        if e3 & FLAG_PRESENT != FLAG_PRESENT {
            let f = match allocator.allocate_frame() {
                Some(f) => f,
                None => {
                    proof {
                        assert(m1.spec_walk(page) is Missing);
                        assert(m1.missing_tables(page) == 2);
                        assert(m0.spec_walk(page) is Missing);
                        assert(m0.missing_tables(page) == 2 + k1);
                        assert(fut0.len() == k1);
                        assert(allocator.taken() =~= taken0 + fut0);
                        assert(forall|va: u64| #[trigger] self.spec_walk(va)
                            == m0.spec_walk(va));
                    }
                    return Result::Err(MapError::FrameAllocationFailed);
                },
            };
            self.l2.push_zeroed(f);
            proof {
                assert(FLAG_PRESENT | FLAG_WRITABLE == 3u64) by (bit_vector);
            }
            let enew = make_entry(f, FLAG_PRESENT | FLAG_WRITABLE);
            self.l3.write_entry(t3, i3, enew);
            proof {
                lemma_grow_l2(m1, *self, l4_index(page), i3 as int, a3, t3 as int, f, enew);
            }
            a2 = f;
        } else if e3 & FLAG_HUGE == FLAG_HUGE {
            proof {
                if !entry_present(m0.l4.entries@[l4_index(page)]) {
                    assert(m1.l3.table_at(a3)[i3 as int] == 0);
                    assert(false);
                }
                assert(m1 == m0);
                assert(m0.spec_walk(page) is Huge);
                assert(*self == m0);
                assert(allocator.future() =~= fut0);
                assert(allocator.taken() =~= taken0);
                assert(*allocator == *old(allocator));
            }
            return Result::Err(MapError::ParentEntryHugePage);
        } else {
            a2 = exec_entry_addr(e3);
            proof {
                assert(m1.l3.tables@[t3 as int].entries@[i3 as int] == e3);
                assert(self.l2.has_table(a2));
            }
        }
        let ghost m2 = *self;
        let ghost k2: int = if entry_present(m1.l3.table_at(a3)[l3_index(page)]) {
            k1
        } else {
            k1 + 1
        };
        proof {
            assert(allocator.future() =~= fut0.skip(k2));
            assert(allocator.taken() =~= taken0 + fut0.take(k2));
            assert forall|j: int|
                0 <= j < allocator.future().len() implies !m2.is_table_addr(
                #[trigger] allocator.future()[j],
            ) by {
                assert(allocator.future()[j] == fut0[k2 + j]);
            }
            assert(m2.l2.has_table(a2));
            assert(forall|va: u64| #[trigger] m2.spec_walk(va) == m0.spec_walk(va));
            assert(entry_present(m2.l3.table_at(a3)[l3_index(page)]) && !entry_huge(
                m2.l3.table_at(a3)[l3_index(page)],
            ) && entry_addr(m2.l3.table_at(a3)[l3_index(page)]) == a2);
            assert(m2.l4 == m1.l4);
        }

        // Level 2.
        let i2 = exec_l2_index(page);
        let t2 = match self.l2.find(a2) {
            Some(t) => t,
            None => {
                // Unreachable: the entry just checked points into the arena.
                proof {
                    assert(false);
                }
                return Result::Err(MapError::FrameAllocationFailed);
            },
        };
        let e2 = self.l2.read_entry(t2, i2);
        proof {
            assert(e2 == m2.l2.table_at(a2)[i2 as int]);
        }
        let a1: u64;
        if e2 & FLAG_PRESENT != FLAG_PRESENT {
            let f = match allocator.allocate_frame() {
                Some(f) => f,
                None => {
                    proof {
                        assert(m2.spec_walk(page) is Missing);
                        assert(m2.missing_tables(page) == 1);
                        assert(m0.spec_walk(page) is Missing);
                        assert(m0.missing_tables(page) == 1 + k2);
                        assert(fut0.len() == k2);
                        assert(allocator.taken() =~= taken0 + fut0);
                        assert(forall|va: u64| #[trigger] self.spec_walk(va)
                            == m0.spec_walk(va));
                    }
                    return Result::Err(MapError::FrameAllocationFailed);
                },
            };
            self.l1.push_zeroed(f);
            proof {
                assert(FLAG_PRESENT | FLAG_WRITABLE == 3u64) by (bit_vector);
            }
            let enew = make_entry(f, FLAG_PRESENT | FLAG_WRITABLE);
            self.l2.write_entry(t2, i2, enew);
            proof {
                lemma_grow_l1(
                    m2,
                    *self,
                    l4_index(page),
                    l3_index(page),
                    i2 as int,
                    a3,
                    m2.l3.index_for(a3),
                    a2,
                    t2 as int,
                    f,
                    enew,
                );
            }
            a1 = f;
        } else if e2 & FLAG_HUGE == FLAG_HUGE {
            proof {
                if !entry_present(m1.l3.table_at(a3)[l3_index(page)]) {
                    assert(m2.l2.table_at(a2)[i2 as int] == 0);
                    assert(false);
                }
                assert(m2 == m1);
                if !entry_present(m0.l4.entries@[l4_index(page)]) {
                    assert(m1.l3.table_at(a3)[l3_index(page)] == 0);
                    assert(false);
                }
                assert(m1 == m0);
                assert(m0.spec_walk(page) is Huge);
                assert(*self == m0);
                assert(allocator.future() =~= fut0);
                assert(allocator.taken() =~= taken0);
                assert(*allocator == *old(allocator));
            }
            return Result::Err(MapError::ParentEntryHugePage);
        } else {
            a1 = exec_entry_addr(e2);
            proof {
                assert(m2.l2.tables@[t2 as int].entries@[i2 as int] == e2);
                assert(self.l1.has_table(a1));
            }
        }
        let ghost m3 = *self;
        let ghost k3: int = if entry_present(m2.l2.table_at(a2)[l2_index(page)]) {
            k2
        } else {
            k2 + 1
        };
        proof {
            assert(allocator.future() =~= fut0.skip(k3));
            assert(allocator.taken() =~= taken0 + fut0.take(k3));
            assert forall|j: int|
                0 <= j < allocator.future().len() implies !m3.is_table_addr(
                #[trigger] allocator.future()[j],
            ) by {
                assert(allocator.future()[j] == fut0[k3 + j]);
            }
            assert(m3.l1.has_table(a1));
            assert(forall|va: u64| #[trigger] m3.spec_walk(va) == m0.spec_walk(va));
            assert(entry_present(m3.l2.table_at(a2)[l2_index(page)]) && !entry_huge(
                m3.l2.table_at(a2)[l2_index(page)],
            ) && entry_addr(m3.l2.table_at(a2)[l2_index(page)]) == a1);
            assert(m3.l4 == m2.l4 && m3.l3 == m2.l3);
            assert(entry_present(m3.l3.table_at(a3)[l3_index(page)]) && !entry_huge(
                m3.l3.table_at(a3)[l3_index(page)],
            ) && entry_addr(m3.l3.table_at(a3)[l3_index(page)]) == a2);
            assert(entry_present(m3.l4.entries@[l4_index(page)]) && !entry_huge(
                m3.l4.entries@[l4_index(page)],
            ) && entry_addr(m3.l4.entries@[l4_index(page)]) == a3);
        }

        // Level 1: the leaf.
        let i1 = exec_l1_index(page);
        let t1 = match self.l1.find(a1) {
            Some(t) => t,
            None => {
                // Unreachable: the entry just checked points into the arena.
                proof {
                    assert(false);
                }
                return Result::Err(MapError::FrameAllocationFailed);
            },
        };
        let e1 = self.l1.read_entry(t1, i1);
        proof {
            assert(e1 == m3.l1.table_at(a1)[i1 as int]);
        }
        if e1 & FLAG_PRESENT == FLAG_PRESENT {
            proof {
                if !entry_present(m2.l2.table_at(a2)[l2_index(page)]) {
                    assert(m3.l1.table_at(a1)[i1 as int] == 0);
                    assert(false);
                }
                assert(m3 == m2);
                if !entry_present(m1.l3.table_at(a3)[l3_index(page)]) {
                    assert(m2.l2.table_at(a2)[l2_index(page)] == 0);
                    assert(false);
                }
                assert(m2 == m1);
                if !entry_present(m0.l4.entries@[l4_index(page)]) {
                    assert(m1.l3.table_at(a3)[l3_index(page)] == 0);
                    assert(false);
                }
                assert(m1 == m0);
                assert(m0.spec_walk(page) == (WalkResult::Leaf { entry: e1 }));
                assert(*self == m0);
                assert(allocator.future() =~= fut0);
                assert(allocator.taken() =~= taken0);
                assert(*allocator == *old(allocator));
            }
            return Result::Err(MapError::PageAlreadyMapped);
        }
        let flags: u64 = if writable {
            FLAG_PRESENT | FLAG_WRITABLE
        } else {
            FLAG_PRESENT
        };
        proof {
            assert(FLAG_PRESENT | FLAG_WRITABLE == 3u64) by (bit_vector);
        }
        let eleaf = make_entry(frame, flags);
        self.l1.write_entry(t1, i1, eleaf);
        proof {
            lemma_set_leaf(
                m3,
                *self,
                l4_index(page),
                l3_index(page),
                l2_index(page),
                i1 as int,
                a3,
                m3.l3.index_for(a3),
                a2,
                m3.l2.index_for(a2),
                a1,
                t1 as int,
                eleaf,
            );
            // The walk of the page was missing, and exactly the consumed
            // number of tables was missing.
            assert(m3.spec_walk(page) is Missing);
            assert(m0.spec_walk(page) is Missing);
            assert(m3.missing_tables(page) == 0);
            assert(m0.missing_tables(page) == k3);
            assert(fut0.len() >= k3);
            // The mapped page translates to the frame, everything else is
            // untouched.
            assert forall|va: u64| va < MAX_VIRT_ADDR && page_base(va) == page implies self
                .spec_translate(va) == Result::<u64, TranslateError>::Ok(
                (frame + page_offset(va)) as u64,
            ) && self.spec_writable(va) == writable by {
                lemma_page_base_indices(va, page);
                assert(self.spec_walk(va) == (WalkResult::Leaf { entry: eleaf }));
            }
            assert forall|va: u64| va < MAX_VIRT_ADDR && page_base(va) != page implies self
                .spec_walk(va) == m0.spec_walk(va) by {
                lemma_page_base_indices(va, page);
                assert(self.spec_walk(va) == m3.spec_walk(va));
            }
        }
        Result::Ok(())
    }
}

/// Law: translation is pointwise within a page.  If the base of an aligned
/// page translates to the start of a frame, then for every offset below the
/// page size the address `page + k` translates to `frame + k`.  A mapping
/// installed by `create_mapping` establishes the hypothesis for its page.
pub proof fn lemma_translate_within_page(m: OffsetPageTable, page: u64, frame: u64, k: u64)
    requires
        page % 4096 == 0,
        page < MAX_VIRT_ADDR,
        k < 4096,
        m.spec_translate(page) == Result::<u64, TranslateError>::Ok(frame),
    ensures
        m.spec_translate((page + k) as u64) == Result::<u64, TranslateError>::Ok(
            (frame + k) as u64,
        ),
{
    let va = (page + k) as u64;
    assert(page % 4096 == 0 && page < 0x0001_0000_0000_0000 && k < 4096 ==> ((page + k) as u64)
        >> 39 == page >> 39 && ((page + k) as u64) >> 30 == page >> 30 && ((page + k) as u64) >> 21
        == page >> 21 && ((page + k) as u64) >> 12 == page >> 12 && ((page + k) as u64) & 0xfff == k
        && page & 0xfff == 0) by (bit_vector);
    assert(l4_index(va) == l4_index(page) && l3_index(va) == l3_index(page) && l2_index(va)
        == l2_index(page) && l1_index(va) == l1_index(page));
    assert(m.spec_walk(va) == m.spec_walk(page));
    assert(page_offset(page) == 0 && page_offset(va) == k);
}

/// Law: an address whose top-level entry is unused is not mapped.  The
/// walk answers `NotMapped` at once; since it never descends through an
/// unused entry, no memory behind one is ever read.
pub proof fn lemma_unused_top_level_not_mapped(m: OffsetPageTable, va: u64)
    requires
        !entry_present(m.l4.entries@[l4_index(va)]),
    ensures
        m.spec_translate(va) == Result::<u64, TranslateError>::Err(TranslateError::NotMapped),
{
}

/// Law: a page that translates successfully has a present leaf entry, so a
/// second `create_mapping` of it is refused with the overwrite error and
/// changes nothing: the page stays bound to its first frame.
pub proof fn lemma_mapped_page_walk_is_leaf(m: OffsetPageTable, va: u64)
    requires
        m.spec_translate(va) is Ok,
    ensures
        m.spec_walk(va) is Leaf,
        !(m.spec_walk(va) is Missing),
{
}

/// The page-base of an address brackets it from below.
pub proof fn lemma_page_base_bounds(va: u64)
    by (bit_vector)
    ensures
        va & 0xffff_ffff_ffff_f000 <= va,
        va < (va & 0xffff_ffff_ffff_f000) + 4096,
        (va & 0xffff_ffff_ffff_f000) % 4096 == 0,
{
}

/// Flag constants stay clear of the address bits.
proof fn lemma_flag_bits()
    by (bit_vector)
    ensures
        3u64 & 0x000f_ffff_ffff_f000 == 0,
        3u64 & 1 == 1,
        3u64 & 2 == 2,
        3u64 & 0x80 == 0,
        1u64 & 0x000f_ffff_ffff_f000 == 0,
        1u64 & 1 == 1,
        1u64 & 2 == 0,
        1u64 & 0x80 == 0,
{
}

/// Two addresses below the 48-bit walk window lie in the same page exactly
/// when their four walk indices agree, and an address of the page `p` is
/// `p` plus its page offset.
proof fn lemma_page_base_indices(va: u64, p: u64)
    by (bit_vector)
    requires
        p % 4096 == 0,
        p < 0x0001_0000_0000_0000,
        va < 0x0001_0000_0000_0000,
    ensures
        (va & 0xffff_ffff_ffff_f000 == p) <==> ((va >> 39) & 0x1ff == (p >> 39) & 0x1ff && (va
            >> 30) & 0x1ff == (p >> 30) & 0x1ff && (va >> 21) & 0x1ff == (p >> 21) & 0x1ff && (va
            >> 12) & 0x1ff == (p >> 12) & 0x1ff),
        (va & 0xffff_ffff_ffff_f000 == p) ==> p + (va & 0xfff) == va,
{
}

/// Builds a mapper over a fresh, empty top-level table at `l4_addr`,
/// reached through the boot-supplied physical-memory offset.  Every
/// translation starts out `NotMapped`.
pub fn init(phys_offset: u64, l4_addr: u64) -> (m: OffsetPageTable)
    requires
        page_aligned(l4_addr),
        l4_addr < MAX_PHYS_ADDR,
    ensures
        m.wf(),
        m.phys_offset == phys_offset,
        m.l4_addr == l4_addr,
        forall|va: u64| #[trigger] m.spec_walk(va) == WalkResult::Missing,
        forall|va: u64| #[trigger] m.spec_translate(va) == Result::<u64, TranslateError>::Err(
            TranslateError::NotMapped,
        ),
        forall|va: u64| #[trigger] m.missing_tables(va) == 3,
        forall|a: u64| #[trigger] m.is_table_addr(a) <==> a == l4_addr,
{
    let l4 = PageTable::new_zeroed();
    let m = OffsetPageTable {
        phys_offset,
        l4_addr,
        l4,
        l3: TableSet { addrs: Vec::new(), tables: Vec::new() },
        l2: TableSet { addrs: Vec::new(), tables: Vec::new() },
        l1: TableSet { addrs: Vec::new(), tables: Vec::new() },
    };
    proof {
        lemma_zero_entry();
        assert forall|va: u64| #[trigger] m.spec_walk(va) == WalkResult::Missing by {
            lemma_index_bounds(va);
            assert(m.l4.entries@[l4_index(va)] == 0);
        }
        assert forall|va: u64| #[trigger] m.missing_tables(va) == 3 by {
            lemma_index_bounds(va);
            assert(m.l4.entries@[l4_index(va)] == 0);
        }
    }
    m
}

/// An all-zero entry carries no flags.
proof fn lemma_zero_entry()
    by (bit_vector)
    ensures
        !entry_present(0u64),
        !entry_huge(0u64),
        !entry_writable(0u64),
{
}

/// The four per-level indices of any address are below 512.
proof fn lemma_index_bounds(va: u64)
    by (bit_vector)
    ensures
        (va >> 39) & 0x1ff < 512,
        (va >> 30) & 0x1ff < 512,
        (va >> 21) & 0x1ff < 512,
        (va >> 12) & 0x1ff < 512,
{
}

/// Effect of backing an unused level-4 entry with a fresh zeroed level-3
/// table: well-formedness is kept, no walk changes, and addresses under the
/// grown entry now miss two tables instead of three.
proof fn lemma_grow_l3(m0: OffsetPageTable, m1: OffsetPageTable, i4: int, f: u64, e: u64)
    requires
        m0.wf(),
        0 <= i4 < 512,
        !entry_present(m0.l4.entries@[i4]),
        !m0.is_table_addr(f),
        page_aligned(f),
        f < MAX_PHYS_ADDR,
        entry_present(e),
        !entry_huge(e),
        entry_addr(e) == f,
        m1.l4_addr == m0.l4_addr,
        m1.phys_offset == m0.phys_offset,
        m1.l4.entries@ == m0.l4.entries@.update(i4, e),
        m1.l3.wf(),
        m1.l3.addrs@ == m0.l3.addrs@.push(f),
        m1.l3.tables@.len() == m0.l3.tables@.len() + 1,
        forall|t: int| 0 <= t < m0.l3.tables@.len() ==> m1.l3.tables@[t] == m0.l3.tables@[t],
        m1.l3.tables@[m0.l3.tables@.len() as int].entries@.len() == 512,
        forall|i: int|
            0 <= i < 512 ==> m1.l3.tables@[m0.l3.tables@.len() as int].entries@[i] == 0,
        m1.l3.table_at(f).len() == 512,
        forall|i: int| 0 <= i < 512 ==> m1.l3.table_at(f)[i] == 0,
        forall|b: u64| #[trigger] m1.l3.has_table(b) <==> m0.l3.has_table(b) || b == f,
        forall|b: u64| m0.l3.has_table(b) ==> m1.l3.table_at(b) == m0.l3.table_at(b),
        m1.l2 == m0.l2,
        m1.l1 == m0.l1,
    ensures
        m1.wf(),
        forall|va: u64| #[trigger] m1.spec_walk(va) == m0.spec_walk(va),
        forall|va: u64|
            l4_index(va) == i4 ==> m0.missing_tables(va) == 3 && #[trigger] m1.missing_tables(va)
                == 2,
        forall|va: u64|
            l4_index(va) != i4 ==> #[trigger] m1.missing_tables(va) == m0.missing_tables(va),
        forall|a: u64| #[trigger] m1.is_table_addr(a) <==> m0.is_table_addr(a) || a == f,
{
    lemma_zero_entry();
    assert(m1.l4.wf());
    assert forall|a: u64| #[trigger] m1.l3.has_table(a) implies !m1.l2.has_table(a)
        && !m1.l1.has_table(a) && a != m1.l4_addr by {
        if m0.l3.has_table(a) {
        } else {
            assert(a == f);
        }
    }
    assert(m1.levels_disjoint());
    assert forall|i: int|
        0 <= i < 512 && entry_present(#[trigger] m1.l4.entries@[i]) && !entry_huge(
            m1.l4.entries@[i],
        ) implies m1.l3.has_table(entry_addr(m1.l4.entries@[i])) by {
        if i == i4 {
            assert(m1.l4.entries@[i] == e);
        } else {
            assert(m1.l4.entries@[i] == m0.l4.entries@[i]);
        }
    }
    assert forall|t: int, i: int|
        0 <= t < m1.l3.tables@.len() && 0 <= i < 512 && entry_present(
            #[trigger] m1.l3.tables@[t].entries@[i],
        ) && !entry_huge(m1.l3.tables@[t].entries@[i]) implies m1.l2.has_table(
        entry_addr(m1.l3.tables@[t].entries@[i]),
    ) by {
        if t < m0.l3.tables@.len() {
            assert(m1.l3.tables@[t] == m0.l3.tables@[t]);
        } else {
            assert(m1.l3.tables@[t].entries@[i] == 0);
        }
    }
    assert(m1.entries_point_down());
    assert forall|i: int, j: int|
        0 <= i < 512 && 0 <= j < 512 && i != j && entry_present(#[trigger] m1.l4.entries@[i])
            && !entry_huge(m1.l4.entries@[i]) && entry_present(#[trigger] m1.l4.entries@[j])
            && !entry_huge(m1.l4.entries@[j]) implies entry_addr(m1.l4.entries@[i]) != entry_addr(
        m1.l4.entries@[j],
    ) by {
        if i == i4 {
            assert(m0.l3.has_table(entry_addr(m0.l4.entries@[j])));
        } else if j == i4 {
            assert(m0.l3.has_table(entry_addr(m0.l4.entries@[i])));
        }
    }
    assert forall|t: int, i: int, t2: int, j: int|
        0 <= t < m1.l3.tables@.len() && 0 <= i < 512 && 0 <= t2 < m1.l3.tables@.len() && 0 <= j
            < 512 && !(t == t2 && i == j) && entry_present(#[trigger] m1.l3.tables@[t].entries@[i])
            && !entry_huge(m1.l3.tables@[t].entries@[i]) && entry_present(
            #[trigger] m1.l3.tables@[t2].entries@[j],
        ) && !entry_huge(m1.l3.tables@[t2].entries@[j]) implies entry_addr(
        m1.l3.tables@[t].entries@[i],
    ) != entry_addr(m1.l3.tables@[t2].entries@[j]) by {
        if t == m0.l3.tables@.len() {
            assert(m1.l3.tables@[t].entries@[i] == 0);
        } else if t2 == m0.l3.tables@.len() {
            assert(m1.l3.tables@[t2].entries@[j] == 0);
        } else {
            assert(m1.l3.tables@[t] == m0.l3.tables@[t]);
            assert(m1.l3.tables@[t2] == m0.l3.tables@[t2]);
        }
    }
    assert(m1.parents_unique());
    assert(m1.wf());
    assert forall|va: u64| #[trigger] m1.spec_walk(va) == m0.spec_walk(va) by {
        lemma_index_bounds(va);
        let j4 = l4_index(va);
        if j4 == i4 {
            assert(m0.spec_walk(va) == WalkResult::Missing);
            assert(m1.l4.entries@[j4] == e);
            assert(m1.l3.table_at(f)[l3_index(va)] == 0);
            assert(m1.spec_walk(va) == WalkResult::Missing);
        } else {
            assert(m1.l4.entries@[j4] == m0.l4.entries@[j4]);
            let e4 = m0.l4.entries@[j4];
            if entry_present(e4) && !entry_huge(e4) {
                let a3 = entry_addr(e4);
                assert(m0.l3.has_table(a3));
                assert(a3 != f);
                assert(m1.l3.has_table(a3));
                assert(m1.l3.table_at(a3) == m0.l3.table_at(a3));
            }
        }
    }
    assert forall|va: u64|
        l4_index(va) == i4 implies m0.missing_tables(va) == 3 && #[trigger] m1.missing_tables(va)
            == 2 by {
        lemma_index_bounds(va);
        assert(m1.l4.entries@[i4] == e);
        assert(m1.l3.table_at(f)[l3_index(va)] == 0);
    }
    assert forall|va: u64|
        l4_index(va) != i4 implies #[trigger] m1.missing_tables(va) == m0.missing_tables(va) by {
        lemma_index_bounds(va);
        let j4 = l4_index(va);
        assert(m1.l4.entries@[j4] == m0.l4.entries@[j4]);
        let e4 = m0.l4.entries@[j4];
        if entry_present(e4) && !entry_huge(e4) {
            let a3 = entry_addr(e4);
            assert(m0.l3.has_table(a3));
            assert(a3 != f);
            assert(m1.l3.table_at(a3) == m0.l3.table_at(a3));
        }
    }
}

/// Effect of backing an unused level-3 entry with a fresh zeroed level-2
/// table.  `a3` is the level-3 table the entry lives in, `t3` its position,
/// `f` the fresh frame, `e` the new entry value.
proof fn lemma_grow_l2(
    m0: OffsetPageTable,
    m1: OffsetPageTable,
    i4: int,
    i3: int,
    a3: u64,
    t3: int,
    f: u64,
    e: u64,
)
    requires
        m0.wf(),
        0 <= i4 < 512,
        0 <= i3 < 512,
        entry_present(m0.l4.entries@[i4]),
        !entry_huge(m0.l4.entries@[i4]),
        a3 == entry_addr(m0.l4.entries@[i4]),
        m0.l3.has_table(a3),
        0 <= t3 < m0.l3.tables@.len(),
        m0.l3.addrs@[t3] == a3,
        t3 == m0.l3.index_for(a3),
        !entry_present(m0.l3.table_at(a3)[i3]),
        !m0.is_table_addr(f),
        page_aligned(f),
        f < MAX_PHYS_ADDR,
        entry_present(e),
        !entry_huge(e),
        entry_addr(e) == f,
        m1.l4_addr == m0.l4_addr,
        m1.phys_offset == m0.phys_offset,
        m1.l4 == m0.l4,
        m1.l1 == m0.l1,
        m1.l3.wf(),
        m1.l3.addrs@ == m0.l3.addrs@,
        m1.l3.tables@.len() == m0.l3.tables@.len(),
        forall|t: int|
            0 <= t < m0.l3.tables@.len() && t != t3 ==> m1.l3.tables@[t] == m0.l3.tables@[t],
        m1.l3.tables@[t3].entries@ == m0.l3.tables@[t3].entries@.update(i3, e),
        m1.l3.table_at(a3) == m0.l3.table_at(a3).update(i3, e),
        forall|b: u64| #[trigger] m1.l3.has_table(b) <==> m0.l3.has_table(b),
        forall|b: u64|
            m0.l3.has_table(b) && m0.l3.index_for(b) != t3 ==> m1.l3.table_at(b) == m0.l3.table_at(
                b,
            ),
        m1.l2.wf(),
        m1.l2.addrs@ == m0.l2.addrs@.push(f),
        m1.l2.tables@.len() == m0.l2.tables@.len() + 1,
        forall|t: int| 0 <= t < m0.l2.tables@.len() ==> m1.l2.tables@[t] == m0.l2.tables@[t],
        m1.l2.tables@[m0.l2.tables@.len() as int].entries@.len() == 512,
        forall|i: int|
            0 <= i < 512 ==> m1.l2.tables@[m0.l2.tables@.len() as int].entries@[i] == 0,
        m1.l2.table_at(f).len() == 512,
        forall|i: int| 0 <= i < 512 ==> m1.l2.table_at(f)[i] == 0,
        forall|b: u64| #[trigger] m1.l2.has_table(b) <==> m0.l2.has_table(b) || b == f,
        forall|b: u64| m0.l2.has_table(b) ==> m1.l2.table_at(b) == m0.l2.table_at(b),
    ensures
        m1.wf(),
        forall|va: u64| #[trigger] m1.spec_walk(va) == m0.spec_walk(va),
        forall|va: u64|
            l4_index(va) == i4 && l3_index(va) == i3 ==> m0.missing_tables(va) == 2
                && #[trigger] m1.missing_tables(va) == 1,
        forall|va: u64|
            !(l4_index(va) == i4 && l3_index(va) == i3) ==> #[trigger] m1.missing_tables(va)
                == m0.missing_tables(va),
        forall|a: u64| #[trigger] m1.is_table_addr(a) <==> m0.is_table_addr(a) || a == f,
{
    lemma_zero_entry();
    m0.l3.lemma_index_for(a3);
    // Untouched level-3 tables keep their contents.
    assert forall|b: u64| m0.l3.has_table(b) && b != a3 implies m1.l3.table_at(b)
        == m0.l3.table_at(b) by {
        m0.l3.lemma_index_for(b);
        assert(m0.l3.index_for(b) != t3);
    }
    // Well-formedness.
    assert forall|a: u64| #[trigger] m1.l2.has_table(a) implies !m1.l1.has_table(a) && a
        != m1.l4_addr by {
        if m0.l2.has_table(a) {
        } else {
            assert(a == f);
        }
    }
    assert forall|a: u64| #[trigger] m1.l3.has_table(a) implies !m1.l2.has_table(a)
        && !m1.l1.has_table(a) && a != m1.l4_addr by {
        assert(m0.l3.has_table(a));
        assert(a != f);
    }
    assert(m1.levels_disjoint());
    assert forall|t: int, i: int|
        0 <= t < m1.l3.tables@.len() && 0 <= i < 512 && entry_present(
            #[trigger] m1.l3.tables@[t].entries@[i],
        ) && !entry_huge(m1.l3.tables@[t].entries@[i]) implies m1.l2.has_table(
        entry_addr(m1.l3.tables@[t].entries@[i]),
    ) by {
        if t == t3 && i == i3 {
            assert(m1.l3.tables@[t].entries@[i] == e);
        } else if t == t3 {
            assert(m1.l3.tables@[t].entries@[i] == m0.l3.tables@[t].entries@[i]);
        } else {
            assert(m1.l3.tables@[t] == m0.l3.tables@[t]);
        }
    }
    assert forall|t: int, i: int|
        0 <= t < m1.l2.tables@.len() && 0 <= i < 512 && entry_present(
            #[trigger] m1.l2.tables@[t].entries@[i],
        ) && !entry_huge(m1.l2.tables@[t].entries@[i]) implies m1.l1.has_table(
        entry_addr(m1.l2.tables@[t].entries@[i]),
    ) by {
        if t < m0.l2.tables@.len() {
            assert(m1.l2.tables@[t] == m0.l2.tables@[t]);
        } else {
            assert(m1.l2.tables@[t].entries@[i] == 0);
        }
    }
    assert(m1.entries_point_down());
    // Parent uniqueness at level 3: the one new present entry points at the
    // fresh frame, which no old entry can reach.
    assert forall|t: int, i: int, t2: int, j: int|
        0 <= t < m1.l3.tables@.len() && 0 <= i < 512 && 0 <= t2 < m1.l3.tables@.len() && 0 <= j
            < 512 && !(t == t2 && i == j) && entry_present(#[trigger] m1.l3.tables@[t].entries@[i])
            && !entry_huge(m1.l3.tables@[t].entries@[i]) && entry_present(
            #[trigger] m1.l3.tables@[t2].entries@[j],
        ) && !entry_huge(m1.l3.tables@[t2].entries@[j]) implies entry_addr(
        m1.l3.tables@[t].entries@[i],
    ) != entry_addr(m1.l3.tables@[t2].entries@[j]) by {
        if t == t3 && i == i3 {
            assert(m1.l3.tables@[t].entries@[i] == e);
            assert(m1.l3.tables@[t2].entries@[j] == m0.l3.tables@[t2].entries@[j]);
            assert(m0.l2.has_table(entry_addr(m0.l3.tables@[t2].entries@[j])));
        } else if t2 == t3 && j == i3 {
            assert(m1.l3.tables@[t2].entries@[j] == e);
            assert(m1.l3.tables@[t].entries@[i] == m0.l3.tables@[t].entries@[i]);
            assert(m0.l2.has_table(entry_addr(m0.l3.tables@[t].entries@[i])));
        } else {
            assert(m1.l3.tables@[t].entries@[i] == m0.l3.tables@[t].entries@[i]);
            assert(m1.l3.tables@[t2].entries@[j] == m0.l3.tables@[t2].entries@[j]);
        }
    }
    assert forall|t: int, i: int, t2: int, j: int|
        0 <= t < m1.l2.tables@.len() && 0 <= i < 512 && 0 <= t2 < m1.l2.tables@.len() && 0 <= j
            < 512 && !(t == t2 && i == j) && entry_present(#[trigger] m1.l2.tables@[t].entries@[i])
            && !entry_huge(m1.l2.tables@[t].entries@[i]) && entry_present(
            #[trigger] m1.l2.tables@[t2].entries@[j],
        ) && !entry_huge(m1.l2.tables@[t2].entries@[j]) implies entry_addr(
        m1.l2.tables@[t].entries@[i],
    ) != entry_addr(m1.l2.tables@[t2].entries@[j]) by {
        if t == m0.l2.tables@.len() {
            assert(m1.l2.tables@[t].entries@[i] == 0);
        } else if t2 == m0.l2.tables@.len() {
            assert(m1.l2.tables@[t2].entries@[j] == 0);
        } else {
            assert(m1.l2.tables@[t] == m0.l2.tables@[t]);
            assert(m1.l2.tables@[t2] == m0.l2.tables@[t2]);
        }
    }
    assert(m1.parents_unique());
    assert(m1.wf());
    // Walks are unchanged.
    assert forall|va: u64| #[trigger] m1.spec_walk(va) == m0.spec_walk(va) by {
        lemma_index_bounds(va);
        let j4 = l4_index(va);
        let j3 = l3_index(va);
        let e4 = m0.l4.entries@[j4];
        if entry_present(e4) && !entry_huge(e4) {
            let b3 = entry_addr(e4);
            assert(m0.l3.has_table(b3));
            if b3 == a3 {
                if j3 == i3 {
                    assert(m0.spec_walk(va) == WalkResult::Missing);
                    assert(m1.l3.table_at(a3)[j3] == e);
                    assert(m1.l2.table_at(f)[l2_index(va)] == 0);
                    assert(m1.spec_walk(va) == WalkResult::Missing);
                } else {
                    assert(m1.l3.table_at(a3)[j3] == m0.l3.table_at(a3)[j3]);
                    let e3 = m0.l3.table_at(a3)[j3];
                    if entry_present(e3) && !entry_huge(e3) {
                        let b2 = entry_addr(e3);
                        assert(m0.l3.tables@[t3].entries@[j3] == e3);
                        assert(m0.l2.has_table(b2));
                        assert(b2 != f);
                        assert(m1.l2.table_at(b2) == m0.l2.table_at(b2));
                    }
                }
            } else {
                assert(m1.l3.table_at(b3) == m0.l3.table_at(b3));
                let e3 = m0.l3.table_at(b3)[j3];
                if entry_present(e3) && !entry_huge(e3) {
                    let b2 = entry_addr(e3);
                    m0.l3.lemma_index_for(b3);
                    assert(m0.l3.tables@[m0.l3.index_for(b3)].entries@[j3] == e3);
                    assert(m0.l2.has_table(b2));
                    assert(b2 != f);
                    assert(m1.l2.table_at(b2) == m0.l2.table_at(b2));
                }
            }
        }
    }
    // Missing-table counts.
    assert forall|va: u64|
        l4_index(va) == i4 && l3_index(va) == i3 implies m0.missing_tables(va) == 2
            && #[trigger] m1.missing_tables(va) == 1 by {
        lemma_index_bounds(va);
        assert(m1.l3.table_at(a3)[i3] == e);
        assert(m1.l2.table_at(f)[l2_index(va)] == 0);
    }
    assert forall|va: u64|
        !(l4_index(va) == i4 && l3_index(va) == i3) implies #[trigger] m1.missing_tables(va)
            == m0.missing_tables(va) by {
        lemma_index_bounds(va);
        let j4 = l4_index(va);
        let j3 = l3_index(va);
        let e4 = m0.l4.entries@[j4];
        if entry_present(e4) && !entry_huge(e4) {
            let b3 = entry_addr(e4);
            assert(m0.l3.has_table(b3));
            if b3 == a3 {
                // A second level-4 entry cannot point at the same table.
                if j4 != i4 {
                    assert(false);
                }
                assert(m1.l3.table_at(a3)[j3] == m0.l3.table_at(a3)[j3]);
                let e3 = m0.l3.table_at(a3)[j3];
                if entry_present(e3) && !entry_huge(e3) {
                    let b2 = entry_addr(e3);
                    assert(m0.l3.tables@[t3].entries@[j3] == e3);
                    assert(m0.l2.has_table(b2));
                    assert(b2 != f);
                    assert(m1.l2.table_at(b2) == m0.l2.table_at(b2));
                }
            } else {
                assert(m1.l3.table_at(b3) == m0.l3.table_at(b3));
                let e3 = m0.l3.table_at(b3)[j3];
                if entry_present(e3) && !entry_huge(e3) {
                    let b2 = entry_addr(e3);
                    m0.l3.lemma_index_for(b3);
                    assert(m0.l3.tables@[m0.l3.index_for(b3)].entries@[j3] == e3);
                    assert(m0.l2.has_table(b2));
                    assert(b2 != f);
                    assert(m1.l2.table_at(b2) == m0.l2.table_at(b2));
                }
            }
        }
    }
}

/// Effect of backing an unused level-2 entry with a fresh zeroed level-1
/// table.  `a3`/`t3` name the level-3 table on the path, `a2`/`t2` the
/// level-2 table the entry lives in.
proof fn lemma_grow_l1(
    m0: OffsetPageTable,
    m1: OffsetPageTable,
    i4: int,
    i3: int,
    i2: int,
    a3: u64,
    t3: int,
    a2: u64,
    t2: int,
    f: u64,
    e: u64,
)
    requires
        m0.wf(),
        0 <= i4 < 512,
        0 <= i3 < 512,
        0 <= i2 < 512,
        entry_present(m0.l4.entries@[i4]),
        !entry_huge(m0.l4.entries@[i4]),
        a3 == entry_addr(m0.l4.entries@[i4]),
        m0.l3.has_table(a3),
        0 <= t3 < m0.l3.tables@.len(),
        m0.l3.addrs@[t3] == a3,
        t3 == m0.l3.index_for(a3),
        entry_present(m0.l3.table_at(a3)[i3]),
        !entry_huge(m0.l3.table_at(a3)[i3]),
        a2 == entry_addr(m0.l3.table_at(a3)[i3]),
        m0.l2.has_table(a2),
        0 <= t2 < m0.l2.tables@.len(),
        m0.l2.addrs@[t2] == a2,
        t2 == m0.l2.index_for(a2),
        !entry_present(m0.l2.table_at(a2)[i2]),
        !m0.is_table_addr(f),
        page_aligned(f),
        f < MAX_PHYS_ADDR,
        entry_present(e),
        !entry_huge(e),
        entry_addr(e) == f,
        m1.l4_addr == m0.l4_addr,
        m1.phys_offset == m0.phys_offset,
        m1.l4 == m0.l4,
        m1.l3 == m0.l3,
        m1.l2.wf(),
        m1.l2.addrs@ == m0.l2.addrs@,
        m1.l2.tables@.len() == m0.l2.tables@.len(),
        forall|t: int|
            0 <= t < m0.l2.tables@.len() && t != t2 ==> m1.l2.tables@[t] == m0.l2.tables@[t],
        m1.l2.tables@[t2].entries@ == m0.l2.tables@[t2].entries@.update(i2, e),
        m1.l2.table_at(a2) == m0.l2.table_at(a2).update(i2, e),
        forall|b: u64| #[trigger] m1.l2.has_table(b) <==> m0.l2.has_table(b),
        forall|b: u64|
            m0.l2.has_table(b) && m0.l2.index_for(b) != t2 ==> m1.l2.table_at(b) == m0.l2.table_at(
                b,
            ),
        m1.l1.wf(),
        m1.l1.addrs@ == m0.l1.addrs@.push(f),
        m1.l1.tables@.len() == m0.l1.tables@.len() + 1,
        forall|t: int| 0 <= t < m0.l1.tables@.len() ==> m1.l1.tables@[t] == m0.l1.tables@[t],
        m1.l1.table_at(f).len() == 512,
        forall|i: int| 0 <= i < 512 ==> m1.l1.table_at(f)[i] == 0,
        forall|b: u64| #[trigger] m1.l1.has_table(b) <==> m0.l1.has_table(b) || b == f,
        forall|b: u64| m0.l1.has_table(b) ==> m1.l1.table_at(b) == m0.l1.table_at(b),
    ensures
        m1.wf(),
        forall|va: u64| #[trigger] m1.spec_walk(va) == m0.spec_walk(va),
        forall|va: u64|
            l4_index(va) == i4 && l3_index(va) == i3 && l2_index(va) == i2 ==> m0.missing_tables(
                va,
            ) == 1 && #[trigger] m1.missing_tables(va) == 0,
        forall|va: u64|
            !(l4_index(va) == i4 && l3_index(va) == i3 && l2_index(va) == i2)
                ==> #[trigger] m1.missing_tables(va) == m0.missing_tables(va),
        forall|a: u64| #[trigger] m1.is_table_addr(a) <==> m0.is_table_addr(a) || a == f,
{
    lemma_zero_entry();
    m0.l3.lemma_index_for(a3);
    m0.l2.lemma_index_for(a2);
    assert(m0.l3.tables@[t3].entries@[i3] == m0.l3.table_at(a3)[i3]);
    // Untouched level-2 tables keep their contents.
    assert forall|b: u64| m0.l2.has_table(b) && b != a2 implies m1.l2.table_at(b)
        == m0.l2.table_at(b) by {
        m0.l2.lemma_index_for(b);
        assert(m0.l2.index_for(b) != t2);
    }
    // Well-formedness.
    assert forall|a: u64| #[trigger] m1.l1.has_table(a) implies a != m1.l4_addr by {
        if m0.l1.has_table(a) {
        } else {
            assert(a == f);
        }
    }
    assert forall|a: u64| #[trigger] m1.l2.has_table(a) implies !m1.l1.has_table(a) && a
        != m1.l4_addr by {
        assert(m0.l2.has_table(a));
        assert(a != f);
    }
    assert forall|a: u64| #[trigger] m1.l3.has_table(a) implies !m1.l2.has_table(a)
        && !m1.l1.has_table(a) && a != m1.l4_addr by {
        assert(m0.l3.has_table(a));
        assert(a != f);
    }
    assert(m1.levels_disjoint());
    assert forall|t: int, i: int|
        0 <= t < m1.l2.tables@.len() && 0 <= i < 512 && entry_present(
            #[trigger] m1.l2.tables@[t].entries@[i],
        ) && !entry_huge(m1.l2.tables@[t].entries@[i]) implies m1.l1.has_table(
        entry_addr(m1.l2.tables@[t].entries@[i]),
    ) by {
        if t == t2 && i == i2 {
            assert(m1.l2.tables@[t].entries@[i] == e);
        } else if t == t2 {
            assert(m1.l2.tables@[t].entries@[i] == m0.l2.tables@[t].entries@[i]);
        } else {
            assert(m1.l2.tables@[t] == m0.l2.tables@[t]);
        }
    }
    assert(m1.entries_point_down());
    assert forall|t: int, i: int, t2x: int, j: int|
        0 <= t < m1.l2.tables@.len() && 0 <= i < 512 && 0 <= t2x < m1.l2.tables@.len() && 0 <= j
            < 512 && !(t == t2x && i == j) && entry_present(#[trigger] m1.l2.tables@[t].entries@[i])
            && !entry_huge(m1.l2.tables@[t].entries@[i]) && entry_present(
            #[trigger] m1.l2.tables@[t2x].entries@[j],
        ) && !entry_huge(m1.l2.tables@[t2x].entries@[j]) implies entry_addr(
        m1.l2.tables@[t].entries@[i],
    ) != entry_addr(m1.l2.tables@[t2x].entries@[j]) by {
        if t == t2 && i == i2 {
            assert(m1.l2.tables@[t].entries@[i] == e);
            assert(m1.l2.tables@[t2x].entries@[j] == m0.l2.tables@[t2x].entries@[j]);
            assert(m0.l1.has_table(entry_addr(m0.l2.tables@[t2x].entries@[j])));
        } else if t2x == t2 && j == i2 {
            assert(m1.l2.tables@[t2x].entries@[j] == e);
            assert(m1.l2.tables@[t].entries@[i] == m0.l2.tables@[t].entries@[i]);
            assert(m0.l1.has_table(entry_addr(m0.l2.tables@[t].entries@[i])));
        } else {
            assert(m1.l2.tables@[t].entries@[i] == m0.l2.tables@[t].entries@[i]);
            assert(m1.l2.tables@[t2x].entries@[j] == m0.l2.tables@[t2x].entries@[j]);
        }
    }
    assert(m1.parents_unique());
    assert(m1.wf());
    // Walks are unchanged.
    assert forall|va: u64| #[trigger] m1.spec_walk(va) == m0.spec_walk(va) by {
        lemma_index_bounds(va);
        let j4 = l4_index(va);
        let j3 = l3_index(va);
        let j2 = l2_index(va);
        let e4 = m0.l4.entries@[j4];
        if entry_present(e4) && !entry_huge(e4) {
            let b3 = entry_addr(e4);
            assert(m0.l3.has_table(b3));
            let e3 = m0.l3.table_at(b3)[j3];
            if entry_present(e3) && !entry_huge(e3) {
                let b2 = entry_addr(e3);
                m0.l3.lemma_index_for(b3);
                assert(m0.l3.tables@[m0.l3.index_for(b3)].entries@[j3] == e3);
                assert(m0.l2.has_table(b2));
                if b2 == a2 {
                    if j2 == i2 {
                        assert(m0.spec_walk(va) == WalkResult::Missing);
                        assert(m1.l2.table_at(a2)[j2] == e);
                        assert(m1.l1.table_at(f)[l1_index(va)] == 0);
                        assert(m1.spec_walk(va) == WalkResult::Missing);
                    } else {
                        assert(m1.l2.table_at(a2)[j2] == m0.l2.table_at(a2)[j2]);
                        let e2 = m0.l2.table_at(a2)[j2];
                        if entry_present(e2) && !entry_huge(e2) {
                            let b1 = entry_addr(e2);
                            assert(m0.l2.tables@[t2].entries@[j2] == e2);
                            assert(m0.l1.has_table(b1));
                            assert(b1 != f);
                            assert(m1.l1.table_at(b1) == m0.l1.table_at(b1));
                        }
                    }
                } else {
                    assert(m1.l2.table_at(b2) == m0.l2.table_at(b2));
                    let e2 = m0.l2.table_at(b2)[j2];
                    if entry_present(e2) && !entry_huge(e2) {
                        let b1 = entry_addr(e2);
                        m0.l2.lemma_index_for(b2);
                        assert(m0.l2.tables@[m0.l2.index_for(b2)].entries@[j2] == e2);
                        assert(m0.l1.has_table(b1));
                        assert(b1 != f);
                        assert(m1.l1.table_at(b1) == m0.l1.table_at(b1));
                    }
                }
            }
        }
    }
    // Missing-table counts.
    assert forall|va: u64|
        l4_index(va) == i4 && l3_index(va) == i3 && l2_index(va) == i2 implies m0.missing_tables(
        va,
    ) == 1 && #[trigger] m1.missing_tables(va) == 0 by {
        lemma_index_bounds(va);
        assert(m1.l2.table_at(a2)[i2] == e);
    }
    assert forall|va: u64|
        !(l4_index(va) == i4 && l3_index(va) == i3 && l2_index(va) == i2)
            implies #[trigger] m1.missing_tables(va) == m0.missing_tables(va) by {
        lemma_index_bounds(va);
        let j4 = l4_index(va);
        let j3 = l3_index(va);
        let j2 = l2_index(va);
        let e4 = m0.l4.entries@[j4];
        if entry_present(e4) && !entry_huge(e4) {
            let b3 = entry_addr(e4);
            assert(m0.l3.has_table(b3));
            let e3 = m0.l3.table_at(b3)[j3];
            m0.l3.lemma_index_for(b3);
            assert(m0.l3.tables@[m0.l3.index_for(b3)].entries@[j3] == e3);
            if entry_present(e3) && !entry_huge(e3) {
                let b2 = entry_addr(e3);
                assert(m0.l2.has_table(b2));
                if b2 == a2 {
                    // The level-3 entry reaching this table is unique, so the
                    // path above is ours.
                    if !(j4 == i4 && j3 == i3) {
                        if m0.l3.index_for(b3) == t3 && j3 == i3 {
                            assert(b3 == a3);
                            if j4 != i4 {
                                assert(false);
                            }
                        } else {
                            assert(false);
                        }
                    }
                    assert(j2 != i2);
                    assert(m1.l2.table_at(a2)[j2] == m0.l2.table_at(a2)[j2]);
                    let e2 = m0.l2.table_at(a2)[j2];
                    if entry_present(e2) && !entry_huge(e2) {
                        let b1 = entry_addr(e2);
                        assert(m0.l2.tables@[t2].entries@[j2] == e2);
                        assert(m0.l1.has_table(b1));
                        assert(b1 != f);
                        assert(m1.l1.table_at(b1) == m0.l1.table_at(b1));
                    }
                } else {
                    assert(m1.l2.table_at(b2) == m0.l2.table_at(b2));
                    let e2 = m0.l2.table_at(b2)[j2];
                    if entry_present(e2) && !entry_huge(e2) {
                        let b1 = entry_addr(e2);
                        m0.l2.lemma_index_for(b2);
                        assert(m0.l2.tables@[m0.l2.index_for(b2)].entries@[j2] == e2);
                        assert(m0.l1.has_table(b1));
                        assert(b1 != f);
                        assert(m1.l1.table_at(b1) == m0.l1.table_at(b1));
                    }
                }
            }
        }
    }
}

/// Effect of writing a leaf entry: exactly the addresses whose four indices
/// name that entry change their walk, to the written entry; every other
/// walk is untouched.
proof fn lemma_set_leaf(
    m0: OffsetPageTable,
    m1: OffsetPageTable,
    i4: int,
    i3: int,
    i2: int,
    i1: int,
    a3: u64,
    t3: int,
    a2: u64,
    t2: int,
    a1: u64,
    t1: int,
    e: u64,
)
    requires
        m0.wf(),
        0 <= i4 < 512,
        0 <= i3 < 512,
        0 <= i2 < 512,
        0 <= i1 < 512,
        entry_present(m0.l4.entries@[i4]),
        !entry_huge(m0.l4.entries@[i4]),
        a3 == entry_addr(m0.l4.entries@[i4]),
        m0.l3.has_table(a3),
        0 <= t3 < m0.l3.tables@.len(),
        m0.l3.addrs@[t3] == a3,
        t3 == m0.l3.index_for(a3),
        entry_present(m0.l3.table_at(a3)[i3]),
        !entry_huge(m0.l3.table_at(a3)[i3]),
        a2 == entry_addr(m0.l3.table_at(a3)[i3]),
        m0.l2.has_table(a2),
        0 <= t2 < m0.l2.tables@.len(),
        m0.l2.addrs@[t2] == a2,
        t2 == m0.l2.index_for(a2),
        entry_present(m0.l2.table_at(a2)[i2]),
        !entry_huge(m0.l2.table_at(a2)[i2]),
        a1 == entry_addr(m0.l2.table_at(a2)[i2]),
        m0.l1.has_table(a1),
        0 <= t1 < m0.l1.tables@.len(),
        m0.l1.addrs@[t1] == a1,
        t1 == m0.l1.index_for(a1),
        entry_present(e),
        m1.l4_addr == m0.l4_addr,
        m1.phys_offset == m0.phys_offset,
        m1.l4 == m0.l4,
        m1.l3 == m0.l3,
        m1.l2 == m0.l2,
        m1.l1.wf(),
        m1.l1.addrs@ == m0.l1.addrs@,
        m1.l1.tables@.len() == m0.l1.tables@.len(),
        forall|t: int|
            0 <= t < m0.l1.tables@.len() && t != t1 ==> m1.l1.tables@[t] == m0.l1.tables@[t],
        m1.l1.tables@[t1].entries@ == m0.l1.tables@[t1].entries@.update(i1, e),
        m1.l1.table_at(a1) == m0.l1.table_at(a1).update(i1, e),
        forall|b: u64| #[trigger] m1.l1.has_table(b) <==> m0.l1.has_table(b),
        forall|b: u64|
            m0.l1.has_table(b) && m0.l1.index_for(b) != t1 ==> m1.l1.table_at(b) == m0.l1.table_at(
                b,
            ),
    ensures
        m1.wf(),
        forall|va: u64|
            l4_index(va) == i4 && l3_index(va) == i3 && l2_index(va) == i2 && l1_index(va) == i1
                ==> #[trigger] m1.spec_walk(va) == (WalkResult::Leaf { entry: e }),
        forall|va: u64|
            !(l4_index(va) == i4 && l3_index(va) == i3 && l2_index(va) == i2 && l1_index(va) == i1)
                ==> #[trigger] m1.spec_walk(va) == m0.spec_walk(va),
        forall|a: u64| #[trigger] m1.is_table_addr(a) <==> m0.is_table_addr(a),
        forall|va: u64|
            !(l4_index(va) == i4 && l3_index(va) == i3 && l2_index(va) == i2 && l1_index(va) == i1)
                ==> #[trigger] m1.missing_tables(va) == m0.missing_tables(va),
{
    m0.l3.lemma_index_for(a3);
    m0.l2.lemma_index_for(a2);
    m0.l1.lemma_index_for(a1);
    assert(m0.l3.tables@[t3].entries@[i3] == m0.l3.table_at(a3)[i3]);
    assert(m0.l2.tables@[t2].entries@[i2] == m0.l2.table_at(a2)[i2]);
    // Untouched level-1 tables keep their contents.
    assert forall|b: u64| m0.l1.has_table(b) && b != a1 implies m1.l1.table_at(b)
        == m0.l1.table_at(b) by {
        m0.l1.lemma_index_for(b);
        assert(m0.l1.index_for(b) != t1);
    }
    // Well-formedness: level-1 contents are unconstrained, the rest is
    // unchanged.
    assert(m1.levels_disjoint());
    assert(m1.entries_point_down());
    assert(m1.parents_unique());
    assert(m1.wf());
    // The written path.
    assert forall|va: u64|
        l4_index(va) == i4 && l3_index(va) == i3 && l2_index(va) == i2 && l1_index(va) == i1
            implies #[trigger] m1.spec_walk(va) == (WalkResult::Leaf { entry: e }) by {
        assert(m1.l1.table_at(a1)[i1] == e);
    }
    // Every other path.
    assert forall|va: u64|
        !(l4_index(va) == i4 && l3_index(va) == i3 && l2_index(va) == i2 && l1_index(va) == i1)
            implies #[trigger] m1.spec_walk(va) == m0.spec_walk(va) && m1.missing_tables(va)
            == m0.missing_tables(va) by {
        lemma_index_bounds(va);
        let j4 = l4_index(va);
        let j3 = l3_index(va);
        let j2 = l2_index(va);
        let j1 = l1_index(va);
        let e4 = m0.l4.entries@[j4];
        if entry_present(e4) && !entry_huge(e4) {
            let b3 = entry_addr(e4);
            assert(m0.l3.has_table(b3));
            let e3 = m0.l3.table_at(b3)[j3];
            m0.l3.lemma_index_for(b3);
            assert(m0.l3.tables@[m0.l3.index_for(b3)].entries@[j3] == e3);
            if entry_present(e3) && !entry_huge(e3) {
                let b2 = entry_addr(e3);
                assert(m0.l2.has_table(b2));
                let e2 = m0.l2.table_at(b2)[j2];
                m0.l2.lemma_index_for(b2);
                assert(m0.l2.tables@[m0.l2.index_for(b2)].entries@[j2] == e2);
                if entry_present(e2) && !entry_huge(e2) {
                    let b1 = entry_addr(e2);
                    assert(m0.l1.has_table(b1));
                    if b1 == a1 {
                        // Walk up the unique parents: this must be our path.
                        if m0.l2.index_for(b2) == t2 && j2 == i2 {
                            assert(b2 == a2);
                            if m0.l3.index_for(b3) == t3 && j3 == i3 {
                                assert(b3 == a3);
                                if j4 != i4 {
                                    assert(false);
                                }
                            } else {
                                assert(false);
                            }
                        } else {
                            assert(false);
                        }
                        assert(j1 != i1);
                        assert(m1.l1.table_at(a1)[j1] == m0.l1.table_at(a1)[j1]);
                    } else {
                        assert(m1.l1.table_at(b1) == m0.l1.table_at(b1));
                    }
                }
            }
        }
    }
}

} // verus!
