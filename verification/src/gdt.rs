//! Descriptor/stack table: segment descriptors in the CPU's required
//! binary layout, and the task state structure whose first alternate-stack
//! slot backs the double-fault handler.  Built once at boot and loaded by
//! the surrounding program; a malformed build cannot verify, so loading has
//! no failure mode.
use vstd::prelude::*;

verus! {

/// Alternate-stack slot reserved for double-fault recovery.
pub const DOUBLE_FAULT_IST_IDX: u16 = 0;

/// Size of the statically reserved double-fault stack region.
pub const STACK_SIZE: u64 = 4096;

/// The 64-bit kernel code segment descriptor: limit `0xfffff` with 4-KiB
/// granularity, base 0, access byte `0x9b` (present, ring 0, code,
/// readable, accessed), long-mode bit set.
pub const KERNEL_CODE_DESCRIPTOR: u64 = 0x00af_9b00_0000_ffff;

/// Byte limit of the task state structure: its 104 bytes minus one, as the
/// descriptor format demands.
pub const TSS_LIMIT: u64 = 103;

/// Bit 47 of a descriptor: the segment is present.
pub open spec fn desc_present(d: u64) -> bool {
    d & 0x0000_8000_0000_0000 == 0x0000_8000_0000_0000
}

/// Bit 43 of a descriptor: the segment is executable.
pub open spec fn desc_executable(d: u64) -> bool {
    d & 0x0000_0800_0000_0000 == 0x0000_0800_0000_0000
}

/// Bit 53 of a descriptor: 64-bit code.
pub open spec fn desc_long_mode(d: u64) -> bool {
    d & 0x0020_0000_0000_0000 == 0x0020_0000_0000_0000
}

/// Bits 40..44 of a system descriptor: its type nibble.
pub open spec fn desc_type_bits(d: u64) -> u64 {
    (d >> 40) & 0xf
}

/// The low word of the task-segment descriptor for a task state structure
/// at `base`: limit in bits 0..16 and 48..52, base bits 0..24 in bits
/// 16..40 and bits 24..32 in bits 56..64, type nibble 9 with the present
/// bit in the access byte.
pub open spec fn spec_tss_descriptor_low(base: u64) -> u64 {
    TSS_LIMIT | ((base & 0xff_ffff) << 16) | (0x89u64 << 40) | (((base >> 24) & 0xff) << 56)
}

/// The high word of the task-segment descriptor: base bits 32..64.
pub open spec fn spec_tss_descriptor_high(base: u64) -> u64 {
    base >> 32
}

/// The base address a system descriptor pair encodes, reassembled from its
/// three scattered fields.
pub open spec fn tss_desc_base(lo: u64, hi: u64) -> u64 {
    ((lo >> 16) & 0xff_ffff) | (((lo >> 56) & 0xff) << 24) | ((hi & 0xffff_ffff) << 32)
}

/// The 20-bit limit a system descriptor encodes.
pub open spec fn tss_desc_limit(lo: u64) -> u64 {
    (lo & 0xffff) | (((lo >> 48) & 0xf) << 16)
}

/// Fixed-size array of alternate stack tops, indexed by interrupt-stack
/// index; slot 0 is reserved for double-fault recovery.  A stored value is
/// the *top* of its stack region, since the stack grows downward.
pub struct TaskStateSegment {
    pub interrupt_stack_table: Vec<u64>,
}

impl TaskStateSegment {
    pub open spec fn wf(self) -> bool {
        self.interrupt_stack_table@.len() == 7
    }

    /// A task state structure with every slot empty.
    pub fn new() -> (t: TaskStateSegment)
        ensures
            t.wf(),
            forall|i: int| 0 <= i < 7 ==> t.interrupt_stack_table@[i] == 0,
    {
        let mut interrupt_stack_table: Vec<u64> = Vec::new();
        let mut k: usize = 0;
        while k < 7
            invariant
                k <= 7,
                interrupt_stack_table@.len() == k,
                forall|i: int| 0 <= i < k ==> interrupt_stack_table@[i] == 0,
            decreases 7 - k,
        {
            interrupt_stack_table.push(0);
            k = k + 1;
        }
        TaskStateSegment { interrupt_stack_table }
    }
}

/// A descriptor to be placed in the table: user segments occupy one slot,
/// system segments (the task-segment descriptor) two.
#[derive(Clone, Copy, PartialEq, Eq, Structural, Debug)]
pub enum Descriptor {
    UserSegment(u64),
    SystemSegment(u64, u64),
}

/// The table of segment descriptors the CPU reads: entry 0 is the
/// mandatory null descriptor.
pub struct GlobalDescriptorTable {
    pub table: Vec<u64>,
}

impl GlobalDescriptorTable {
    pub open spec fn wf(self) -> bool {
        1 <= self.table@.len() <= 8 && self.table@[0] == 0
    }

    /// A table holding only the null descriptor.
    pub fn new() -> (g: GlobalDescriptorTable)
        ensures
            g.wf(),
            g.table@ == seq![0u64],
    {
        let mut table: Vec<u64> = Vec::new();
        table.push(0);
        proof {
            assert(table@ =~= seq![0u64]);
        }
        GlobalDescriptorTable { table }
    }

    /// Appends a descriptor, in one or two slots as its kind demands.
    pub fn add_entry(&mut self, d: Descriptor)
        requires
            old(self).wf(),
            old(self).table@.len() + 2 <= 8,
        ensures
            final(self).wf(),
            match d {
                Descriptor::UserSegment(v) => final(self).table@ == old(self).table@.push(v),
                Descriptor::SystemSegment(lo, hi) => final(self).table@ == old(self).table@.push(
                    lo,
                ).push(hi),
            },
    {
        match d {
            Descriptor::UserSegment(v) => {
                self.table.push(v);
            },
            Descriptor::SystemSegment(lo, hi) => {
                self.table.push(lo);
                self.table.push(hi);
            },
        }
    }
}

/// The 64-bit kernel code segment, byte for byte as the CPU requires it.
pub fn kernel_code_segment() -> (d: Descriptor)
    ensures
        d == Descriptor::UserSegment(KERNEL_CODE_DESCRIPTOR),
        desc_present(KERNEL_CODE_DESCRIPTOR),
        desc_executable(KERNEL_CODE_DESCRIPTOR),
        desc_long_mode(KERNEL_CODE_DESCRIPTOR),
{
    proof {
        assert(0x00af_9b00_0000_ffffu64 & 0x0000_8000_0000_0000 == 0x0000_8000_0000_0000
            && 0x00af_9b00_0000_ffffu64 & 0x0000_0800_0000_0000 == 0x0000_0800_0000_0000
            && 0x00af_9b00_0000_ffffu64 & 0x0020_0000_0000_0000
            == 0x0020_0000_0000_0000) by (bit_vector);
    }
    Descriptor::UserSegment(KERNEL_CODE_DESCRIPTOR)
}

/// The task-segment descriptor for a task state structure at `base`:
/// limit and base scattered into the architecture's fields, type nibble 9
/// (available 64-bit task segment), present bit set.
pub fn tss_segment(base: u64) -> (d: Descriptor)
    ensures
        d matches Descriptor::SystemSegment(lo, hi) && lo == spec_tss_descriptor_low(base) && hi
            == spec_tss_descriptor_high(base) && tss_desc_base(lo, hi) == base && tss_desc_limit(
            lo,
        ) == TSS_LIMIT && desc_present(lo) && desc_type_bits(lo) == 9,
{
    let lo: u64 = TSS_LIMIT | ((base & 0xff_ffff) << 16) | (0x89u64 << 40) | (((base >> 24)
        & 0xff) << 56);
    let hi: u64 = base >> 32;
    proof {
        assert({
            let lo2 = 103u64 | ((base & 0xff_ffff) << 16) | (0x89u64 << 40) | (((base >> 24)
                & 0xff) << 56);
            let hi2 = base >> 32;
            ((lo2 >> 16) & 0xff_ffff) | (((lo2 >> 56) & 0xff) << 24) | ((hi2 & 0xffff_ffff) << 32)
                == base && (lo2 & 0xffff) | (((lo2 >> 48) & 0xf) << 16) == 103 && lo2
                & 0x0000_8000_0000_0000 == 0x0000_8000_0000_0000 && (lo2 >> 40) & 0xf == 9
        }) by (bit_vector);
    }
    Descriptor::SystemSegment(lo, hi)
}

/// The built descriptor state: the table the CPU will read and the task
/// state structure the task-segment descriptor points at.
pub struct DescriptorTables {
    pub gdt: GlobalDescriptorTable,
    pub tss: TaskStateSegment,
}

/// Builds the descriptor table and task state structure: slot 0 of the
/// structure holds the top of the double-fault stack region (its base plus
/// its size, since pushes decrement), and the table holds the null entry,
/// the kernel code segment, and the task-segment descriptor for the
/// structure at `tss_base`.  The surrounding program loads the result into
/// the CPU; the build itself cannot fail.
pub fn init(double_fault_stack_start: u64, tss_base: u64) -> (r: DescriptorTables)
    requires
        double_fault_stack_start + STACK_SIZE <= u64::MAX,
    ensures
        r.tss.wf(),
        r.gdt.wf(),
        r.tss.interrupt_stack_table@[DOUBLE_FAULT_IST_IDX as int] == double_fault_stack_start
            + STACK_SIZE,
        r.gdt.table@.len() == 4,
        r.gdt.table@[0] == 0,
        r.gdt.table@[1] == KERNEL_CODE_DESCRIPTOR,
        r.gdt.table@[2] == spec_tss_descriptor_low(tss_base),
        r.gdt.table@[3] == spec_tss_descriptor_high(tss_base),
        tss_desc_base(r.gdt.table@[2], r.gdt.table@[3]) == tss_base,
        tss_desc_limit(r.gdt.table@[2]) == TSS_LIMIT,
        desc_present(r.gdt.table@[2]),
        desc_type_bits(r.gdt.table@[2]) == 9,
        forall|i: int| 1 <= i < 7 ==> r.tss.interrupt_stack_table@[i] == 0,
{
    let mut tss = TaskStateSegment::new();
    let idx = DOUBLE_FAULT_IST_IDX as usize;
    tss.interrupt_stack_table[idx] = double_fault_stack_start + STACK_SIZE;
    let mut gdt = GlobalDescriptorTable::new();
    gdt.add_entry(kernel_code_segment());
    gdt.add_entry(tss_segment(tss_base));
    DescriptorTables { gdt, tss }
}

} // verus!
