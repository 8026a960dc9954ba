//! Core of a minimal 64-bit kernel: descriptor and interrupt tables, fault
//! and IRQ handler policy, the 4-level page-table walker and mapper, a
//! monotonic frame allocator, and the bump allocator that backs a fixed heap
//! window.  Hardware state (page tables, descriptor tables, the interrupt
//! controller) is modelled as plain values: physical memory is an arena of
//! tables addressed by frame address, and the per-level page-table indices
//! are derived from the virtual address, as the CPU derives them.
use vstd::prelude::*;

pub mod allocator;
pub mod gdt;
pub mod interrupts;
pub mod memory;
pub mod vga_buffer;

verus! {

/// Status code written to the emulator's exit port by the surrounding
/// program: reported on the fatal paths of the core.
#[derive(Clone, Copy, PartialEq, Eq, Structural, Debug)]
pub enum QemuExitCode {
    Success,
    Failure,
}

impl QemuExitCode {
    /// The code as it is written to the exit port.
    pub fn as_u32(self) -> (r: u32)
        ensures
            self is Success ==> r == 0x10,
            self is Failure ==> r == 0x11,
    {
        match self {
            QemuExitCode::Success => 0x10,
            QemuExitCode::Failure => 0x11,
        }
    }
}

} // verus!
