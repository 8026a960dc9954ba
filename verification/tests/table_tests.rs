use x86_kernel::gdt;
use x86_kernel::interrupts::{
    self, init_idt, ChainedPics, DeliveryOutcome, GateDescriptor, HandlerDisposition, HandlerId,
    InterruptDescriptorTable, InterruptIndex, InterruptStackFrameView, KeyboardState,
};
use x86_kernel::vga_buffer::{Colour, ColourCode, ScreenWriter};

fn writer() -> ScreenWriter {
    ScreenWriter::new(ColourCode::new(Colour::Yellow, Colour::Black))
}

fn frame() -> InterruptStackFrameView {
    InterruptStackFrameView {
        instruction_pointer: 0xdead_beef,
        code_segment: 0x8,
        cpu_flags: 0x202,
        stack_pointer: 0x7000_0000,
        stack_segment: 0x10,
    }
}

fn row_text(w: &ScreenWriter, row: usize, len: usize) -> String {
    (0..len).map(|c| char::from(w.buffer[row][c].ascii_char)).collect()
}

#[test]
fn test_gdt_init_layout() {
    let tables = gdt::init(0x8000, 0x12345678);
    // Slot 0 of the task state structure holds the *top* of the
    // double-fault stack: base plus size, since stacks grow downward.
    assert_eq!(tables.tss.interrupt_stack_table[0], 0x8000 + 4096);
    for i in 1..7 {
        assert_eq!(tables.tss.interrupt_stack_table[i], 0);
    }
    // Null entry, kernel code segment, then the two-slot task-segment
    // descriptor with base and limit scattered into the mandated fields.
    assert_eq!(tables.gdt.table.len(), 4);
    assert_eq!(tables.gdt.table[0], 0);
    assert_eq!(tables.gdt.table[1], 0x00af_9b00_0000_ffff);
    assert_eq!(tables.gdt.table[2], 0x1200_8934_5678_0067);
    assert_eq!(tables.gdt.table[3], 0);
}

#[test]
fn test_tss_descriptor_high_base() {
    let tables = gdt::init(0x8000, 0xffff_8000_dead_b000);
    let lo = tables.gdt.table[2];
    let hi = tables.gdt.table[3];
    // Reassemble the base from its three fields.
    let base = ((lo >> 16) & 0xff_ffff) | (((lo >> 56) & 0xff) << 24) | ((hi & 0xffff_ffff) << 32);
    assert_eq!(base, 0xffff_8000_dead_b000);
    // Limit 103, type nibble 9, present bit.
    assert_eq!((lo & 0xffff) | (((lo >> 48) & 0xf) << 16), 103);
    assert_eq!((lo >> 40) & 0xf, 9);
    assert_eq!(lo & 0x0000_8000_0000_0000, 0x0000_8000_0000_0000);
}

#[test]
fn test_interrupt_index_vectors() {
    assert_eq!(InterruptIndex::Timer.as_u8(), 32);
    assert_eq!(InterruptIndex::Keyboard.as_u8(), 33);
    assert_eq!(InterruptIndex::Timer.as_usize(), 32);
    assert_eq!(InterruptIndex::Keyboard.as_usize(), 33);
}

#[test]
fn test_init_idt_bindings() {
    let idt = init_idt();
    assert_eq!(
        idt.entries[3],
        Some(GateDescriptor { handler: HandlerId::Breakpoint, stack_index: None })
    );
    assert_eq!(
        idt.entries[8],
        Some(GateDescriptor {
            handler: HandlerId::DoubleFault,
            stack_index: Some(gdt::DOUBLE_FAULT_IST_IDX),
        })
    );
    assert_eq!(
        idt.entries[14],
        Some(GateDescriptor { handler: HandlerId::PageFault, stack_index: None })
    );
    assert_eq!(
        idt.entries[32],
        Some(GateDescriptor { handler: HandlerId::Timer, stack_index: None })
    );
    assert_eq!(
        idt.entries[33],
        Some(GateDescriptor { handler: HandlerId::Keyboard, stack_index: None })
    );
    let bound = idt.entries.iter().filter(|e| e.is_some()).count();
    assert_eq!(bound, 5);
}

#[test]
fn test_timer_acknowledges_1000_ticks() {
    // 1000 consecutive timer interrupts: the controller-acknowledgement
    // count must be exactly 1000.
    let mut pics = ChainedPics::new(32, 40);
    pics.initialize();
    let mut w = writer();
    for _ in 0..1000 {
        interrupts::timer_er_interrupt_handler(&mut pics, &mut w);
    }
    assert_eq!(pics.ack_count, 1000);
}

#[test]
fn test_keyboard_handler_always_acknowledges() {
    let mut pics = ChainedPics::new(32, 40);
    pics.initialize();
    let mut w = writer();
    let mut kb = KeyboardState::new();
    // A mix of complete, incomplete and nonsensical scancodes: every call
    // acknowledges exactly once, whatever the decoder made of the byte.
    let scancodes: [u8; 6] = [0x1e, 0x9e, 0xe0, 0x48, 0x00, 0xff];
    for (i, sc) in scancodes.iter().enumerate() {
        interrupts::keyboard_interrupt_handler(*sc, &mut kb, &mut pics, &mut w);
        assert_eq!(pics.ack_count, (i + 1) as u64);
    }
}

#[test]
fn test_keyboard_decodes_a_key() {
    let mut pics = ChainedPics::new(32, 40);
    pics.initialize();
    let mut w = writer();
    let mut kb = KeyboardState::new();
    // Scancode 0x1e is the press of the A key in scancode set 1: the
    // decoded character must reach the screen.
    interrupts::keyboard_interrupt_handler(0x1e, &mut kb, &mut pics, &mut w);
    // The handler echoed 'a' and a newline, then the decimal scancode
    // ("30") and a newline: two scrolls happened.
    assert_eq!(w.buffer[77][0].ascii_char, b'a');
    assert_eq!(w.buffer[78][0].ascii_char, b'3');
    assert_eq!(w.buffer[78][1].ascii_char, b'0');
    assert_eq!(pics.ack_count, 1);
}

#[test]
fn test_breakpoint_resumes_and_dumps_frame() {
    let mut w = writer();
    let d = interrupts::breakpoint_handler(&frame(), &mut w);
    assert_eq!(d, HandlerDisposition::Resume);
    // Header (27 bytes, wrapped over two rows) plus five register lines:
    // seven rows, ending with a blank bottom row.
    assert_eq!(row_text(&w, 72, 25), "Oops! Exception: breakpoi");
    assert_eq!(row_text(&w, 73, 2), "nt");
    assert_eq!(row_text(&w, 74, 23), "rip: 0x00000000deadbeef");
    assert_eq!(row_text(&w, 75, 22), "cs: 0x0000000000000008");
    assert_eq!(row_text(&w, 76, 25), "flags: 0x0000000000000202");
    assert_eq!(row_text(&w, 77, 23), "rsp: 0x0000000070000000");
    assert_eq!(row_text(&w, 78, 22), "ss: 0x0000000000000010");
    assert_eq!(w.buffer[79][0].ascii_char, b' ');
}

#[test]
fn test_page_fault_halts_and_decodes() {
    let mut w = writer();
    let d = interrupts::page_fault_handler(0xdead_beef, 0b10111, &mut w);
    assert_eq!(d, HandlerDisposition::Halt);
    // The faulting address and the decoded bits were logged: the address
    // line wraps after 25 columns, the cause lines follow.
    assert_eq!(row_text(&w, 71, 21), "EXCEPTION: Page Fault");
    assert_eq!(row_text(&w, 72, 25), "Accessed Address: 0x00000");
    assert_eq!(row_text(&w, 73, 11), "000deadbeef");
    assert_eq!(row_text(&w, 74, 25), "cause: protection violati");
    assert_eq!(row_text(&w, 75, 2), "on");
    assert_eq!(row_text(&w, 76, 13), "access: write");
    assert_eq!(row_text(&w, 77, 10), "mode: user");
    assert_eq!(row_text(&w, 78, 24), "during instruction fetch");
    let bits = interrupts::decode_page_fault_error_code(0b10111);
    assert!(bits.protection_violation);
    assert!(bits.caused_by_write);
    assert!(bits.user_mode);
    assert!(!bits.malformed_table);
    assert!(bits.instruction_fetch);
    let none = interrupts::decode_page_fault_error_code(0);
    assert!(!none.protection_violation);
    assert!(!none.caused_by_write);
    assert!(!none.user_mode);
    assert!(!none.malformed_table);
    assert!(!none.instruction_fetch);
}

#[test]
fn test_stack_overflow_reaches_double_fault_handler() {
    // The scenario behind unbounded recursion: descriptor tables built
    // with the alternate stack bound, vector table installed — the double
    // fault must reach its handler and run it to completion (diagnostic,
    // then halt), not fall into a processor reset.
    let tables = gdt::init(0x8000, 0x5000);
    let idt = init_idt();
    let mut w = writer();
    let outcome =
        interrupts::deliver_stack_overflow_double_fault(&idt, &tables.tss, &frame(), &mut w);
    assert_eq!(
        outcome,
        DeliveryOutcome::HandlerCompleted {
            stack_top: 0x8000 + 4096,
            disposition: HandlerDisposition::Halt,
        }
    );
    // The handler's diagnostic reached the sink: the header and the five
    // register lines of the saved context.
    assert_eq!(row_text(&w, 73, 23), "Exception: Double Fault");
    assert_eq!(row_text(&w, 74, 23), "rip: 0x00000000deadbeef");
    assert_eq!(row_text(&w, 78, 22), "ss: 0x0000000000000010");
}

#[test]
fn test_double_fault_without_gate_is_a_triple_fault() {
    let tables = gdt::init(0x8000, 0x5000);
    let empty_idt = InterruptDescriptorTable::new();
    let mut w = writer();
    let outcome =
        interrupts::deliver_stack_overflow_double_fault(&empty_idt, &tables.tss, &frame(), &mut w);
    assert_eq!(outcome, DeliveryOutcome::TripleFault);
}
