//! The interrupt vector table, the interrupt-controller model, and the
//! fault/IRQ handler policy: breakpoint resumes, page fault and double
//! fault halt, and every IRQ handler acknowledges its controller line
//! before returning — a missed acknowledgement would mask the line
//! forever.  Scancode decoding is done by the `pc_keyboard` crate behind
//! trusted wrappers; everything around it is verified.
use crate::gdt::TaskStateSegment;
use crate::gdt::DOUBLE_FAULT_IST_IDX;
use crate::vga_buffer::spec_write_byte;
use crate::vga_buffer::spec_write_bytes;
use crate::vga_buffer::spec_write_string;
use crate::vga_buffer::ColourCode;
use crate::vga_buffer::ScreenChar;
use crate::vga_buffer::ScreenWriter;
use vstd::prelude::*;
use vstd::string::StringSliceAdditionalSpecFns;

verus! {

/// First vector of the primary interrupt controller.
pub const PIC_1_OFFSET: u8 = 32;

/// First vector of the secondary interrupt controller.
pub const PIC_2_OFFSET: u8 = PIC_1_OFFSET + 8;

/// Vector of the breakpoint exception.
pub const BREAKPOINT_VECTOR: u8 = 3;

/// Vector of the double-fault exception.
pub const DOUBLE_FAULT_VECTOR: u8 = 8;

/// Vector of the page-fault exception.
pub const PAGE_FAULT_VECTOR: u8 = 14;

/// The vector each hardware interrupt line owns.
#[derive(Debug, Clone, Copy, PartialEq, Eq, Structural)]
pub enum InterruptIndex {
    /// Timer interrupt: line 0 of the primary controller.
    Timer,
    /// Keyboard interrupt: line 1 of the primary controller.
    Keyboard,
}

impl InterruptIndex {
    /// The interrupt's vector number.
    pub fn as_u8(self) -> (r: u8)
        ensures
            self is Timer ==> r == PIC_1_OFFSET,
            self is Keyboard ==> r == PIC_1_OFFSET + 1,
    {
        match self {
            InterruptIndex::Timer => PIC_1_OFFSET,
            InterruptIndex::Keyboard => PIC_1_OFFSET + 1,
        }
    }

    /// The vector number as a table index.
    pub fn as_usize(self) -> (r: usize)
        ensures
            self is Timer ==> r == PIC_1_OFFSET,
            self is Keyboard ==> r == PIC_1_OFFSET + 1,
    {
        self.as_u8() as usize
    }
}

/// Which handler policy a gate binds.
#[derive(Debug, Clone, Copy, PartialEq, Eq, Structural)]
pub enum HandlerId {
    Breakpoint,
    DoubleFault,
    PageFault,
    Timer,
    Keyboard,
}

/// One present gate: the handler it names and, optionally, the
/// alternate-stack slot it must run on.
#[derive(Debug, Clone, Copy, PartialEq, Eq, Structural)]
pub struct GateDescriptor {
    pub handler: HandlerId,
    pub stack_index: Option<u16>,
}

/// The 256-entry vector table.  Built completely before it is loaded;
/// loading is a single operation of the surrounding program, so either the
/// whole table is active or interrupts stay disabled.
pub struct InterruptDescriptorTable {
    pub entries: Vec<Option<GateDescriptor>>,
}

impl InterruptDescriptorTable {
    pub open spec fn wf(self) -> bool {
        self.entries@.len() == 256
    }

    /// A table with every vector unused.
    pub fn new() -> (t: InterruptDescriptorTable)
        ensures
            t.wf(),
            forall|v: int| 0 <= v < 256 ==> t.entries@[v] is None,
    {
        let mut entries: Vec<Option<GateDescriptor>> = Vec::new();
        let mut k: usize = 0;
        while k < 256
            invariant
                k <= 256,
                entries@.len() == k,
                forall|v: int| 0 <= v < k ==> entries@[v] is None,
            decreases 256 - k,
        {
            entries.push(None);
            k = k + 1;
        }
        InterruptDescriptorTable { entries }
    }

    /// Binds a handler to a vector, on the normal stack.
    pub fn set_handler(&mut self, vector: u8, handler: HandlerId)
        requires
            old(self).wf(),
        ensures
            final(self).wf(),
            final(self).entries@ == old(self).entries@.update(
                vector as int,
                Some(GateDescriptor { handler, stack_index: None }),
            ),
    {
        self.entries[vector as usize] = Some(GateDescriptor { handler, stack_index: None });
    }

    /// Binds a handler to a vector together with the alternate-stack slot
    /// it must run on.
    pub fn set_handler_with_stack(&mut self, vector: u8, handler: HandlerId, stack_index: u16)
        requires
            old(self).wf(),
            stack_index < 7,
        ensures
            final(self).wf(),
            final(self).entries@ == old(self).entries@.update(
                vector as int,
                Some(GateDescriptor { handler, stack_index: Some(stack_index) }),
            ),
    {
        self.entries[vector as usize] = Some(
            GateDescriptor { handler, stack_index: Some(stack_index) },
        );
    }
}

/// Builds the vector table: breakpoint, page fault, timer and keyboard on
/// the normal stack, and the double fault bound to the reserved
/// alternate-stack slot — it must be, before interrupts are enabled, or a
/// double fault on a corrupted stack is unrecoverable.  Every other vector
/// stays unused.
pub fn init_idt() -> (idt: InterruptDescriptorTable)
    ensures
        idt.wf(),
        idt.entries@[BREAKPOINT_VECTOR as int] == Some(
            GateDescriptor { handler: HandlerId::Breakpoint, stack_index: None },
        ),
        idt.entries@[DOUBLE_FAULT_VECTOR as int] == Some(
            GateDescriptor {
                handler: HandlerId::DoubleFault,
                stack_index: Some(DOUBLE_FAULT_IST_IDX),
            },
        ),
        idt.entries@[PAGE_FAULT_VECTOR as int] == Some(
            GateDescriptor { handler: HandlerId::PageFault, stack_index: None },
        ),
        idt.entries@[PIC_1_OFFSET as int] == Some(
            GateDescriptor { handler: HandlerId::Timer, stack_index: None },
        ),
        idt.entries@[PIC_1_OFFSET as int + 1] == Some(
            GateDescriptor { handler: HandlerId::Keyboard, stack_index: None },
        ),
        forall|v: int|
            0 <= v < 256 && v != BREAKPOINT_VECTOR as int && v != DOUBLE_FAULT_VECTOR as int && v
                != PAGE_FAULT_VECTOR as int && v != PIC_1_OFFSET as int && v != PIC_1_OFFSET as int
                + 1 ==> idt.entries@[v] is None,
{
    let mut idt = InterruptDescriptorTable::new();
    idt.set_handler(BREAKPOINT_VECTOR, HandlerId::Breakpoint);
    idt.set_handler_with_stack(DOUBLE_FAULT_VECTOR, HandlerId::DoubleFault, DOUBLE_FAULT_IST_IDX);
    idt.set_handler(PAGE_FAULT_VECTOR, HandlerId::PageFault);
    idt.set_handler(InterruptIndex::Timer.as_u8(), HandlerId::Timer);
    idt.set_handler(InterruptIndex::Keyboard.as_u8(), HandlerId::Keyboard);
    idt
}

/// Model of the chained interrupt controllers: the two vector offsets they
/// were programmed with, and the record of end-of-interrupt
/// acknowledgements.  The surrounding program performs the port writes;
/// the model pins down that every handler acknowledges exactly once.
pub struct ChainedPics {
    pub primary_offset: u8,
    pub secondary_offset: u8,
    pub initialized: bool,
    pub ack_count: u64,
    pub acknowledged: Ghost<Seq<u8>>,
}

impl ChainedPics {
    /// Whether a vector belongs to one of the two controllers.
    pub open spec fn handles_interrupt(self, vector: u8) -> bool {
        (self.primary_offset <= vector < self.primary_offset + 8) || (self.secondary_offset
            <= vector < self.secondary_offset + 8)
    }

    /// A controller pair remapped to the given vector offsets, with no
    /// acknowledgement made yet and initialization still owed.
    pub fn new(primary_offset: u8, secondary_offset: u8) -> (p: ChainedPics)
        ensures
            p.primary_offset == primary_offset,
            p.secondary_offset == secondary_offset,
            !p.initialized,
            p.ack_count == 0,
            p.acknowledged@ == Seq::<u8>::empty(),
    {
        ChainedPics {
            primary_offset,
            secondary_offset,
            initialized: false,
            ack_count: 0,
            acknowledged: Ghost(Seq::empty()),
        }
    }

    /// One-time controller setup, done after the vector table is loaded
    /// and before interrupts are enabled.
    pub fn initialize(&mut self)
        ensures
            final(self).initialized,
            final(self).primary_offset == old(self).primary_offset,
            final(self).secondary_offset == old(self).secondary_offset,
            final(self).ack_count == old(self).ack_count,
            final(self).acknowledged@ == old(self).acknowledged@,
    {
        self.initialized = true;
    }

    /// Acknowledges the end of the interrupt on `vector`: exactly one
    /// acknowledgement is recorded.
    pub fn notify_end_of_interrupt(&mut self, vector: u8)
        requires
            old(self).ack_count < u64::MAX,
        ensures
            final(self).ack_count == old(self).ack_count + 1,
            final(self).acknowledged@ == old(self).acknowledged@.push(vector),
            final(self).primary_offset == old(self).primary_offset,
            final(self).secondary_offset == old(self).secondary_offset,
            final(self).initialized == old(self).initialized,
    {
        proof {
            self.acknowledged@ = self.acknowledged@.push(vector);
        }
        self.ack_count = self.ack_count + 1;
    }
}

/// What a handler does with the interrupted execution: a recoverable fault
/// resumes it, a fatal one halts.
#[derive(Debug, Clone, Copy, PartialEq, Eq, Structural)]
pub enum HandlerDisposition {
    Resume,
    Halt,
}

/// The saved context a fault pushes, taken as plain values: instruction
/// pointer, code segment, flags, stack pointer, stack segment.
#[derive(Debug, Clone, Copy, PartialEq, Eq, Structural)]
pub struct InterruptStackFrameView {
    pub instruction_pointer: u64,
    pub code_segment: u64,
    pub cpu_flags: u64,
    pub stack_pointer: u64,
    pub stack_segment: u64,
}

/// The sixteen hex digit glyphs.
pub open spec fn hex_digit_byte(n: u64) -> u8 {
    if n < 10 {
        (0x30 + n) as u8
    } else {
        (0x57 + n) as u8
    }
}

/// A 64-bit value as sixteen hex digit bytes, most significant first.
pub open spec fn hex_bytes(value: u64) -> Seq<u8> {
    Seq::new(16, |i: int| hex_digit_byte((value >> ((60 - 4 * i) as u64)) & 0xf))
}

fn hex_digit(n: u64) -> (d: u8)
    requires
        n < 16,
    ensures
        d == hex_digit_byte(n),
{
    if n < 10 {
        0x30 + (n as u8)
    } else {
        0x57 + (n as u8)
    }
}

/// Writes a 64-bit value as sixteen hex digits, most significant first.
fn write_hex_u64(writer: &mut ScreenWriter, value: u64)
    requires
        old(writer).wf(),
    ensures
        final(writer).wf(),
        final(writer).colour_code == old(writer).colour_code,
        (final(writer).screen(), final(writer).column_position as int) == spec_write_bytes(
            old(writer).screen(),
            old(writer).column_position as int,
            old(writer).colour_code,
            hex_bytes(value),
        ),
{
    let mut i: usize = 0;
    while i < 16
        invariant
            writer.wf(),
            i <= 16,
            writer.colour_code == old(writer).colour_code,
            (writer.screen(), writer.column_position as int) == spec_write_bytes(
                old(writer).screen(),
                old(writer).column_position as int,
                old(writer).colour_code,
                hex_bytes(value).take(i as int),
            ),
        decreases 16 - i,
    {
        let shift: u64 = (60 - 4 * i) as u64;
        let nibble = (value >> shift) & 0xf;
        proof {
            assert((value >> shift) & 0xf < 16) by (bit_vector);
            assert(hex_bytes(value).take(i + 1).drop_last() =~= hex_bytes(value).take(i as int));
            assert(hex_bytes(value).take(i + 1).last() == hex_digit_byte(nibble));
        }
        let d = hex_digit(nibble);
        writer.write_byte(d);
        i = i + 1;
    }
    proof {
        assert(hex_bytes(value).take(16) =~= hex_bytes(value));
    }
}

/// One labelled hex line of a register dump: the label, sixteen hex
/// digits, a newline.
pub open spec fn spec_write_reg_line(
    s: (Seq<Seq<ScreenChar>>, int),
    cc: ColourCode,
    label: Seq<u8>,
    value: u64,
) -> (Seq<Seq<ScreenChar>>, int) {
    let l = spec_write_string(s.0, s.1, cc, label);
    let h = spec_write_bytes(l.0, l.1, cc, hex_bytes(value));
    spec_write_byte(h.0, h.1, cc, 0x0a)
}

fn write_reg_line(writer: &mut ScreenWriter, label: &str, value: u64)
    requires
        old(writer).wf(),
    ensures
        final(writer).wf(),
        final(writer).colour_code == old(writer).colour_code,
        (final(writer).screen(), final(writer).column_position as int) == spec_write_reg_line(
            (old(writer).screen(), old(writer).column_position as int),
            old(writer).colour_code,
            label.spec_bytes(),
            value,
        ),
{
    writer.write_string(label);
    write_hex_u64(writer, value);
    writer.write_byte(0x0a);
}

/// The saved context dumped register by register.
pub open spec fn spec_write_stack_frame(
    s: Seq<Seq<ScreenChar>>,
    col: int,
    cc: ColourCode,
    frame: InterruptStackFrameView,
) -> (Seq<Seq<ScreenChar>>, int) {
    let a = spec_write_reg_line((s, col), cc, ("rip: 0x").spec_bytes(), frame.instruction_pointer);
    let b = spec_write_reg_line(a, cc, ("cs: 0x").spec_bytes(), frame.code_segment);
    let c = spec_write_reg_line(b, cc, ("flags: 0x").spec_bytes(), frame.cpu_flags);
    let d = spec_write_reg_line(c, cc, ("rsp: 0x").spec_bytes(), frame.stack_pointer);
    spec_write_reg_line(d, cc, ("ss: 0x").spec_bytes(), frame.stack_segment)
}

fn write_stack_frame(writer: &mut ScreenWriter, frame: &InterruptStackFrameView)
    requires
        old(writer).wf(),
    ensures
        final(writer).wf(),
        final(writer).colour_code == old(writer).colour_code,
        (final(writer).screen(), final(writer).column_position as int) == spec_write_stack_frame(
            old(writer).screen(),
            old(writer).column_position as int,
            old(writer).colour_code,
            *frame,
        ),
{
    write_reg_line(writer, "rip: 0x", frame.instruction_pointer);
    write_reg_line(writer, "cs: 0x", frame.code_segment);
    write_reg_line(writer, "flags: 0x", frame.cpu_flags);
    write_reg_line(writer, "rsp: 0x", frame.stack_pointer);
    write_reg_line(writer, "ss: 0x", frame.stack_segment);
}

/// What the breakpoint handler leaves on the screen: its header and the
/// saved context.
pub open spec fn spec_breakpoint_diagnostic(
    s: Seq<Seq<ScreenChar>>,
    col: int,
    cc: ColourCode,
    frame: InterruptStackFrameView,
) -> (Seq<Seq<ScreenChar>>, int) {
    let h = spec_write_string(s, col, cc, ("Oops! Exception: breakpoint\n").spec_bytes());
    spec_write_stack_frame(h.0, h.1, cc, frame)
}

/// Breakpoint exceptions are inherently resumable: the handler dumps the
/// saved context and execution continues at the next instruction.
pub fn breakpoint_handler(frame: &InterruptStackFrameView, writer: &mut ScreenWriter) -> (d:
    HandlerDisposition)
    requires
        old(writer).wf(),
    ensures
        final(writer).wf(),
        d is Resume,
        final(writer).colour_code == old(writer).colour_code,
        (final(writer).screen(), final(writer).column_position as int)
            == spec_breakpoint_diagnostic(
            old(writer).screen(),
            old(writer).column_position as int,
            old(writer).colour_code,
            *frame,
        ),
{
    writer.write_string("Oops! Exception: breakpoint\n");
    write_stack_frame(writer, frame);
    HandlerDisposition::Resume
}

/// What the double-fault handler leaves on the screen: its header and the
/// saved context.
pub open spec fn spec_double_fault_diagnostic(
    s: Seq<Seq<ScreenChar>>,
    col: int,
    cc: ColourCode,
    frame: InterruptStackFrameView,
) -> (Seq<Seq<ScreenChar>>, int) {
    let h = spec_write_string(s, col, cc, ("Exception: Double Fault\n").spec_bytes());
    spec_write_stack_frame(h.0, h.1, cc, frame)
}

/// A double fault means the primary fault handler itself failed: the
/// handler dumps the saved context on its guaranteed-valid alternate stack
/// and halts, never resumes.
pub fn double_fault_handler(frame: &InterruptStackFrameView, writer: &mut ScreenWriter) -> (d:
    HandlerDisposition)
    requires
        old(writer).wf(),
    ensures
        final(writer).wf(),
        d is Halt,
        final(writer).colour_code == old(writer).colour_code,
        (final(writer).screen(), final(writer).column_position as int)
            == spec_double_fault_diagnostic(
            old(writer).screen(),
            old(writer).column_position as int,
            old(writer).colour_code,
            *frame,
        ),
{
    writer.write_string("Exception: Double Fault\n");
    write_stack_frame(writer, frame);
    HandlerDisposition::Halt
}

/// The error-code bitfield a page fault pushes, decoded field by field.
#[derive(Debug, Clone, Copy, PartialEq, Eq, Structural)]
pub struct PageFaultErrorCode {
    pub protection_violation: bool,
    pub caused_by_write: bool,
    pub user_mode: bool,
    pub malformed_table: bool,
    pub instruction_fetch: bool,
}

/// Decodes the architecture's page-fault error bits: protection violation
/// (else not-present), write (else read), user mode (else supervisor),
/// reserved bits set in a table entry, and instruction fetch.
pub fn decode_page_fault_error_code(e: u64) -> (r: PageFaultErrorCode)
    ensures
        r.protection_violation == (e & 1 == 1),
        r.caused_by_write == (e & 2 == 2),
        r.user_mode == (e & 4 == 4),
        r.malformed_table == (e & 8 == 8),
        r.instruction_fetch == (e & 16 == 16),
{
    PageFaultErrorCode {
        protection_violation: e & 1 == 1,
        caused_by_write: e & 2 == 2,
        user_mode: e & 4 == 4,
        malformed_table: e & 8 == 8,
        instruction_fetch: e & 16 == 16,
    }
}

/// What the page-fault handler leaves on the screen: its header, the
/// faulting address in hex, and one line for each decoded cause.
pub open spec fn spec_page_fault_diagnostic(
    s: Seq<Seq<ScreenChar>>,
    col: int,
    cc: ColourCode,
    accessed_address: u64,
    error_code: u64,
) -> (Seq<Seq<ScreenChar>>, int) {
    let h = spec_write_string(s, col, cc, ("EXCEPTION: Page Fault\n").spec_bytes());
    let a = spec_write_reg_line(h, cc, ("Accessed Address: 0x").spec_bytes(), accessed_address);
    let c1 = if error_code & 1 == 1 {
        spec_write_string(a.0, a.1, cc, ("cause: protection violation\n").spec_bytes())
    } else {
        spec_write_string(a.0, a.1, cc, ("cause: page not present\n").spec_bytes())
    };
    let c2 = if error_code & 2 == 2 {
        spec_write_string(c1.0, c1.1, cc, ("access: write\n").spec_bytes())
    } else {
        spec_write_string(c1.0, c1.1, cc, ("access: read\n").spec_bytes())
    };
    let c3 = if error_code & 4 == 4 {
        spec_write_string(c2.0, c2.1, cc, ("mode: user\n").spec_bytes())
    } else {
        spec_write_string(c2.0, c2.1, cc, ("mode: supervisor\n").spec_bytes())
    };
    let c4 = if error_code & 8 == 8 {
        spec_write_string(c3.0, c3.1, cc, ("reserved bits set in table entry\n").spec_bytes())
    } else {
        c3
    };
    if error_code & 16 == 16 {
        spec_write_string(c4.0, c4.1, cc, ("during instruction fetch\n").spec_bytes())
    } else {
        c4
    }
}

/// Page faults are diagnostic-fatal in this core: the faulting address and
/// the decoded error bits are logged, then the system halts — there is no
/// demand paging to recover with.
pub fn page_fault_handler(accessed_address: u64, error_code: u64, writer: &mut ScreenWriter) -> (d:
    HandlerDisposition)
    requires
        old(writer).wf(),
    ensures
        final(writer).wf(),
        d is Halt,
        final(writer).colour_code == old(writer).colour_code,
        (final(writer).screen(), final(writer).column_position as int)
            == spec_page_fault_diagnostic(
            old(writer).screen(),
            old(writer).column_position as int,
            old(writer).colour_code,
            accessed_address,
            error_code,
        ),
{
    let bits = decode_page_fault_error_code(error_code);
    writer.write_string("EXCEPTION: Page Fault\n");
    write_reg_line(writer, "Accessed Address: 0x", accessed_address);
    if bits.protection_violation {
        writer.write_string("cause: protection violation\n");
    } else {
        writer.write_string("cause: page not present\n");
    }
    if bits.caused_by_write {
        writer.write_string("access: write\n");
    } else {
        writer.write_string("access: read\n");
    }
    if bits.user_mode {
        writer.write_string("mode: user\n");
    } else {
        writer.write_string("mode: supervisor\n");
    }
    if bits.malformed_table {
        writer.write_string("reserved bits set in table entry\n");
    }
    if bits.instruction_fetch {
        writer.write_string("during instruction fetch\n");
    }
    HandlerDisposition::Halt
}

/// Timer tick: the handler emits its diagnostic and always acknowledges
/// the controller line — exactly one acknowledgement per tick, or the
/// line would stay masked forever.
pub fn timer_er_interrupt_handler(pics: &mut ChainedPics, writer: &mut ScreenWriter)
    requires
        old(pics).ack_count < u64::MAX,
        old(writer).wf(),
    ensures
        final(pics).ack_count == old(pics).ack_count + 1,
        final(pics).acknowledged@ == old(pics).acknowledged@.push(PIC_1_OFFSET),
        final(pics).primary_offset == old(pics).primary_offset,
        final(pics).secondary_offset == old(pics).secondary_offset,
        final(pics).initialized == old(pics).initialized,
        final(writer).wf(),
        final(writer).colour_code == old(writer).colour_code,
        (final(writer).screen(), final(writer).column_position as int) == spec_write_string(
            old(writer).screen(),
            old(writer).column_position as int,
            old(writer).colour_code,
            ("Timer interrupt\n").spec_bytes(),
        ),
{
    writer.write_string("Timer interrupt\n");
    pics.notify_end_of_interrupt(InterruptIndex::Timer.as_u8());
}

#[verifier::external_type_specification]
#[verifier::external_body]
pub struct ExKeyEvent(pc_keyboard::KeyEvent);

/// The stateful scancode decoder: a scancode-set-1, US-layout keyboard
/// state machine from the `pc_keyboard` crate.  Its type takes the
/// crate's own traits as bounds, which the verifier refuses to declare,
/// so the whole struct is opaque and is touched only through the trusted
/// wrappers below.
#[verifier::external_body]
pub struct KeyboardState {
    inner: pc_keyboard::PS2Keyboard<pc_keyboard::layouts::Us104Key, pc_keyboard::ScancodeSet1>,
}

/// What decoding a key event produced: a printable character, or the name
/// of a key with no character.
pub enum DecodedKeyOutput {
    Unicode(char),
    RawKey(String),
}

/// Relies on pc_keyboard::PS2Keyboard::new: builds the decoder over
/// scancode set 1 and the US 104-key layout, control characters ignored.
#[verifier::external_body]
fn new_keyboard_state() -> KeyboardState {
    KeyboardState {
        inner: pc_keyboard::PS2Keyboard::new(
            pc_keyboard::ScancodeSet1::new(),
            pc_keyboard::layouts::Us104Key,
            pc_keyboard::HandleControl::Ignore,
        ),
    }
}

/// Relies on pc_keyboard::PS2Keyboard::add_byte: advances the scancode
/// state machine by one byte; a completed key event comes back, an
/// incomplete sequence or a protocol error yields nothing.  The decoder's
/// inner state is opaque, so nothing is promised of the result.
#[verifier::external_body]
fn keyboard_add_byte(keyboard: &mut KeyboardState, scancode: u8) -> Option<pc_keyboard::KeyEvent> {
    match keyboard.inner.add_byte(scancode) {
        Ok(Some(event)) => Some(event),
        Ok(None) => None,
        Err(_) => None,
    }
}

/// Relies on pc_keyboard::PS2Keyboard::process_keyevent: turns a key event
/// into a decoded key under the current modifier state; its enum variants
/// are mapped one to one, the raw key through its debug name.
#[verifier::external_body]
fn keyboard_process_event(keyboard: &mut KeyboardState, event: pc_keyboard::KeyEvent) -> Option<
    DecodedKeyOutput,
> {
    match keyboard.inner.process_keyevent(event) {
        Some(pc_keyboard::DecodedKey::Unicode(character)) => Some(
            DecodedKeyOutput::Unicode(character),
        ),
        Some(pc_keyboard::DecodedKey::RawKey(key)) => Some(
            DecodedKeyOutput::RawKey(format!("{:?}", key)),
        ),
        None => None,
    }
}

impl KeyboardState {
    /// A fresh decoder in its start state.
    pub fn new() -> (k: KeyboardState) {
        new_keyboard_state()
    }
}

/// Keyboard interrupt: one byte read from the keyboard data port is fed to
/// the decoder, whatever it decodes to is echoed, and the controller line
/// is always acknowledged afterwards — whatever the decoder returned.
pub fn keyboard_interrupt_handler(
    scancode: u8,
    keyboard: &mut KeyboardState,
    pics: &mut ChainedPics,
    writer: &mut ScreenWriter,
)
    requires
        old(pics).ack_count < u64::MAX,
        old(writer).wf(),
    ensures
        final(pics).ack_count == old(pics).ack_count + 1,
        final(pics).acknowledged@ == old(pics).acknowledged@.push((PIC_1_OFFSET + 1) as u8),
        final(pics).primary_offset == old(pics).primary_offset,
        final(pics).secondary_offset == old(pics).secondary_offset,
        final(pics).initialized == old(pics).initialized,
        final(writer).wf(),
        final(writer).colour_code == old(writer).colour_code,
        exists|mid_screen: Seq<Seq<ScreenChar>>, mid_col: int|
            (final(writer).screen(), final(writer).column_position as int) == spec_decimal_echo(
                mid_screen,
                mid_col,
                old(writer).colour_code,
                scancode,
            ),
{
    match keyboard_add_byte(keyboard, scancode) {
        Some(event) => {
            match keyboard_process_event(keyboard, event) {
                Some(DecodedKeyOutput::Unicode(character)) => {
                    let code = character as u32;
                    if code == 10 || (32 <= code && code <= 126) {
                        writer.write_byte(character as u8);
                    } else {
                        writer.write_byte(0xfe);
                    }
                    writer.write_byte(0x0a);
                },
                Some(DecodedKeyOutput::RawKey(name)) => {
                    writer.write_string(name.as_str());
                    writer.write_byte(0x0a);
                },
                None => {},
            }
        },
        None => {},
    }
    let ghost mid_screen = writer.screen();
    let ghost mid_col = writer.column_position as int;
    write_u8_decimal(writer, scancode);
    writer.write_byte(0x0a);
    proof {
        assert((writer.screen(), writer.column_position as int) == spec_decimal_echo(
            mid_screen,
            mid_col,
            old(writer).colour_code,
            scancode,
        ));
    }
    pics.notify_end_of_interrupt(InterruptIndex::Keyboard.as_u8());
}

/// The decimal digits of a byte, without leading zeroes.
pub open spec fn decimal_bytes(v: u8) -> Seq<u8> {
    if v >= 100 {
        seq![(0x30 + v / 100) as u8, (0x30 + (v / 10) % 10) as u8, (0x30 + v % 10) as u8]
    } else if v >= 10 {
        seq![(0x30 + v / 10) as u8, (0x30 + v % 10) as u8]
    } else {
        seq![(0x30 + v) as u8]
    }
}

/// A byte's decimal digits followed by a newline, as the keyboard handler
/// echoes every scancode.
pub open spec fn spec_decimal_echo(s: Seq<Seq<ScreenChar>>, col: int, cc: ColourCode, v: u8) -> (
    Seq<Seq<ScreenChar>>,
    int,
) {
    let d = spec_write_bytes(s, col, cc, decimal_bytes(v));
    spec_write_byte(d.0, d.1, cc, 0x0a)
}

/// Writes a byte's decimal digits, without leading zeroes.
fn write_u8_decimal(writer: &mut ScreenWriter, value: u8)
    requires
        old(writer).wf(),
    ensures
        final(writer).wf(),
        final(writer).colour_code == old(writer).colour_code,
        (final(writer).screen(), final(writer).column_position as int) == spec_write_bytes(
            old(writer).screen(),
            old(writer).column_position as int,
            old(writer).colour_code,
            decimal_bytes(value),
        ),
{
    proof {
        reveal_with_fuel(crate::vga_buffer::spec_write_bytes, 4);
        let ds = decimal_bytes(value);
        if value >= 100 {
            assert(ds.drop_last() =~= seq![
                (0x30 + value / 100) as u8,
                (0x30 + (value / 10) % 10) as u8,
            ]);
            assert(ds.drop_last().drop_last() =~= seq![(0x30 + value / 100) as u8]);
            assert(ds.drop_last().drop_last().drop_last() =~= Seq::<u8>::empty());
        } else if value >= 10 {
            assert(ds.drop_last() =~= seq![(0x30 + value / 10) as u8]);
            assert(ds.drop_last().drop_last() =~= Seq::<u8>::empty());
        } else {
            assert(ds.drop_last() =~= Seq::<u8>::empty());
        }
    }
    if value >= 100 {
        writer.write_byte(0x30 + value / 100);
    }
    if value >= 10 {
        writer.write_byte(0x30 + (value / 10) % 10);
    }
    writer.write_byte(0x30 + value % 10);
}

/// How an attempted exception delivery ends.
#[derive(Debug, Clone, Copy, PartialEq, Eq, Structural)]
pub enum DeliveryOutcome {
    /// The handler ran to completion on the given stack and chose a
    /// disposition.
    HandlerCompleted { stack_top: u64, disposition: HandlerDisposition },
    /// Delivery itself failed: the processor resets.
    TripleFault,
}

/// Models delivery of the double fault that a stack overflow raises.  The
/// overflowed stack cannot take the exception frame, so the handler runs
/// only if its gate names an alternate-stack slot and the task state
/// structure holds a stack there; then it runs to completion — diagnostic,
/// then halt — instead of the processor silently resetting.
pub fn deliver_stack_overflow_double_fault(
    idt: &InterruptDescriptorTable,
    tss: &TaskStateSegment,
    frame: &InterruptStackFrameView,
    writer: &mut ScreenWriter,
) -> (o: DeliveryOutcome)
    requires
        idt.wf(),
        tss.wf(),
        old(writer).wf(),
        match idt.entries@[DOUBLE_FAULT_VECTOR as int] {
            Some(gate) => gate.handler is DoubleFault,
            None => true,
        },
    ensures
        final(writer).wf(),
        match idt.entries@[DOUBLE_FAULT_VECTOR as int] {
            None => o is TripleFault,
            Some(gate) => match gate.stack_index {
                None => o is TripleFault,
                Some(slot) => if slot < 7 && tss.interrupt_stack_table@[slot as int] != 0 {
                    o == (DeliveryOutcome::HandlerCompleted {
                        stack_top: tss.interrupt_stack_table@[slot as int],
                        disposition: HandlerDisposition::Halt,
                    })
                } else {
                    o is TripleFault
                },
            },
        },
{
    let gate = match self_gate(idt) {
        Some(g) => g,
        None => {
            return DeliveryOutcome::TripleFault;
        },
    };
    let slot = match gate.stack_index {
        Some(s) => s,
        None => {
            return DeliveryOutcome::TripleFault;
        },
    };
    if slot >= 7 {
        return DeliveryOutcome::TripleFault;
    }
    let stack_top = tss.interrupt_stack_table[slot as usize];
    if stack_top == 0 {
        return DeliveryOutcome::TripleFault;
    }
    let disposition = double_fault_handler(frame, writer);
    DeliveryOutcome::HandlerCompleted { stack_top, disposition }
}

/// The double-fault gate, if one is installed.
fn self_gate(idt: &InterruptDescriptorTable) -> (g: Option<GateDescriptor>)
    requires
        idt.wf(),
    ensures
        g == idt.entries@[DOUBLE_FAULT_VECTOR as int],
{
    idt.entries[DOUBLE_FAULT_VECTOR as usize]
}

} // verus!
