//! The interrupt vector table and the decisions of the interrupt handlers.
use vstd::prelude::*;
use crate::keyboard::{decoded_after, DecodedOutput, KeyboardDecoder};

verus! {

/// First vector of the master interrupt controller.
pub const PIC_1_OFFSET: u8 = 32;

/// First vector of the slave interrupt controller.
pub const PIC_2_OFFSET: u8 = PIC_1_OFFSET + 8;

/// Number of vectors in the table.
pub const VECTOR_COUNT: usize = 256;

/// Vector of the breakpoint exception.
pub const BREAKPOINT_VECTOR: usize = 3;

/// Vector of the double-fault exception.
pub const DOUBLE_FAULT_VECTOR: usize = 8;

/// Number of interrupt stacks in the task-state segment.
pub const STACK_SLOTS: u16 = 7;

/// I/O port from which the keyboard's scancode is read.
pub const KEYBOARD_DATA_PORT: u16 = 0x60;

/// The device interrupts, on the first lines of the master controller.
#[derive(Clone, Copy, Debug, PartialEq, Eq, Structural)]
pub enum InterruptIndex {
    Timer,
    Keyboard,
}

impl InterruptIndex {
    pub open spec fn vector(self) -> u8 {
        match self {
            InterruptIndex::Timer => PIC_1_OFFSET,
            InterruptIndex::Keyboard => (PIC_1_OFFSET + 1) as u8,
        }
    }

    pub fn as_u8(self) -> (r: u8)
        ensures
            r == self.vector(),
    {
        match self {
            InterruptIndex::Timer => PIC_1_OFFSET,
            InterruptIndex::Keyboard => PIC_1_OFFSET + 1,
        }
    }

    pub fn as_usize(self) -> (r: usize)
        ensures
            r == self.vector() as usize,
    {
        self.as_u8() as usize
    }
}

/// The handlers that a vector can be bound to.
#[derive(Clone, Copy, Debug, PartialEq, Eq, Structural)]
pub enum HandlerKind {
    Breakpoint,
    DoubleFault,
    Timer,
    Keyboard,
}

/// One slot of the vector table: unused (the CPU faults when it is raised),
/// or bound to a handler, with the interrupt stack it runs on, if any.
#[derive(Clone, Copy, Debug, PartialEq, Eq, Structural)]
pub struct VectorEntry {
    pub handler: Option<HandlerKind>,
    pub stack_index: Option<u16>,
}

pub open spec fn unused_entry() -> VectorEntry {
    VectorEntry { handler: None, stack_index: None }
}

/// The table of 256 vectors.
pub struct VectorTable {
    entries: Vec<VectorEntry>,
}

impl VectorTable {
    pub closed spec fn view(&self) -> Seq<VectorEntry> {
        self.entries@
    }

    pub open spec fn wf(&self) -> bool {
        self@.len() == VECTOR_COUNT
    }

    /// A table with every vector unused.
    pub fn new() -> (r: VectorTable)
        ensures
            r.wf(),
            forall|v: int| 0 <= v < VECTOR_COUNT ==> #[trigger] r@[v] == unused_entry(),
    {
        let mut entries: Vec<VectorEntry> = Vec::new();
        let mut i: usize = 0;
        while i < VECTOR_COUNT
            invariant
                i <= VECTOR_COUNT,
                entries@.len() == i,
                forall|v: int| 0 <= v < i ==> #[trigger] entries@[v] == unused_entry(),
            decreases VECTOR_COUNT - i,
        {
            entries.push(VectorEntry { handler: None, stack_index: None });
            i = i + 1;
        }
        VectorTable { entries }
    }

    pub fn entry(&self, vector: usize) -> (r: VectorEntry)
        requires
            self.wf(),
            vector < VECTOR_COUNT,
        ensures
            r == self@[vector as int],
    {
        self.entries[vector]
    }

    /// Binds `vector` to `handler`, on the stack of the interrupted code.
    pub fn set_handler(&mut self, vector: usize, handler: HandlerKind)
        requires
            old(self).wf(),
            vector < VECTOR_COUNT,
        ensures
            final(self).wf(),
            final(self)@ == old(self)@.update(
                vector as int,
                VectorEntry { handler: Some(handler), stack_index: None },
            ),
    {
        self.entries.set(vector, VectorEntry { handler: Some(handler), stack_index: None });
    }

    /// Makes the handler of `vector` run on interrupt stack `index`.
    pub fn set_stack_index(&mut self, vector: usize, index: u16)
        requires
            old(self).wf(),
            vector < VECTOR_COUNT,
            index < STACK_SLOTS,
        ensures
            final(self).wf(),
            final(self)@ == old(self)@.update(
                vector as int,
                VectorEntry { stack_index: Some(index), ..old(self)@[vector as int] },
            ),
    {
        let e = self.entries[vector];
        self.entries.set(vector, VectorEntry { stack_index: Some(index), ..e });
    }
}

/// The entry that the kernel's table holds at `vector`.
pub open spec fn kernel_entry(vector: int, double_fault_stack_index: u16) -> VectorEntry {
    if vector == BREAKPOINT_VECTOR {
        VectorEntry { handler: Some(HandlerKind::Breakpoint), stack_index: None }
    } else if vector == DOUBLE_FAULT_VECTOR {
        VectorEntry { handler: Some(HandlerKind::DoubleFault), stack_index: Some(double_fault_stack_index) }
    } else if vector == PIC_1_OFFSET {
        VectorEntry { handler: Some(HandlerKind::Timer), stack_index: None }
    } else if vector == PIC_1_OFFSET + 1 {
        VectorEntry { handler: Some(HandlerKind::Keyboard), stack_index: None }
    } else {
        unused_entry()
    }
}

/// Builds the kernel's vector table: breakpoint and double fault bound to
/// their handlers, the double fault on its own interrupt stack
/// `double_fault_stack_index`, and the timer and keyboard lines of the master
/// controller bound to the device handlers. Every other vector is unused.
/// This is the table that the CPU is to load.
pub fn init_idt(double_fault_stack_index: u16) -> (r: VectorTable)
    requires
        double_fault_stack_index < STACK_SLOTS,
    ensures
        r.wf(),
        forall|v: int| 0 <= v < VECTOR_COUNT ==> #[trigger] r@[v] == kernel_entry(v, double_fault_stack_index),
{
    let mut idt = VectorTable::new();
    idt.set_handler(BREAKPOINT_VECTOR, HandlerKind::Breakpoint);
    idt.set_handler(DOUBLE_FAULT_VECTOR, HandlerKind::DoubleFault);
    idt.set_stack_index(DOUBLE_FAULT_VECTOR, double_fault_stack_index);
    idt.set_handler(InterruptIndex::Timer.as_usize(), HandlerKind::Timer);
    idt.set_handler(InterruptIndex::Keyboard.as_usize(), HandlerKind::Keyboard);
    idt
}

/// What a handler has printed.
#[derive(Clone, Copy, Debug, PartialEq, Eq)]
pub enum HandlerOutput {
    /// The breakpoint report, with the interrupted context.
    BreakpointReport,
    /// The double-fault report, with the interrupted context.
    DoubleFaultReport,
    /// One progress marker for a timer tick.
    TimerTick,
    /// A key press decoded by the keyboard handler.
    Key(DecodedOutput),
    /// Nothing.
    Nothing,
}

/// What a handler does once it has run: what it prints, the vector it
/// acknowledges to the controller chain, and whether it halts the machine
/// instead of returning to the interrupted code.
#[derive(Clone, Copy, Debug, PartialEq, Eq)]
pub struct HandlerOutcome {
    pub output: HandlerOutput,
    pub end_of_interrupt: Option<u8>,
    pub halts: bool,
}

/// A breakpoint is reported, and execution resumes after the trap.
pub fn breakpoint_handler() -> (r: HandlerOutcome)
    ensures
        r == (HandlerOutcome { output: HandlerOutput::BreakpointReport, end_of_interrupt: None, halts: false }),
{
    HandlerOutcome { output: HandlerOutput::BreakpointReport, end_of_interrupt: None, halts: false }
}

/// A double fault is reported, and the machine halts.
pub fn double_fault_handler() -> (r: HandlerOutcome)
    ensures
        r == (HandlerOutcome { output: HandlerOutput::DoubleFaultReport, end_of_interrupt: None, halts: true }),
{
    HandlerOutcome { output: HandlerOutput::DoubleFaultReport, end_of_interrupt: None, halts: true }
}

pub open spec fn timer_outcome() -> HandlerOutcome {
    HandlerOutcome {
        output: HandlerOutput::TimerTick,
        end_of_interrupt: Some(InterruptIndex::Timer.vector()),
        halts: false,
    }
}

/// A timer tick prints one marker and acknowledges the timer's vector.
pub fn timer_interrupt_handler() -> (r: HandlerOutcome)
    ensures
        r == timer_outcome(),
{
    HandlerOutcome {
        output: HandlerOutput::TimerTick,
        end_of_interrupt: Some(InterruptIndex::Timer.as_u8()),
        halts: false,
    }
}

/// The outcome of a keyboard interrupt in which the decoder produced `key`:
/// the key is printed if there is one, and the keyboard's vector is
/// acknowledged whether or not a key was completed.
pub fn keyboard_outcome(key: Option<DecodedOutput>) -> (r: HandlerOutcome)
    ensures
        r.output == match key {
            Some(k) => HandlerOutput::Key(k),
            None => HandlerOutput::Nothing,
        },
        r.end_of_interrupt == Some(InterruptIndex::Keyboard.vector()),
        !r.halts,
{
    let output = match key {
        Some(k) => HandlerOutput::Key(k),
        None => HandlerOutput::Nothing,
    };
    HandlerOutcome { output, end_of_interrupt: Some(InterruptIndex::Keyboard.as_u8()), halts: false }
}

/// Handles a keyboard interrupt whose scancode byte is `scancode`: feeds it to
/// the decoder, and acknowledges the keyboard's vector in every case.
pub fn keyboard_interrupt_handler(decoder: &mut KeyboardDecoder, scancode: u8) -> (r: HandlerOutcome)
    ensures
        final(decoder).history() == old(decoder).history().push(scancode),
        r.output == match decoded_after(old(decoder).history().push(scancode)) {
            Some(k) => HandlerOutput::Key(k),
            None => HandlerOutput::Nothing,
        },
        r.end_of_interrupt == Some(InterruptIndex::Keyboard.vector()),
        !r.halts,
{
    let key = decoder.decode(scancode);
    keyboard_outcome(key)
}

} // verus!
