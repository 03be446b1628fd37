//! The control core of a small x86-64 kernel: the interrupt vector table and
//! its handlers, the chained interrupt controllers, the physical frame
//! allocator and the four-level page tables.
use vstd::prelude::*;

pub mod frame_allocator;
pub mod paging;
pub mod keyboard;
pub mod interrupts;
pub mod pic;
pub mod vga_buffer;

use crate::interrupts::{
    VectorEntry,
    init_idt, kernel_entry, HandlerKind, HandlerOutcome, VectorTable, PIC_1_OFFSET, PIC_2_OFFSET,
    STACK_SLOTS, VECTOR_COUNT,
};
use crate::keyboard::KeyboardDecoder;
use crate::pic::{after_end_of_interrupt, after_request, ControllerChain, Pic};

verus! {

/// The codes that the kernel writes to the emulator's exit device.
#[derive(Clone, Copy, Debug, PartialEq, Eq, Structural)]
pub enum QemuExitCode {
    Success,
    Failed,
}

impl QemuExitCode {
    pub open spec fn spec_code(self) -> u32 {
        match self {
            QemuExitCode::Success => 0x10,
            QemuExitCode::Failed => 0x11,
        }
    }

    /// The value written to the exit device.
    pub fn code(self) -> (r: u32)
        ensures
            r == self.spec_code(),
    {
        match self {
            QemuExitCode::Success => 0x10,
            QemuExitCode::Failed => 0x11,
        }
    }
}

/// The vector that a handler acknowledges once it has run, if any.
pub open spec fn handler_end_of_interrupt(k: HandlerKind) -> Option<u8> {
    match k {
        HandlerKind::Timer => Some(PIC_1_OFFSET),
        HandlerKind::Keyboard => Some((PIC_1_OFFSET + 1) as u8),
        _ => None,
    }
}

/// A device raises `line` of the controller chain: the chain afterwards and
/// the handler that the CPU runs, if any. The handler acknowledges its vector
/// before it returns.
pub open spec fn interrupt_step(
    c: ControllerChain,
    table: Seq<VectorEntry>,
    enabled: bool,
    line: u8,
) -> (ControllerChain, Option<HandlerKind>) {
    if !enabled {
        (c, None)
    } else {
        let (c1, v) = after_request(c, line);
        match v {
            None => (c1, None),
            Some(v) => match table[v as int].handler {
                None => (c1, None),
                Some(k) => match handler_end_of_interrupt(k) {
                    Some(e) => (after_end_of_interrupt(c1, e), Some(k)),
                    None => (c1, Some(k)),
                },
            },
        }
    }
}

/// `n` pulses of the timer line, one after the other: the chain afterwards,
/// the number of handlers run, and the number of acknowledgments sent.
pub open spec fn timer_pulses(c: ControllerChain, table: Seq<VectorEntry>, enabled: bool, n: nat) -> (
    ControllerChain,
    nat,
    nat,
)
    decreases n,
{
    if n == 0 {
        (c, 0, 0)
    } else {
        let (c1, k) = interrupt_step(c, table, enabled, 0);
        let (c2, runs, acks) = timer_pulses(c1, table, enabled, (n - 1) as nat);
        (
            c2,
            runs + if k is Some { 1nat } else { 0nat },
            acks + if k matches Some(h) && handler_end_of_interrupt(h) is Some { 1nat } else { 0nat },
        )
    }
}

/// The controller chain as initialization leaves it.
pub open spec fn initialized_chain() -> ControllerChain {
    ControllerChain {
        master: Pic { offset: PIC_1_OFFSET, mask: 0, in_service: 0 },
        slave: Pic { offset: PIC_2_OFFSET, mask: 0, in_service: 0 },
        initialized: true,
    }
}

/// The interrupt machinery of the kernel: the vector table the CPU has
/// loaded, the controller chain, and whether the CPU takes interrupts.
pub struct InterruptSystem {
    pub vector_table: VectorTable,
    pub controllers: ControllerChain,
    pub interrupts_enabled: bool,
}

impl InterruptSystem {
    pub open spec fn wf(&self) -> bool {
        &&& self.vector_table.wf()
        &&& self.controllers.master.offset <= 247
        &&& self.controllers.slave.offset <= 247
    }

    /// A device raises `line` (0 to 15): the chain delivers the vector, if it
    /// lets the request through, and the CPU runs the handler bound to it,
    /// which then acknowledges its vector. For the keyboard, `scancode` is the
    /// byte waiting at its data port and `decoder` decodes it.
    pub fn raise_line(&mut self, line: u8, decoder: &mut KeyboardDecoder, scancode: u8) -> (r: Option<
        HandlerOutcome,
    >)
        requires
            old(self).wf(),
            line < 16,
        ensures
            final(self).wf(),
            final(self).vector_table@ == old(self).vector_table@,
            final(self).interrupts_enabled == old(self).interrupts_enabled,
            ({
                let (c, k) = interrupt_step(
                    old(self).controllers,
                    old(self).vector_table@,
                    old(self).interrupts_enabled,
                    line,
                );
                &&& final(self).controllers == c
                &&& r is Some == k is Some
                &&& r matches Some(o) ==> o.end_of_interrupt == handler_end_of_interrupt(k->0)
            }),
    {
        if !self.interrupts_enabled {
            return None;
        }
        let vector = match self.controllers.request(line) {
            Some(v) => v,
            None => return None,
        };
        let outcome = match self.vector_table.entry(vector as usize).handler {
            None => return None,
            Some(HandlerKind::Breakpoint) => crate::interrupts::breakpoint_handler(),
            Some(HandlerKind::DoubleFault) => crate::interrupts::double_fault_handler(),
            Some(HandlerKind::Timer) => crate::interrupts::timer_interrupt_handler(),
            Some(HandlerKind::Keyboard) => crate::interrupts::keyboard_interrupt_handler(decoder, scancode),
        };
        match outcome.end_of_interrupt {
            Some(e) => self.controllers.notify_end_of_interrupt(e),
            None => {},
        }
        Some(outcome)
    }
}

/// Brings up the interrupt machinery, in the order that keeps it safe: the
/// vector table is built and loaded, then the controller chain is initialized
/// and unmasked, and only then does the CPU take interrupts.
pub fn init(double_fault_stack_index: u16) -> (r: InterruptSystem)
    requires
        double_fault_stack_index < STACK_SLOTS,
    ensures
        r.wf(),
        forall|v: int| 0 <= v < VECTOR_COUNT ==> #[trigger] r.vector_table@[v] == kernel_entry(v, double_fault_stack_index),
        r.controllers == initialized_chain(),
        r.interrupts_enabled,
{
    let vector_table = init_idt(double_fault_stack_index);
    let mut controllers = ControllerChain::new();
    controllers.initialize();
    InterruptSystem { vector_table, controllers, interrupts_enabled: true }
}

/// After initialization, every pulse of the timer line runs the timer handler
/// exactly once and sends exactly one acknowledgment, which leaves the chain
/// as it was: over `n` pulses, `n` handler runs and `n` acknowledgments, none
/// lost and none doubled.
pub proof fn lemma_timer_pulses(double_fault_stack_index: u16, table: Seq<VectorEntry>, n: nat)
    requires
        double_fault_stack_index < STACK_SLOTS,
        table.len() == VECTOR_COUNT,
        forall|v: int| 0 <= v < VECTOR_COUNT ==> #[trigger] table[v] == kernel_entry(v, double_fault_stack_index),
    ensures
        timer_pulses(initialized_chain(), table, true, n) == (initialized_chain(), n, n),
    decreases n,
{
    if n > 0 {
        lemma_timer_pulse_once(double_fault_stack_index, table);
        lemma_timer_pulses(double_fault_stack_index, table, (n - 1) as nat);
    }
}

/// The register values that a request on line 0 of an idle, unmasked
/// controller and its acknowledgment go through.
proof fn lemma_timer_line_bits()
    ensures
        ((0u8 >> 0u8) & 1u8) == 0u8,
        ((0u8 << 7u8) as u8) == 0u8,
        (0u8 | ((1u8 << 0u8) as u8)) == 1u8,
        (1u8 & ((1u8 - 1u8) as u8)) == 0u8,
{
    assert(((0u8 >> 0u8) & 1u8) == 0u8) by (bit_vector);
    assert(((0u8 << 7u8) as u8) == 0u8) by (bit_vector);
    assert((0u8 | ((1u8 << 0u8) as u8)) == 1u8) by (bit_vector);
    assert((1u8 & ((1u8 - 1u8) as u8)) == 0u8) by (bit_vector);
}

proof fn lemma_timer_pulse_once(double_fault_stack_index: u16, table: Seq<VectorEntry>)
    requires
        table.len() == VECTOR_COUNT,
        forall|v: int| 0 <= v < VECTOR_COUNT ==> #[trigger] table[v] == kernel_entry(v, double_fault_stack_index),
    ensures
        interrupt_step(initialized_chain(), table, true, 0) == (initialized_chain(), Some(HandlerKind::Timer)),
{
    let c = initialized_chain();
    lemma_timer_line_bits();
    let (c1, v) = after_request(c, 0);
    assert(v == Some(32u8));
    assert(table[32] == kernel_entry(32, double_fault_stack_index));
    assert(after_end_of_interrupt(c1, 32) == c);
}

/// A timer interrupt that is never acknowledged stalls the chain: while the
/// timer's line stays in service, a request on any line, the timer's own
/// included, reaches the CPU no more.
pub proof fn lemma_unacknowledged_timer_blocks(line: u8)
    requires
        line < 16,
    ensures
        after_request(after_request(initialized_chain(), 0).0, line).1 is None,
{
    let c1 = after_request(initialized_chain(), 0).0;
    lemma_timer_line_bits();
    assert(c1.master.in_service == 1u8);
    if line < 8 {
        let k = (7 - line) as u8;
        assert(k < 8 ==> ((1u8 << k) as u8) != 0u8) by (bit_vector);
    } else {
        assert(((1u8 << 5u8) as u8) != 0u8) by (bit_vector);
    }
}

} // verus!
