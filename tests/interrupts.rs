use rustos::interrupts::{
    breakpoint_handler, double_fault_handler, init_idt, keyboard_interrupt_handler, keyboard_outcome,
    timer_interrupt_handler, HandlerKind, HandlerOutput, InterruptIndex, VectorEntry, PIC_1_OFFSET, PIC_2_OFFSET,
};
use rustos::keyboard::{DecodedOutput, KeyboardDecoder};
use rustos::pic::{Controller, ControllerChain};
use rustos::{init, QemuExitCode};

#[test]
fn interrupt_index_vectors() {
    assert_eq!(PIC_1_OFFSET, 32);
    assert_eq!(PIC_2_OFFSET, 40);
    assert_eq!(InterruptIndex::Timer.as_u8(), 32);
    assert_eq!(InterruptIndex::Keyboard.as_u8(), 33);
    assert_eq!(InterruptIndex::Timer.as_usize(), 32usize);
    assert_eq!(InterruptIndex::Keyboard.as_usize(), 33usize);
}

#[test]
fn vector_table_binds_the_kernel_handlers() {
    let t = init_idt(0);
    assert_eq!(t.entry(3), VectorEntry { handler: Some(HandlerKind::Breakpoint), stack_index: None });
    assert_eq!(t.entry(8), VectorEntry { handler: Some(HandlerKind::DoubleFault), stack_index: Some(0) });
    assert_eq!(t.entry(32), VectorEntry { handler: Some(HandlerKind::Timer), stack_index: None });
    assert_eq!(t.entry(33), VectorEntry { handler: Some(HandlerKind::Keyboard), stack_index: None });
    for v in [0usize, 1, 2, 4, 7, 9, 14, 31, 34, 40, 255] {
        assert_eq!(t.entry(v), VectorEntry { handler: None, stack_index: None });
    }
    let u = init_idt(5);
    assert_eq!(u.entry(8).stack_index, Some(5));
}

#[test]
fn breakpoint_resumes_execution() {
    let o = breakpoint_handler();
    assert!(!o.halts);
    assert_eq!(o.output, HandlerOutput::BreakpointReport);
    assert_eq!(o.end_of_interrupt, None);
}

#[test]
fn double_fault_halts() {
    let o = double_fault_handler();
    assert!(o.halts);
    assert_eq!(o.output, HandlerOutput::DoubleFaultReport);
}

#[test]
fn timer_handler_marks_and_acknowledges() {
    let o = timer_interrupt_handler();
    assert_eq!(o.output, HandlerOutput::TimerTick);
    assert_eq!(o.end_of_interrupt, Some(32));
    assert!(!o.halts);
}

#[test]
fn keyboard_outcome_acknowledges_with_or_without_a_key() {
    assert_eq!(keyboard_outcome(None).output, HandlerOutput::Nothing);
    assert_eq!(keyboard_outcome(None).end_of_interrupt, Some(33));
    let k = keyboard_outcome(Some(DecodedOutput::Char('x')));
    assert_eq!(k.output, HandlerOutput::Key(DecodedOutput::Char('x')));
    assert_eq!(k.end_of_interrupt, Some(33));
}

#[test]
fn single_key_press_decodes_one_character() {
    let mut d = KeyboardDecoder::new();
    let press = keyboard_interrupt_handler(&mut d, 0x1e);
    let release = keyboard_interrupt_handler(&mut d, 0x9e);
    assert_eq!(press.output, HandlerOutput::Key(DecodedOutput::Char('a')));
    assert_eq!(release.output, HandlerOutput::Nothing);
    assert_eq!(press.end_of_interrupt, Some(33));
    assert_eq!(release.end_of_interrupt, Some(33));
}

#[test]
fn shifted_key_and_multi_byte_sequence() {
    let mut d = KeyboardDecoder::new();
    assert_eq!(d.decode(0x2a), None); // left shift down
    assert_eq!(d.decode(0x1e), Some(DecodedOutput::Char('A')));
    assert_eq!(d.decode(0xaa), None); // left shift up
    assert_eq!(d.decode(0x02), Some(DecodedOutput::Char('1')));
    // extended prefix: nothing yet, but the interrupt is still acknowledged
    let o = keyboard_interrupt_handler(&mut d, 0xe0);
    assert_eq!(o.output, HandlerOutput::Nothing);
    assert_eq!(o.end_of_interrupt, Some(33));
    let up = keyboard_interrupt_handler(&mut d, 0x48);
    assert!(matches!(up.output, HandlerOutput::Key(DecodedOutput::RawKey(_))));
}

#[test]
fn acknowledgment_order_slave_then_master() {
    let c = ControllerChain::new();
    assert_eq!(c.end_of_interrupt_order(40), vec![Controller::Slave, Controller::Master]);
    assert_eq!(c.end_of_interrupt_order(47), vec![Controller::Slave, Controller::Master]);
    assert_eq!(c.end_of_interrupt_order(32), vec![Controller::Master]);
    assert_eq!(c.end_of_interrupt_order(39), vec![Controller::Master]);
    assert_eq!(c.end_of_interrupt_order(3), Vec::<Controller>::new());
    assert_eq!(c.end_of_interrupt_order(48), Vec::<Controller>::new());
    assert!(c.handles_interrupt(32) && c.handles_interrupt(47) && !c.handles_interrupt(31) && !c.handles_interrupt(48));
}

#[test]
fn unacknowledged_line_stays_blocked() {
    let mut c = ControllerChain::new();
    assert_eq!(c.request(0), None); // not initialized
    c.initialize();
    assert_eq!(c.request(0), Some(32));
    assert_eq!(c.request(0), None);
    assert_eq!(c.request(1), None); // lower priority than the line in service
    c.notify_end_of_interrupt(32);
    assert_eq!(c.master.in_service, 0);
    assert_eq!(c.request(1), Some(33));
    c.notify_end_of_interrupt(33);
    assert_eq!(c.request(8), Some(40));
    assert_eq!(c.master.in_service, 0b100);
    assert_eq!(c.slave.in_service, 1);
    c.notify_end_of_interrupt(40);
    assert_eq!(c.master.in_service, 0);
    assert_eq!(c.slave.in_service, 0);
    c.notify_end_of_interrupt(3);
    assert_eq!(c.master.in_service, 0);
}

#[test]
fn thousand_timer_pulses_each_handled_and_acknowledged_once() {
    let mut s = init(0);
    let start = s.controllers;
    let mut d = KeyboardDecoder::new();
    let mut runs = 0;
    let mut acks = 0;
    for _ in 0..1000 {
        if let Some(o) = s.raise_line(0, &mut d, 0) {
            runs += 1;
            assert_eq!(o.output, HandlerOutput::TimerTick);
            if o.end_of_interrupt.is_some() {
                acks += 1;
            }
        }
    }
    assert_eq!(runs, 1000);
    assert_eq!(acks, 1000);
    assert_eq!(s.controllers, start);
}

#[test]
fn keyboard_line_end_to_end() {
    let mut s = init(0);
    let mut d = KeyboardDecoder::new();
    let o = s.raise_line(1, &mut d, 0x23).unwrap();
    assert_eq!(o.output, HandlerOutput::Key(DecodedOutput::Char('h')));
    assert_eq!(s.controllers.master.in_service, 0);
    // a slave line with no handler bound is delivered but runs nothing
    assert!(s.raise_line(8, &mut d, 0).is_none());
}

#[test]
fn disabled_interrupts_deliver_nothing() {
    let mut s = init(0);
    s.interrupts_enabled = false;
    let mut d = KeyboardDecoder::new();
    assert!(s.raise_line(0, &mut d, 0).is_none());
    assert_eq!(s.controllers.master.in_service, 0);
}

#[test]
fn qemu_exit_codes() {
    assert_eq!(QemuExitCode::Success.code(), 0x10);
    assert_eq!(QemuExitCode::Failed.code(), 0x11);
}
