use xv6::console::{cons_putc, console_intr, ctrl, Console, ConsoleEvent};
use xv6::kalloc::BumpAllocator;
use xv6::proc::Cpus;
use xv6::printf::Writer;
use xv6::trap::{ack_software_interrupt, clock_intr, devintr, irq_action, kerneltrap, IrqAction, Trap};
use xv6::uart::{uart_intr, uart_putc_sync, Uart, UartRegs};

fn type_line(cons: &mut Console, out: &mut Vec<u8>, s: &[u8]) -> Vec<ConsoleEvent> {
    s.iter().map(|&c| console_intr(cons, out, c)).collect()
}

#[test]
fn control_keys() {
    assert_eq!(ctrl(b'P'), 0x10);
    assert_eq!(ctrl(b'U'), 0x15);
    assert_eq!(ctrl(b'H'), 0x08);
    assert_eq!(ctrl(b'D'), 0x04);
}

#[test]
fn backspace_echo_rubs_out() {
    let mut out = Vec::new();
    cons_putc(&mut out, b'x');
    cons_putc(&mut out, 8);
    assert_eq!(out, vec![b'x', 8, b' ', 8]);
}

#[test]
fn a_line_wakes_readers() {
    let mut cons = Console::new();
    let mut out = Vec::new();
    let ev = type_line(&mut cons, &mut out, b"hi\r");
    assert_eq!(ev, vec![ConsoleEvent::Nothing, ConsoleEvent::Nothing, ConsoleEvent::Wakeup]);
    assert_eq!(out, b"hi\n".to_vec());
    assert_eq!(cons.w, 3);
    assert_eq!(cons.e, 3);
    assert_eq!(&cons.buf[0..3], b"hi\n");
}

#[test]
fn backspace_and_kill_line() {
    let mut cons = Console::new();
    let mut out = Vec::new();
    type_line(&mut cons, &mut out, b"ab\n");
    out.clear();
    type_line(&mut cons, &mut out, b"xyz");
    assert_eq!(console_intr(&mut cons, &mut out, 0x7f), ConsoleEvent::Nothing);
    assert_eq!(cons.e, 5);
    assert_eq!(console_intr(&mut cons, &mut out, ctrl(b'U')), ConsoleEvent::Nothing);
    // Killing stops at the end of the completed line.
    assert_eq!(cons.e, 3);
    assert_eq!(out, b"xyz\x08 \x08\x08 \x08\x08 \x08".to_vec());
    // Nothing left to erase.
    out.clear();
    assert_eq!(console_intr(&mut cons, &mut out, ctrl(b'H')), ConsoleEvent::Nothing);
    assert_eq!(cons.e, 3);
    assert!(out.is_empty());
}

#[test]
fn control_p_asks_for_listing() {
    let mut cons = Console::new();
    let mut out = Vec::new();
    assert_eq!(console_intr(&mut cons, &mut out, ctrl(b'P')), ConsoleEvent::ProcDump);
    assert!(out.is_empty());
    assert_eq!(cons.e, 0);
}

#[test]
fn end_of_input_and_full_buffer() {
    let mut cons = Console::new();
    let mut out = Vec::new();
    assert_eq!(console_intr(&mut cons, &mut out, ctrl(b'D')), ConsoleEvent::Wakeup);
    assert_eq!(cons.w, 1);
    let mut cons = Console::new();
    for i in 0..127 {
        assert_eq!(console_intr(&mut cons, &mut out, b'a'), ConsoleEvent::Nothing, "{}", i);
    }
    assert_eq!(console_intr(&mut cons, &mut out, b'a'), ConsoleEvent::Wakeup);
    assert_eq!(cons.w, 128);
    // Full: further input is dropped.
    assert_eq!(console_intr(&mut cons, &mut out, b'b'), ConsoleEvent::Nothing);
    assert_eq!(cons.e, 128);
    assert_eq!(console_intr(&mut cons, &mut out, 0), ConsoleEvent::Nothing);
}

#[test]
fn uart_ring_sends_what_the_uart_takes() {
    let mut uart = Uart::new();
    let mut regs = UartRegs { rx: Vec::new(), tx: Vec::new(), tx_room: 2 };
    uart.uart_putc(&mut regs, b'a');
    uart.uart_putc(&mut regs, b'b');
    uart.uart_putc(&mut regs, b'c');
    assert_eq!(regs.tx, b"ab".to_vec());
    assert_eq!(uart.tx_w - uart.tx_r, 1);
    regs.tx_room = 5;
    regs.rx = vec![b'z', b'y'];
    uart_intr(&mut uart, &mut regs);
    assert_eq!(regs.tx, b"abc".to_vec());
    assert!(regs.rx.is_empty());
    assert_eq!(uart.tx_w, uart.tx_r);
}

#[test]
fn uart_getc_reads_in_order() {
    let mut regs = UartRegs { rx: vec![1, 2], tx: Vec::new(), tx_room: 0 };
    assert_eq!(Uart::uart_getc(&mut regs), Some(1));
    assert_eq!(Uart::uart_getc(&mut regs), Some(2));
    assert_eq!(Uart::uart_getc(&mut regs), None);
}

#[test]
fn uart_putc_sync_sends_at_once() {
    let mut cpus = Cpus::new();
    let mut regs = UartRegs { rx: Vec::new(), tx: Vec::new(), tx_room: 1 };
    uart_putc_sync(&mut cpus, 0, &mut regs, b'!');
    assert_eq!(regs.tx, vec![b'!']);
    assert_eq!(cpus.mycpu(0).noff, 0);
}

#[test]
fn trap_kinds() {
    let mut sip = 0x22u64;
    let mut ticks = 5usize;
    assert_eq!(devintr(0x8000_0000_0000_0009, 0, &mut sip, &mut ticks), Trap::ExternalInterrupt);
    assert_eq!(devintr(0x8000_0000_0000_0109, 0, &mut sip, &mut ticks), Trap::ExternalInterrupt);
    assert_eq!(devintr(0x9, 0, &mut sip, &mut ticks), Trap::Unknown);
    assert_eq!(devintr(0x8000_0000_0000_0005, 0, &mut sip, &mut ticks), Trap::Unknown);
    assert_eq!((sip, ticks), (0x22, 5));
    assert_eq!(irq_action(10), IrqAction::Uart);
    assert_eq!(irq_action(1), IrqAction::Virtio);
    assert_eq!(irq_action(0), IrqAction::Ignore);
    assert_eq!(irq_action(33), IrqAction::Complete);
}

#[test]
fn software_interrupt_ticks_on_hart_zero_only() {
    let mut sip = 0x22u64;
    let mut ticks = 5usize;
    assert_eq!(devintr(0x8000_0000_0000_0001, 1, &mut sip, &mut ticks), Trap::SoftwareInterrupt);
    assert_eq!((sip, ticks), (0x20, 5));
    let mut sip = 0x2u64;
    assert_eq!(devintr(0x8000_0000_0000_0001, 0, &mut sip, &mut ticks), Trap::SoftwareInterrupt);
    assert_eq!((sip, ticks), (0, 6));
}

#[test]
fn ticks_and_acknowledge() {
    let mut t = 41usize;
    clock_intr(&mut t);
    assert_eq!(t, 42);
    let mut t = usize::MAX;
    clock_intr(&mut t);
    assert_eq!(t, 0);
    assert_eq!(ack_software_interrupt(0x22), 0x20);
}

#[test]
fn bump_allocation() {
    let mut a = BumpAllocator::new();
    a.init(0x1001, 0x100);
    assert_eq!(a.allocate(0x10, 0x10), Some(0x1010));
    assert_eq!(a.allocate(0x8, 0x1), Some(0x1020));
    // Aligning leaves a gap.
    assert_eq!(a.allocate(0x10, 0x40), Some(0x1040));
    // Too large for what is left.
    assert_eq!(a.allocate(0x100, 0x1), None);
    a.deallocate();
    a.deallocate();
    a.deallocate();
    // All given back: the heap starts over.
    assert_eq!(a.allocate(0x10, 0x10), Some(0x1010));
}

#[test]
fn writer_sends_through_console() {
    let mut w = Writer;
    let mut out = Vec::new();
    w.write_str(&mut out, "ok\x08");
    assert_eq!(out, vec![b'o', b'k', 8, b' ', 8]);
}

#[test]
fn kernel_trap_restores_saved_registers() {
    let spp = 0x100;
    let mut sip = 2u64;
    let mut ticks = 0usize;
    assert_eq!(
        kerneltrap(0, 0x8000_1234, spp, 0x8000_0000_0000_0009, &mut sip, &mut ticks),
        (Trap::ExternalInterrupt, 0x8000_1234, spp)
    );
    assert_eq!((sip, ticks), (2, 0));
    assert_eq!(
        kerneltrap(0, 0x8000_5678, spp | 0x20, 0x8000_0000_0000_0001, &mut sip, &mut ticks),
        (Trap::SoftwareInterrupt, 0x8000_5678, spp | 0x20)
    );
    assert_eq!((sip, ticks), (0, 1));
}
