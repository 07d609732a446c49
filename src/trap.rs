//! Classifying the interrupts that reach the kernel from supervisor mode.
use vstd::prelude::*;

use crate::memlayout::{UART0_IRQ, VIRTIO0_IRQ};
use crate::riscv::{sie_set, SSTATUS_SPP};

verus! {

/// The `scause` of a software interrupt, as forwarded from a machine-mode
/// timer interrupt.
pub const SCAUSE_SOFTWARE: u64 = 0x8000_0000_0000_0001;

/// The kinds of trap `devintr` tells apart.
#[derive(Clone, Copy, Debug, PartialEq, Eq, Structural)]
pub enum Trap {
    ExternalInterrupt,
    SoftwareInterrupt,
    Unknown,
}

/// What to do with an interrupt request claimed from the PLIC.
#[derive(Clone, Copy, Debug, PartialEq, Eq, Structural)]
pub enum IrqAction {
    /// Let the UART driver handle it.
    Uart,
    /// A virtio disk interrupt.
    Virtio,
    /// An unknown device: tell the PLIC it was served, so that the device
    /// may interrupt again.
    Complete,
    /// No interrupt was pending.
    Ignore,
}

/// `scause` says: interrupt, supervisor external (via the PLIC).
pub open spec fn is_external(scause: u64) -> bool {
    scause >= 0x8000_0000_0000_0000 && scause % 256 == 9
}

/// Tells apart the interrupts the kernel handles by their `scause`, and
/// handles a software interrupt, which a machine-mode timer interrupt was
/// turned into: hart 0 counts a tick, and the interrupt is acknowledged by
/// clearing its pending bit in `sip`. An external interrupt is left to the
/// PLIC claim and `irq_action`; anything else is not recognised and changes
/// nothing.
pub fn devintr(scause: u64, hart: usize, sip: &mut u64, ticks: &mut usize) -> (r: Trap)
    ensures
        is_external(scause) ==> r == Trap::ExternalInterrupt,
        !is_external(scause) && scause == SCAUSE_SOFTWARE ==> r == Trap::SoftwareInterrupt,
        !is_external(scause) && scause != SCAUSE_SOFTWARE ==> r == Trap::Unknown,
        r == Trap::SoftwareInterrupt ==> *final(sip) == *old(sip) & !2u64 && *final(ticks) == if hart
            == 0 {
            next_tick(*old(ticks))
        } else {
            *old(ticks)
        },
        r != Trap::SoftwareInterrupt ==> *final(sip) == *old(sip) && *final(ticks) == *old(ticks),
{
    assert((scause & 0x8000000000000000u64) != 0 <==> scause >= 0x8000_0000_0000_0000u64)
        by (bit_vector);
    assert(scause & 0xffu64 == scause % 256) by (bit_vector);
    if (scause & 0x8000000000000000) != 0 && (scause & 0xff) == 9 {
        Trap::ExternalInterrupt
    } else if scause == SCAUSE_SOFTWARE {
        if hart == 0 {
            // this is the boot hart.
            clock_intr(ticks);
        }
        *sip = ack_software_interrupt(*sip);
        Trap::SoftwareInterrupt
    } else {
        Trap::Unknown
    }
}

/// Which device a claimed interrupt request belongs to.
pub fn irq_action(irq: u32) -> (r: IrqAction)
    ensures
        irq == UART0_IRQ ==> r == IrqAction::Uart,
        irq == VIRTIO0_IRQ ==> r == IrqAction::Virtio,
        irq == 0 ==> r == IrqAction::Ignore,
        irq != UART0_IRQ && irq != VIRTIO0_IRQ && irq != 0 ==> r == IrqAction::Complete,
{
    if irq == UART0_IRQ {
        IrqAction::Uart
    } else if irq == VIRTIO0_IRQ {
        IrqAction::Virtio
    } else if irq != 0 {
        IrqAction::Complete
    } else {
        IrqAction::Ignore
    }
}

/// The tick count after one more tick; it wraps around.
pub open spec fn next_tick(t: usize) -> usize {
    if t == usize::MAX {
        0
    } else {
        (t + 1) as usize
    }
}

/// Counts one timer tick.
pub fn clock_intr(ticks: &mut usize)
    ensures
        *final(ticks) == next_tick(*old(ticks)),
{
    *ticks = ticks.wrapping_add(1);
}

/// The `sip` value that acknowledges a software interrupt: its pending bit
/// cleared.
pub fn ack_software_interrupt(sip: u64) -> (r: u64)
    ensures
        r == sip & !2u64,
        r & 2 == 0,
{
    let r = sip & !2;
    assert((sip & !2u64) & 2u64 == 0) by (bit_vector);
    r
}

/// Whether a trap that kernel code took is one the kernel can handle: it
/// came from supervisor mode, with interrupts disabled, and is an external
/// or a software interrupt. Any other is fatal.
pub open spec fn kernel_trap_ok(sstatus: u64, scause: u64) -> bool {
    &&& sstatus & SSTATUS_SPP != 0
    &&& !sie_set(sstatus)
    &&& (is_external(scause) || scause == SCAUSE_SOFTWARE)
}

/// Handles a trap taken by kernel code, given the `sepc`, `sstatus` and
/// `scause` it saved: the interrupt goes through `devintr`, and the values
/// of `sepc` and `sstatus` to restore before returning from the trap are
/// the saved ones, as handling it may have caused other traps meanwhile.
pub fn kerneltrap(
    hart: usize,
    sepc: u64,
    sstatus: u64,
    scause: u64,
    sip: &mut u64,
    ticks: &mut usize,
) -> (r: (Trap, u64, u64))
    requires
        kernel_trap_ok(sstatus, scause),
    ensures
        r.1 == sepc,
        r.2 == sstatus,
        is_external(scause) ==> r.0 == Trap::ExternalInterrupt && *final(sip) == *old(sip)
            && *final(ticks) == *old(ticks),
        !is_external(scause) ==> r.0 == Trap::SoftwareInterrupt && *final(sip) == *old(sip)
            & !2u64 && *final(ticks) == if hart == 0 {
            next_tick(*old(ticks))
        } else {
            *old(ticks)
        },
{
    let t = devintr(scause, hart, sip, ticks);
    // restore the trap registers for the return from the trap.
    (t, sepc, sstatus)
}

} // verus!
