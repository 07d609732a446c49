//! Physical memory layout of the QEMU `virt` machine.
//!
//! ```text
//! 00001000 -- boot ROM, provided by qemu
//! 02000000 -- CLINT
//! 0C000000 -- PLIC
//! 10000000 -- uart0
//! 10001000 -- virtio disk
//! 80000000 -- boot ROM jumps here in machine mode; the kernel is loaded here
//! ```
//! After the kernel's text and data comes the page allocation area, up to
//! `PHYSTOP`.
use vstd::prelude::*;

use crate::riscv::{MAXVA, PGSIZE};

verus! {

/// The UART's registers.
pub const UART0: u64 = 0x1000_0000;

pub const UART0_IRQ: u32 = 10;

/// The virtio mmio interface.
pub const VIRTIO0: u64 = 0x1000_1000;

pub const VIRTIO0_IRQ: u32 = 1;

/// The core local interruptor, which holds the timer.
pub const CLINT: usize = 0x200_0000;

/// Cycles since boot.
pub const CLINT_MTIME: usize = CLINT + 0xBFF8;

/// The platform-level interrupt controller.
pub const PLIC: u64 = 0x0C00_0000;

/// Priority bits for each interrupt.
pub const PLIC_PRIORITY: u64 = PLIC;

/// Pending bits for each interrupt.
pub const PLIC_PENDING: u64 = PLIC + 0x1000;

/// Start of the RAM the kernel uses.
pub const KERNBASE: u64 = 0x8000_0000;

/// End of the RAM the kernel uses: 128 MiB after `KERNBASE`.
pub const PHYSTOP: u64 = KERNBASE + 128 * 1024 * 1024;

/// The trampoline page, mapped at the highest virtual address in both user
/// and kernel space.
pub const TRAMPOLINE: u64 = MAXVA - PGSIZE;

/// The timer compare register of hart `id`.
pub fn clint_mtimecmp(id: usize) -> (r: usize)
    requires
        CLINT + 0x4000 + 8 * id <= usize::MAX,
    ensures
        r == CLINT + 0x4000 + 8 * id,
{
    CLINT + 0x4000 + 8 * id
}

/// The machine-mode interrupt enable bits of hart `hart`.
pub fn plic_menable(hart: usize) -> (r: u64)
    requires
        PLIC + 0x2000 + 0x100 * hart <= u64::MAX,
    ensures
        r == PLIC + 0x2000 + 0x100 * hart,
{
    PLIC + 0x2000 + hart as u64 * 0x100
}

/// The supervisor-mode interrupt enable bits of hart `hart`.
pub fn plic_senable(hart: usize) -> (r: u64)
    requires
        PLIC + 0x2080 + 0x100 * hart <= u64::MAX,
    ensures
        r == PLIC + 0x2080 + 0x100 * hart,
{
    PLIC + 0x2080 + hart as u64 * 0x100
}

/// The machine-mode priority threshold of hart `hart`.
pub fn plic_mpriority(hart: usize) -> (r: u64)
    requires
        PLIC + 0x20_0000 + 0x2000 * hart <= u64::MAX,
    ensures
        r == PLIC + 0x20_0000 + 0x2000 * hart,
{
    PLIC + 0x20_0000 + hart as u64 * 0x2000
}

/// The supervisor-mode priority threshold of hart `hart`.
pub fn plic_spriority(hart: usize) -> (r: u64)
    requires
        PLIC + 0x20_1000 + 0x2000 * hart <= u64::MAX,
    ensures
        r == PLIC + 0x20_1000 + 0x2000 * hart,
{
    PLIC + 0x20_1000 + hart as u64 * 0x2000
}

/// The machine-mode claim register of hart `hart`.
pub fn plic_mclaim(hart: usize) -> (r: u64)
    requires
        PLIC + 0x20_0004 + 0x2000 * hart <= u64::MAX,
    ensures
        r == PLIC + 0x20_0004 + 0x2000 * hart,
{
    PLIC + 0x20_0004 + hart as u64 * 0x2000
}

/// The supervisor-mode claim register of hart `hart`.
pub fn plic_sclaim(hart: usize) -> (r: u64)
    requires
        PLIC + 0x20_1004 + 0x2000 * hart <= u64::MAX,
    ensures
        r == PLIC + 0x20_1004 + 0x2000 * hart,
{
    PLIC + 0x20_1004 + hart as u64 * 0x2000
}

} // verus!
