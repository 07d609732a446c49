//! The concurrency core of a small multi-hart RISC-V teaching kernel: spin
//! locks bound to harts, per-hart interrupt nesting, the process table and
//! the sleep / wakeup / sched handoff between processes and the harts'
//! schedulers. Around it: the console line discipline, the UART transmit
//! ring, trap classification, the bump heap allocator, and the kernel's
//! page tables with the address arithmetic they rest on.
//!
//! Hardware state that the kernel reads and writes (a hart's status
//! register, the UART's registers, physical pages of page tables) is held
//! in plain values, and each hart's actions are calls that name the hart.
pub mod console;
pub mod file;
pub mod kalloc;
pub mod memlayout;
pub mod param;
pub mod printf;
pub mod proc;
pub mod riscv;
pub mod spinlock;
pub mod trap;
pub mod uart;
pub mod vm;
