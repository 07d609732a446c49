//! The 16550a UART's transmit side: a ring of bytes waiting to be sent, fed
//! into the transmit holding register whenever the UART can take a byte.
//! The registers are modelled by `UartRegs`.
use vstd::prelude::*;

use crate::param::NCPU;
use crate::proc::Cpus;
use crate::spinlock::{lemma_push_pop, masked_once, pop_off, push_off};

verus! {

/// Size of the transmit ring.
pub const UART_TX_BUF_SIZE: usize = 32;

/// The UART as the driver sees it through its registers: bytes received and
/// not yet read, bytes handed to the transmit holding register so far, and
/// how many more bytes the transmitter takes before it reports busy.
pub struct UartRegs {
    pub rx: Vec<u8>,
    pub tx: Vec<u8>,
    pub tx_room: usize,
}

/// The transmit ring.
pub struct Uart {
    /// The ring.
    pub buf: Vec<u8>,
    /// Bytes put in the ring so far; the next goes to `buf[tx_w % 32]`.
    pub tx_w: usize,
    /// Bytes sent from the ring so far; the next comes from `buf[tx_r % 32]`.
    pub tx_r: usize,
}

impl Uart {
    /// The ring is full size and holds at most its size of unsent bytes.
    pub open spec fn wf(&self) -> bool {
        &&& self.buf@.len() == UART_TX_BUF_SIZE
        &&& self.tx_r <= self.tx_w <= self.tx_r + UART_TX_BUF_SIZE
    }

    /// The bytes waiting in the ring, oldest first.
    pub open spec fn pending(&self) -> Seq<u8> {
        Seq::new(
            (self.tx_w - self.tx_r) as nat,
            |i: int| self.buf@[(self.tx_r + i) % UART_TX_BUF_SIZE as int],
        )
    }

    /// An empty ring.
    pub fn new() -> (r: Uart)
        ensures
            r.wf(),
            r.tx_w == 0 && r.tx_r == 0,
    {
        let mut buf: Vec<u8> = Vec::new();
        let mut i: usize = 0;
        while i < UART_TX_BUF_SIZE
            invariant
                i <= UART_TX_BUF_SIZE,
                buf@.len() == i,
            decreases UART_TX_BUF_SIZE - i,
        {
            buf.push(0);
            i = i + 1;
        }
        Uart { buf, tx_w: 0, tx_r: 0 }
    }

    /// Adds `c` to the ring and lets the UART send what it can. The ring
    /// must have room: with no room the caller would have to wait.
    pub fn uart_putc(&mut self, regs: &mut UartRegs, c: u8)
        requires
            old(self).wf(),
            old(self).tx_w - old(self).tx_r < UART_TX_BUF_SIZE,
            old(self).tx_w < usize::MAX,
        ensures
            final(self).wf(),
            final(self).tx_w == old(self).tx_w + 1,
            ({
                let all = old(self).pending().push(c);
                let n = if all.len() < old(regs).tx_room {
                    all.len() as int
                } else {
                    old(regs).tx_room as int
                };
                &&& final(regs).tx@ == old(regs).tx@ + all.subrange(0, n)
                &&& final(self).pending() == all.subrange(n, all.len() as int)
                &&& final(regs).tx_room == old(regs).tx_room - n
                &&& final(regs).rx@ == old(regs).rx@
            }),
    {
        let i = self.tx_w % UART_TX_BUF_SIZE;
        self.buf.set(i, c);
        self.tx_w = self.tx_w + 1;
        proof {
            let all = old(self).pending().push(c);
            assert(self.pending() =~= all);
        }
        self.uart_start(regs);
    }

    /// Sends bytes from the ring while there are any and the UART can take
    /// them, oldest first.
    pub fn uart_start(&mut self, regs: &mut UartRegs)
        requires
            old(self).wf(),
        ensures
            final(self).wf(),
            final(self).tx_w == old(self).tx_w,
            ({
                let all = old(self).pending();
                let n = if all.len() < old(regs).tx_room {
                    all.len() as int
                } else {
                    old(regs).tx_room as int
                };
                &&& final(regs).tx@ == old(regs).tx@ + all.subrange(0, n)
                &&& final(self).pending() == all.subrange(n, all.len() as int)
                &&& final(regs).tx_room == old(regs).tx_room - n
                &&& final(regs).rx@ == old(regs).rx@
            }),
    {
        let ghost all = self.pending();
        loop
            invariant
                self.wf(),
                self.tx_w == old(self).tx_w,
                self.buf@ == old(self).buf@,
                old(self).tx_r <= self.tx_r,
                all == old(self).pending(),
                self.tx_r - old(self).tx_r <= old(regs).tx_room,
                regs.tx_room == old(regs).tx_room - (self.tx_r - old(self).tx_r),
                regs.tx@ == old(regs).tx@ + all.subrange(0, self.tx_r - old(self).tx_r),
                self.pending() == all.subrange(self.tx_r - old(self).tx_r, all.len() as int),
                regs.rx@ == old(regs).rx@,
            ensures
                self.wf(),
                self.tx_w == old(self).tx_w,
                regs.tx@ == old(regs).tx@ + all.subrange(0, self.tx_r - old(self).tx_r),
                self.pending() == all.subrange(self.tx_r - old(self).tx_r, all.len() as int),
                regs.tx_room == old(regs).tx_room - (self.tx_r - old(self).tx_r),
                self.tx_w == self.tx_r || regs.tx_room == 0,
                regs.rx@ == old(regs).rx@,
            decreases self.tx_w - self.tx_r,
        {
            if self.tx_w - self.tx_r == 0 {
                // the ring is empty.
                return;
            }
            if regs.tx_room == 0 {
                // the transmit holding register is full; the UART interrupts
                // when it is ready for a new byte.
                return;
            }
            let c = self.buf[self.tx_r % UART_TX_BUF_SIZE];
            self.tx_r = self.tx_r + 1;
            regs.tx.push(c);
            regs.tx_room = regs.tx_room - 1;
            proof {
                let k = self.tx_r - old(self).tx_r;
                assert(all[k - 1] == c);
                assert(regs.tx@ =~= old(regs).tx@ + all.subrange(0, k));
                assert(self.pending() =~= all.subrange(k, all.len() as int));
            }
        }
    }

    /// Reads one received byte, if one is waiting.
    pub fn uart_getc(regs: &mut UartRegs) -> (r: Option<u8>)
        ensures
            old(regs).rx@.len() == 0 ==> r is None && final(regs).rx@ == old(regs).rx@,
            old(regs).rx@.len() > 0 ==> r == Some(old(regs).rx@[0]) && final(regs).rx@
                == old(regs).rx@.drop_first(),
            final(regs).tx@ == old(regs).tx@,
            final(regs).tx_room == old(regs).tx_room,
    {
        if regs.rx.len() > 0 {
            Some(regs.rx.remove(0))
        } else {
            None
        }
    }
}

/// Sends `c` straight to the transmit holding register, for kernel output
/// and echo, with interrupts masked meanwhile. The UART must be able to take
/// the byte; a busy UART would be spun on.
pub fn uart_putc_sync(cpus: &mut Cpus, hart: usize, regs: &mut UartRegs, c: u8)
    requires
        old(cpus).wf(),
        hart < NCPU,
        old(cpus)@[hart as int].noff < usize::MAX,
        old(regs).tx_room > 0,
    ensures
        final(cpus).wf(),
        final(cpus)@ == old(cpus)@.update(hart as int, masked_once(old(cpus)@[hart as int])),
        final(regs).tx@ == old(regs).tx@.push(c),
        final(regs).tx_room == old(regs).tx_room - 1,
        final(regs).rx@ == old(regs).rx@,
{
    proof {
        lemma_push_pop(cpus@[hart as int]);
    }
    push_off(cpus, hart);
    regs.tx.push(c);
    regs.tx_room = regs.tx_room - 1;
    pop_off(cpus, hart);
    assert(cpus@ =~= old(cpus)@.update(hart as int, masked_once(old(cpus)@[hart as int])));
}

/// Handles a UART interrupt: reads and drops every received byte, then
/// sends what the UART can take from the ring.
pub fn uart_intr(uart: &mut Uart, regs: &mut UartRegs)
    requires
        old(uart).wf(),
    ensures
        final(uart).wf(),
        final(regs).rx@.len() == 0,
        final(uart).tx_w == old(uart).tx_w,
        ({
            let all = old(uart).pending();
            let n = if all.len() < old(regs).tx_room {
                all.len() as int
            } else {
                old(regs).tx_room as int
            };
            &&& final(regs).tx@ == old(regs).tx@ + all.subrange(0, n)
            &&& final(uart).pending() == all.subrange(n, all.len() as int)
            &&& final(regs).tx_room == old(regs).tx_room - n
        }),
{
    loop
        invariant
            regs.tx@ == old(regs).tx@,
            regs.tx_room == old(regs).tx_room,
        ensures
            regs.tx@ == old(regs).tx@,
            regs.tx_room == old(regs).tx_room,
            regs.rx@.len() == 0,
        decreases regs.rx@.len(),
    {
        let c = Uart::uart_getc(regs);
        if c.is_none() {
            break;
        }
    }
    uart.uart_start(regs);
}

} // verus!
