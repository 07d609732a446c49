//! Console input line discipline.
//!
//! Input is gathered a line at a time. Special input characters:
//! newline ends a line, control-H erases a character, control-U erases the
//! line, control-D ends the input, control-P asks for a process listing.
//! Echo goes out through `cons_putc`, to the bytes sent to the UART.
use vstd::prelude::*;

verus! {

/// Size of the input ring.
pub const INPUT_BUF: usize = 128;

/// The backspace character.
pub const BACKSPACE: u8 = 8;

/// The byte a control key sends together with the letter `b`.
pub open spec fn spec_ctrl(b: u8) -> u8 {
    (b - 64) as u8
}

/// The byte a control key sends together with the letter `b`.
#[verifier::when_used_as_spec(spec_ctrl)]
pub fn ctrl(b: u8) -> (r: u8)
    requires
        b >= 64,
    ensures
        r == b - 64,
{
    b - 64
}

/// What the console asks of the rest of the kernel after an input byte.
#[derive(Clone, Copy, Debug, PartialEq, Eq, Structural)]
pub enum ConsoleEvent {
    /// Nothing to do.
    Nothing,
    /// Print the process listing.
    ProcDump,
    /// A whole line, or end of input, has arrived: wake the readers, which
    /// sleep on the console's channel.
    Wakeup,
}

/// The channel on which readers of the console sleep.
pub const CONSOLE_CHAN: usize = 1;

/// The console's input state: a ring of `INPUT_BUF` bytes with read, write
/// and edit indices that only grow.
pub struct Console {
    /// Read index.
    pub r: usize,
    /// Write index: input up to here is complete and may be read.
    pub w: usize,
    /// Edit index: input up to here has been typed.
    pub e: usize,
    /// The ring.
    pub buf: Vec<u8>,
}

/// The bytes that echo `c`: a backspace is rubbed out with a space.
pub open spec fn putc_bytes(c: u8) -> Seq<u8> {
    if c == BACKSPACE {
        seq![8u8, 32u8, 8u8]
    } else {
        seq![c]
    }
}

/// The echo of `n` erased characters.
pub open spec fn erase_echo(n: nat) -> Seq<u8>
    decreases n,
{
    if n == 0 {
        Seq::empty()
    } else {
        erase_echo((n - 1) as nat) + putc_bytes(BACKSPACE)
    }
}

/// Where erasing the current line stops: at the write index, or just after
/// the last newline typed.
pub open spec fn kill_point(buf: Seq<u8>, w: int, e: int) -> int
    decreases e - w,
{
    if e <= w || buf[(e - 1) % INPUT_BUF as int] == 10 {
        e
    } else {
        kill_point(buf, w, e - 1)
    }
}

/// Sends one byte to the UART; a backspace overwrites the previous
/// character with a space.
pub fn cons_putc(out: &mut Vec<u8>, c: u8)
    ensures
        final(out)@ == old(out)@ + putc_bytes(c),
{
    if c == BACKSPACE {
        out.push(8);
        out.push(32);
        out.push(8);
    } else {
        out.push(c);
    }
    assert(final(out)@ =~= old(out)@ + putc_bytes(c));
}

impl Console {
    /// The indices are ordered and the ring is full size.
    pub open spec fn wf(&self) -> bool {
        &&& self.buf@.len() == INPUT_BUF
        &&& self.r <= self.w <= self.e <= self.r + INPUT_BUF
    }

    /// An empty console.
    pub fn new() -> (r: Console)
        ensures
            r.wf(),
            r.r == 0 && r.w == 0 && r.e == 0,
    {
        let mut buf: Vec<u8> = Vec::new();
        let mut i: usize = 0;
        while i < INPUT_BUF
            invariant
                i <= INPUT_BUF,
                buf@.len() == i,
            decreases INPUT_BUF - i,
        {
            buf.push(0);
            i = i + 1;
        }
        Console { r: 0, w: 0, e: 0, buf }
    }
}

/// Handles one input byte `c`: erase and kill processing, echo to `out`,
/// and storing it for readers. Says whether a process listing was asked
/// for, or whether readers are to be woken because a line is complete.
pub fn console_intr(cons: &mut Console, out: &mut Vec<u8>, c: u8) -> (r: ConsoleEvent)
    requires
        old(cons).wf(),
        old(cons).e < usize::MAX,
    ensures
        final(cons).wf(),
        final(cons).r == old(cons).r,
        c == spec_ctrl(80) ==> r == ConsoleEvent::ProcDump && *final(cons) == *old(cons)
            && final(out)@ == old(out)@,
        c == spec_ctrl(85) ==> ({
            let k = kill_point(old(cons).buf@, old(cons).w as int, old(cons).e as int);
            &&& r == ConsoleEvent::Nothing
            &&& final(cons).e == k
            &&& final(cons).w == old(cons).w
            &&& final(cons).buf@ == old(cons).buf@
            &&& final(out)@ == old(out)@ + erase_echo((old(cons).e - k) as nat)
        }),
        c == spec_ctrl(72) || c == 127 ==> {
            &&& r == ConsoleEvent::Nothing
            &&& final(cons).w == old(cons).w
            &&& final(cons).buf@ == old(cons).buf@
            &&& if old(cons).e != old(cons).w {
                final(cons).e == old(cons).e - 1 && final(out)@ == old(out)@ + putc_bytes(
                    BACKSPACE,
                )
            } else {
                final(cons).e == old(cons).e && final(out)@ == old(out)@
            }
        },
        c != spec_ctrl(80) && c != spec_ctrl(85) && c != spec_ctrl(72) && c != 127 ==> {
            if c != 0 && old(cons).e - old(cons).r < INPUT_BUF {
                let d: u8 = if c == 13 {
                    10u8
                } else {
                    c
                };
                let e = old(cons).e + 1;
                let done = d == 10 || d == spec_ctrl(68) || e == old(cons).r + INPUT_BUF;
                &&& final(out)@ == old(out)@ + putc_bytes(d)
                &&& final(cons).buf@ == old(cons).buf@.update((old(cons).e % INPUT_BUF) as int, d)
                &&& final(cons).e == e
                &&& final(cons).w == if done {
                    e
                } else {
                    old(cons).w as int
                }
                &&& r == if done {
                    ConsoleEvent::Wakeup
                } else {
                    ConsoleEvent::Nothing
                }
            } else {
                r == ConsoleEvent::Nothing && *final(cons) == *old(cons) && final(out)@ == old(out)@
            }
        },
{
    if c == ctrl(80) {
        // print process list
        return ConsoleEvent::ProcDump;
    }
    if c == ctrl(85) {
        // erase line
        while cons.e != cons.w && cons.buf[(cons.e - 1) % INPUT_BUF] != 10
            invariant
                cons.wf(),
                cons.r == old(cons).r,
                cons.w == old(cons).w,
                cons.buf@ == old(cons).buf@,
                kill_point(cons.buf@, cons.w as int, cons.e as int) == kill_point(
                    old(cons).buf@,
                    old(cons).w as int,
                    old(cons).e as int,
                ),
                cons.e <= old(cons).e,
                out@ == old(out)@ + erase_echo((old(cons).e - cons.e) as nat),
            decreases cons.e,
        {
            cons.e = cons.e - 1;
            cons_putc(out, BACKSPACE);
            assert(erase_echo((old(cons).e - cons.e) as nat) == erase_echo(
                (old(cons).e - cons.e - 1) as nat,
            ) + putc_bytes(BACKSPACE));
        }
        return ConsoleEvent::Nothing;
    }
    if c == ctrl(72) || c == 127 {
        // backspace
        if cons.e != cons.w {
            cons.e = cons.e - 1;
            cons_putc(out, BACKSPACE);
        }
        return ConsoleEvent::Nothing;
    }
    if c != 0 && cons.e - cons.r < INPUT_BUF {
        let c = if c == 13 {
            10
        } else {
            c
        };
        // echo back to the user.
        cons_putc(out, c);
        // store for consumption by readers.
        let i = cons.e % INPUT_BUF;
        cons.buf.set(i, c);
        cons.e = cons.e + 1;
        if c == 10 || c == ctrl(68) || cons.e - cons.r == INPUT_BUF {
            // a whole line (or end of input) has arrived.
            cons.w = cons.e;
            return ConsoleEvent::Wakeup;
        }
    }
    ConsoleEvent::Nothing
}

} // verus!
