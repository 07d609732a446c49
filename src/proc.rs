//! Harts and the process table: per-hart records, process slots behind
//! their own locks, and the sleep / wakeup / sched handoff.
use vstd::prelude::*;

use crate::file::{File, Inode};
use crate::param::{NCPU, NOFILE, NPROC};
use crate::riscv::{intr_on, sie_set};
use crate::spinlock::{
    acquired, lemma_push_pop, masked_once, pop_off, pop_off_fails, popped, pushed, SpinMutex,
    SpinMutexGuard,
};

verus! {

/// Saved registers for kernel context switches.
pub struct Context {
    pub ra: usize,
    pub sp: usize,
    // callee-saved registers
    pub s0: usize,
    pub s1: usize,
    pub s2: usize,
    pub s3: usize,
    pub s4: usize,
    pub s5: usize,
    pub s6: usize,
    pub s7: usize,
    pub s8: usize,
    pub s9: usize,
    pub s10: usize,
    pub s11: usize,
}

impl Context {
    /// Whether every saved register is zero.
    pub open spec fn is_zero(&self) -> bool {
        &&& self.ra == 0
        &&& self.sp == 0
        &&& self.s0 == 0
        &&& self.s1 == 0
        &&& self.s2 == 0
        &&& self.s3 == 0
        &&& self.s4 == 0
        &&& self.s5 == 0
        &&& self.s6 == 0
        &&& self.s7 == 0
        &&& self.s8 == 0
        &&& self.s9 == 0
        &&& self.s10 == 0
        &&& self.s11 == 0
    }
}

impl Default for Context {
    fn default() -> (r: Context)
        ensures
            r.is_zero(),
    {
        Context {
            ra: 0,
            sp: 0,
            s0: 0,
            s1: 0,
            s2: 0,
            s3: 0,
            s4: 0,
            s5: 0,
            s6: 0,
            s7: 0,
            s8: 0,
            s9: 0,
            s10: 0,
            s11: 0,
        }
    }
}

/// Per-hart state. Only its own hart reads or writes a record.
pub struct Cpu {
    /// The slot of the process running on this hart, if any.
    pub proc: Option<usize>,
    /// The scheduler's saved registers, switched to from `sched_out`.
    pub context: Context,
    /// Depth of `push_off` nesting.
    pub noff: usize,
    /// Were interrupts enabled before the outermost `push_off`?
    pub intena: bool,
    /// The hart's supervisor status register; its SIE bit is the hardware
    /// interrupt enable.
    pub sstatus: u64,
}

impl Cpu {
    /// An idle hart: no process, zeroed context, no nesting, interrupts off.
    pub fn new() -> (r: Cpu)
        ensures
            r.proc is None,
            r.context.is_zero(),
            r.noff == 0,
            !r.intena,
            r.sstatus == 0,
    {
        Cpu { proc: None, context: Context::default(), noff: 0, intena: false, sstatus: 0 }
    }
}

/// The records of all harts, indexed by hart id.
pub struct Cpus {
    pub(crate) cpus: Vec<Cpu>,
}

impl View for Cpus {
    type V = Seq<Cpu>;

    open(crate) spec fn view(&self) -> Seq<Cpu> {
        self.cpus@
    }
}

impl Cpus {
    /// One record per hart, and interrupts masked on every hart that is
    /// inside a `push_off`.
    pub open spec fn wf(&self) -> bool {
        &&& self@.len() == NCPU
        &&& forall|h: int| 0 <= h < NCPU ==> #[trigger] self@[h].noff > 0 ==> !sie_set(self@[h].sstatus)
    }

    /// All harts idle, with interrupts off and no nesting.
    pub fn new() -> (r: Cpus)
        ensures
            r.wf(),
            forall|h: int|
                0 <= h < NCPU ==> {
                    &&& (#[trigger] r@[h]).proc is None
                    &&& r@[h].context.is_zero()
                    &&& r@[h].noff == 0
                    &&& !r@[h].intena
                    &&& r@[h].sstatus == 0
                },
    {
        let mut cpus: Vec<Cpu> = Vec::new();
        let mut i: usize = 0;
        while i < NCPU
            invariant
                i <= NCPU,
                cpus@.len() == i,
                forall|h: int|
                    0 <= h < i ==> {
                        &&& (#[trigger] cpus@[h]).proc is None
                        &&& cpus@[h].context.is_zero()
                        &&& cpus@[h].noff == 0
                        &&& !cpus@[h].intena
                        &&& cpus@[h].sstatus == 0
                    },
            decreases NCPU - i,
        {
            cpus.push(Cpu::new());
            i = i + 1;
        }
        let r = Cpus { cpus };
        r
    }

    /// The record of `hart`.
    pub fn mycpu(&self, hart: usize) -> (r: &Cpu)
        requires
            self.wf(),
            hart < NCPU,
        ensures
            *r == self@[hart as int],
    {
        &self.cpus[hart]
    }

    /// Turns on device interrupts on `hart`, which must be outside any
    /// `push_off`.
    pub fn intr_on(&mut self, hart: usize)
        requires
            old(self).wf(),
            hart < NCPU,
            old(self)@[hart as int].noff == 0,
        ensures
            final(self).wf(),
            final(self)@ == old(self)@.update(
                hart as int,
                Cpu { sstatus: old(self)@[hart as int].sstatus | 2, ..old(self)@[hart as int] },
            ),
    {
        let s = intr_on(self.cpus[hart].sstatus);
        self.cpus[hart].sstatus = s;
        assert(self@ =~= old(self)@.update(
            hart as int,
            Cpu { sstatus: old(self)@[hart as int].sstatus | 2, ..old(self)@[hart as int] },
        ));
    }

    /// The slot of the process running on `hart`, if any.
    pub fn myproc(&self, hart: usize) -> (r: Option<usize>)
        requires
            self.wf(),
            hart < NCPU,
        ensures
            r == self@[hart as int].proc,
    {
        self.cpus[hart].proc
    }
}

/// The lifecycle state of a process slot.
#[derive(Clone, Copy, Debug, PartialEq, Eq, Structural)]
pub enum ProcState {
    Unused,
    Used,
    Sleeping,
    Runnable,
    Running,
    Zombie,
}

/// The part of a process slot that is guarded by the slot's lock.
pub struct ProcControl {
    /// Process state.
    pub state: ProcState,
    /// The channel the process sleeps on, if any.
    pub chan: Option<usize>,
    /// Has the process been killed?
    pub killed: bool,
    /// Exit status to be returned to the parent's wait.
    pub xstate: i32,
    /// Process id.
    pub pid: usize,
}

impl Default for ProcControl {
    fn default() -> (r: ProcControl)
        ensures
            r.state == ProcState::Unused,
            r.chan is None,
            !r.killed,
            r.xstate == 0,
            r.pid == 0,
    {
        ProcControl { state: ProcState::Unused, chan: None, killed: false, xstate: 0, pid: 0 }
    }
}

/// A process slot, reused across process lifetimes.
pub struct Proc {
    /// The guarded state.
    pub control: SpinMutex<ProcControl>,
    // The parent's slot; the wait lock must be held when using this.
    pub parent: Option<usize>,
    // The rest is private to the process, so the lock need not be held.
    /// Virtual address of the kernel stack.
    pub kstack: u64,
    /// Size of process memory in bytes.
    pub sz: u64,
    /// Handle of the user page table.
    pub pagetable: usize,
    /// Handle of the trap frame page.
    pub trapframe: usize,
    /// Saved registers; the scheduler switches here to run the process.
    pub context: Context,
    /// Open files.
    pub file: Vec<Option<File>>,
    /// Current directory.
    pub cwd: Option<Inode>,
    /// Process name, for debugging.
    pub name: String,
}

impl Default for Proc {
    fn default() -> (r: Proc)
        ensures
            r.control.owner() is None,
            r.control.value().state == ProcState::Unused,
            r.control.value().chan is None,
            r.control.value().pid == 0,
            r.parent is None,
            r.context.is_zero(),
            r.file@.len() == NOFILE,
            r.name@.len() == 0,
    {
        let mut file: Vec<Option<File>> = Vec::new();
        let mut i: usize = 0;
        while i < NOFILE
            invariant
                i <= NOFILE,
                file@.len() == i,
            decreases NOFILE - i,
        {
            file.push(None);
            i = i + 1;
        }
        Proc {
            control: SpinMutex::new("proc", ProcControl::default()),
            parent: None,
            kstack: 0,
            sz: 0,
            pagetable: 0,
            trapframe: 0,
            context: Context::default(),
            file,
            cwd: None,
            name: String::new(),
        }
    }
}

/// Where a process stopped when it switched to the scheduler: its slot,
/// and the interrupt-enable state its hart remembered, which belongs to the
/// process and is restored when it is switched back in.
pub struct Suspended {
    pub(crate) slot: usize,
    pub(crate) intena: bool,
}

impl Suspended {
    /// The suspended process's slot.
    pub open(crate) spec fn spec_slot(&self) -> usize {
        self.slot
    }

    /// The remembered interrupt-enable state.
    pub open(crate) spec fn spec_intena(&self) -> bool {
        self.intena
    }
}

/// One line of the process listing.
pub struct DumpLine {
    pub pid: usize,
    pub state: ProcState,
    pub name: String,
}

/// A slot's guarded state after a wakeup on `chan`: a process sleeping on
/// that channel becomes runnable; anything else is left alone. The channel
/// itself is cleared later, when the process resumes.
pub open spec fn woken(c: ProcControl, chan: usize) -> ProcControl {
    if c.state == ProcState::Sleeping && c.chan == Some(chan) {
        ProcControl { state: ProcState::Runnable, ..c }
    } else {
        c
    }
}

/// The slot `p` with its guarded state replaced by `c`.
pub open(crate) spec fn with_ctl(p: Proc, c: ProcControl) -> Proc {
    Proc { control: SpinMutex { data: c, ..p.control }, ..p }
}

/// The slot `p` with its lock free.
pub open(crate) spec fn unlocked(p: Proc) -> Proc {
    Proc { control: SpinMutex { locked: None, ..p.control }, ..p }
}

/// The process listing of the slots `procs`: one line for each slot in
/// use, in slot order.
pub open(crate) spec fn dump_of(procs: Seq<Proc>) -> Seq<DumpLine>
    decreases procs.len(),
{
    if procs.len() == 0 {
        Seq::empty()
    } else {
        let rest = dump_of(procs.drop_last());
        let p = procs.last();
        if p.control.value().state == ProcState::Unused {
            rest
        } else {
            rest.push(
                DumpLine {
                    pid: p.control.value().pid,
                    state: p.control.value().state,
                    name: p.name,
                },
            )
        }
    }
}

/// The process table.
pub struct ProcList {
    pub(crate) list: Vec<Proc>,
    /// Guards the parent links. Must be acquired before any slot lock.
    pub(crate) wait_lock: SpinMutex<()>,
    /// The next process id to hand out.
    pub(crate) next_pid: usize,
}

impl ProcList {
    /// The slots.
    pub open(crate) spec fn slots(&self) -> Seq<Proc> {
        self.list@
    }

    /// The guarded state of slot `i`.
    pub open(crate) spec fn ctl(&self, i: int) -> ProcControl {
        self.list@[i].control.value()
    }

    /// The lock on the parent links.
    pub open(crate) spec fn spec_wait_lock(&self) -> SpinMutex<()> {
        self.wait_lock
    }

    /// The next process id to hand out.
    pub open(crate) spec fn spec_next_pid(&self) -> usize {
        self.next_pid
    }

    /// Whether `pid` has already been handed out.
    pub open(crate) spec fn pid_issued(&self, pid: int) -> bool {
        1 <= pid < self.next_pid
    }

    /// The hart holding the lock of slot `i`, if any.
    pub open(crate) spec fn slot_owner(&self, i: int) -> Option<usize> {
        self.list@[i].control.owner()
    }

    /// Every slot lock is free.
    pub open(crate) spec fn locks_free(&self) -> bool {
        forall|i: int| 0 <= i < NPROC ==> (#[trigger] self.slot_owner(i)) is None
    }

    /// The table's own invariant: one slot per process, a channel for every
    /// sleeper, and the pids of the slots in use issued and pairwise
    /// distinct.
    pub open(crate) spec fn wf(&self) -> bool {
        &&& self.list@.len() == NPROC
        &&& self.next_pid >= 1
        &&& forall|i: int|
            0 <= i < NPROC && (#[trigger] self.ctl(i)).state == ProcState::Sleeping
                ==> self.ctl(i).chan is Some
        &&& forall|i: int|
            0 <= i < NPROC && (#[trigger] self.ctl(i)).state != ProcState::Unused
                ==> self.pid_issued(self.ctl(i).pid as int)
        &&& forall|i: int, j: int|
            0 <= i < NPROC && 0 <= j < NPROC && i != j && (#[trigger] self.ctl(i)).state
                != ProcState::Unused && (#[trigger] self.ctl(j)).state != ProcState::Unused
                ==> self.ctl(i).pid != self.ctl(j).pid
    }

    /// The table and the harts agree: a hart runs at most one process, that
    /// process is marked running, and no two harts run the same one. A slot
    /// lock is held between operations only by the hart that runs the slot's
    /// process, which has just been switched to it and has yet to let go.
    pub open(crate) spec fn consistent(&self, cpus: &Cpus) -> bool {
        &&& self.wf()
        &&& cpus.wf()
        &&& forall|i: int|
            0 <= i < NPROC && (#[trigger] self.slot_owner(i)) is Some ==> {
                let h = self.slot_owner(i)->0 as int;
                &&& 0 <= h < NCPU
                &&& cpus@[h].proc == Some(i as usize)
                &&& cpus@[h].noff > 0
            }
        &&& forall|h: int|
            0 <= h < NCPU && (#[trigger] cpus@[h]).proc is Some ==> {
                &&& cpus@[h].proc->0 < NPROC
                &&& self.ctl(cpus@[h].proc->0 as int).state == ProcState::Running
            }
        &&& forall|h: int, g: int|
            0 <= h < NCPU && 0 <= g < NCPU && h != g && (#[trigger] cpus@[h]).proc is Some
                ==> cpus@[h].proc != (#[trigger] cpus@[g]).proc
    }

    /// An empty table: every slot unused, the wait lock free, and process
    /// ids starting at one.
    pub fn new() -> (r: ProcList)
        ensures
            r.wf(),
            r.spec_next_pid() == 1,
            forall|i: int| 0 <= i < NPROC ==> (#[trigger] r.ctl(i)).state == ProcState::Unused,
            forall|i: int| 0 <= i < NPROC ==> (#[trigger] r.ctl(i)).chan is None,
    {
        let mut list: Vec<Proc> = Vec::new();
        let mut i: usize = 0;
        while i < NPROC
            invariant
                i <= NPROC,
                list@.len() == i,
                forall|j: int|
                    0 <= j < i ==> {
                        &&& (#[trigger] list@[j]).control.owner() is None
                        &&& list@[j].control.value().state == ProcState::Unused
                        &&& list@[j].control.value().chan is None
                    },
            decreases NPROC - i,
        {
            list.push(Proc::default());
            i = i + 1;
        }
        ProcList { list, wait_lock: SpinMutex::new("wait_lock", ()), next_pid: 1 }
    }

    /// Hands out a fresh process id: the counter starts at one and only
    /// grows, so no id is handed out twice.
    pub fn alloc_pid(&mut self) -> (r: usize)
        requires
            old(self).spec_next_pid() < usize::MAX,
        ensures
            r == old(self).spec_next_pid(),
            final(self).spec_next_pid() == r + 1,
            final(self).slots() == old(self).slots(),
            final(self).spec_wait_lock() == old(self).spec_wait_lock(),
            old(self).wf() ==> final(self).wf(),
            !old(self).pid_issued(r as int),
            r >= 1 ==> final(self).pid_issued(r as int),
            forall|p: int| old(self).pid_issued(p) ==> #[trigger] final(self).pid_issued(p),
    {
        let pid = self.next_pid;
        self.next_pid = self.next_pid + 1;
        assert forall|i: int| #[trigger] self.ctl(i) == old(self).ctl(i) by {}
        proof {
            if old(self).wf() {
                assert forall|i: int|
                    0 <= i < NPROC && (#[trigger] self.ctl(i)).state != ProcState::Unused implies self.pid_issued(
                    self.ctl(i).pid as int,
                ) by {
                    assert(old(self).ctl(i) == self.ctl(i));
                }
            }
        }
        pid
    }

    /// Claims the first unused slot for a new process named `name`: under
    /// the slot lock it gets a fresh pid and moves to the used state.
    /// `None` when every slot is taken.
    pub fn alloc_proc(&mut self, cpus: &mut Cpus, hart: usize, name: String) -> (r: Option<usize>)
        requires
            old(self).consistent(old(cpus)),
            old(self).locks_free(),
            hart < NCPU,
            old(cpus)@[hart as int].noff < usize::MAX,
            old(self).spec_next_pid() < usize::MAX,
        ensures
            final(self).consistent(final(cpus)),
            final(self).locks_free(),
            final(self).spec_wait_lock() == old(self).spec_wait_lock(),
            final(cpus)@ == old(cpus)@.update(hart as int, masked_once(old(cpus)@[hart as int])),
            r is None <==> forall|i: int| 0 <= i < NPROC ==> (#[trigger] old(self).ctl(i)).state != ProcState::Unused,
            r is None ==> final(self).slots() == old(self).slots() && final(self).spec_next_pid()
                == old(self).spec_next_pid(),
            r is Some ==> {
                let s = r->0 as int;
                &&& 0 <= s < NPROC
                &&& old(self).ctl(s).state == ProcState::Unused
                &&& forall|j: int| 0 <= j < s ==> (#[trigger] old(self).ctl(j)).state != ProcState::Unused
                &&& final(self).spec_next_pid() == old(self).spec_next_pid() + 1
                &&& final(self).slots().len() == NPROC
                &&& forall|j: int| 0 <= j < NPROC && j != s ==> #[trigger] final(self).slots()[j] == old(self).slots()[j]
                &&& final(self).slots()[s] == (Proc {
                    name: name,
                    ..with_ctl(
                        old(self).slots()[s],
                        ProcControl {
                            state: ProcState::Used,
                            chan: None,
                            killed: false,
                            xstate: 0,
                            pid: old(self).spec_next_pid(),
                        },
                    )
                })
            },
    {
        let ghost c0 = cpus@[hart as int];
        proof {
            lemma_push_pop(c0);
            lemma_push_pop(masked_once(c0));
            assert(pushed(c0) == pushed(masked_once(c0)));
        }
        let mut i: usize = 0;
        while i < NPROC
            invariant
                0 <= i <= NPROC,
                hart < NCPU,
                cpus.wf(),
                old(cpus).wf(),
                c0 == old(cpus)@[hart as int],
                c0.noff < usize::MAX,
                !pop_off_fails(pushed(masked_once(c0))),
                popped(pushed(masked_once(c0))) == masked_once(c0),
                pushed(c0) == pushed(masked_once(c0)),
                i == 0 ==> cpus@ == old(cpus)@,
                i > 0 ==> cpus@ == old(cpus)@.update(hart as int, masked_once(c0)),
                old(self).consistent(old(cpus)),
                old(self).locks_free(),
                old(self).next_pid < usize::MAX,
                self.list@ == old(self).list@,
                self.next_pid == old(self).next_pid,
                self.wait_lock == old(self).wait_lock,
                forall|j: int| 0 <= j < i ==> (#[trigger] old(self).ctl(j)).state != ProcState::Unused,
            decreases NPROC - i,
        {
            assert(old(self).slot_owner(i as int) is None);
            let g = self.list[i].control.lock(cpus, hart);
            if self.list[i].control.data.state == ProcState::Unused {
                let pid = self.alloc_pid();
                self.list[i].control.data.pid = pid;
                self.list[i].control.data.state = ProcState::Used;
                self.list[i].control.data.chan = None;
                self.list[i].control.data.killed = false;
                self.list[i].control.data.xstate = 0;
                self.list[i].name = name;
                self.list[i].control.release(cpus, g);
                proof {
                    assert(self.list@[i as int].control.owner() is None);
                    assert(self.slot_owner(i as int) is None);
                    assert(cpus@ =~= old(cpus)@.update(hart as int, masked_once(c0)));
                    assert forall|j: int| #![auto] 0 <= j < NPROC && j != i implies self.list@[j] == old(self).list@[j] by {}
                    assert forall|j: int| 0 <= j < NPROC implies (#[trigger] self.slot_owner(j)) is None by {
                        if j != i {
                            assert(self.list@[j] == old(self).list@[j]);
                            assert(old(self).slot_owner(j) is None);
                        }
                    }
                    assert forall|j: int| 0 <= j < NPROC && j != i implies #[trigger] self.ctl(j) == old(self).ctl(j) by {
                        assert(self.list@[j] == old(self).list@[j]);
                    }
                    assert forall|j: int|
                        0 <= j < NPROC && j != i && (#[trigger] self.ctl(j)).state != ProcState::Unused
                            implies 1 <= self.ctl(j).pid < pid by {
                        assert(self.ctl(j) == old(self).ctl(j));
                        assert(old(self).pid_issued(old(self).ctl(j).pid as int));
                    }
                }
                return Some(i);
            }
            self.list[i].control.release(cpus, g);
            proof {
                assert(cpus@ =~= old(cpus)@.update(hart as int, masked_once(c0)));
                assert(self.list@ =~= old(self).list@);
            }
            i = i + 1;
        }
        assert forall|j: int| #[trigger] self.ctl(j) == old(self).ctl(j) by {}
        assert forall|j: int| #[trigger] self.slot_owner(j) == old(self).slot_owner(j) by {}
        None
    }

    /// The whole effect of `wakeup(chan)` issued from a hart running `me`:
    /// every slot but the caller's own goes through `woken`, and nothing
    /// else changes.
    pub open(crate) spec fn wakeup_effect(
        pre: ProcList,
        post: ProcList,
        me: Option<usize>,
        chan: usize,
    ) -> bool {
        &&& post.list@.len() == pre.list@.len()
        &&& post.next_pid == pre.next_pid
        &&& post.wait_lock == pre.wait_lock
        &&& forall|i: int|
            0 <= i < pre.list@.len() ==> #[trigger] post.list@[i] == if me == Some(i as usize) {
                pre.list@[i]
            } else {
                with_ctl(pre.list@[i], woken(pre.ctl(i), chan))
            }
    }

    /// Wakes every process sleeping on `chan`, except the one running on the
    /// calling hart, even if that one is itself asleep on `chan`: each other
    /// slot is locked, marked runnable if it sleeps on `chan`, and released.
    /// The caller holds no slot lock but perhaps its own.
    pub fn wakeup(&mut self, cpus: &mut Cpus, hart: usize, chan: usize)
        requires
            old(self).wf(),
            old(cpus).wf(),
            hart < NCPU,
            old(cpus)@[hart as int].noff < usize::MAX,
            old(cpus)@[hart as int].proc is Some ==> old(cpus)@[hart as int].proc->0 < NPROC,
            forall|i: int|
                0 <= i < NPROC && old(cpus)@[hart as int].proc != Some(i as usize)
                    ==> (#[trigger] old(self).slot_owner(i)) is None,
        ensures
            final(self).wf(),
            final(cpus).wf(),
            old(self).consistent(old(cpus)) ==> final(self).consistent(final(cpus)),
            ProcList::wakeup_effect(*old(self), *final(self), old(cpus)@[hart as int].proc, chan),
            final(cpus)@ == old(cpus)@.update(hart as int, masked_once(old(cpus)@[hart as int])),
    {
        let me = cpus.myproc(hart);
        let ghost c0 = cpus@[hart as int];
        proof {
            lemma_push_pop(c0);
        }
        let mut i: usize = 0;
        while i < NPROC
            invariant
                0 <= i <= NPROC,
                hart < NCPU,
                cpus.wf(),
                old(cpus).wf(),
                me == c0.proc,
                c0 == old(cpus)@[hart as int],
                c0.noff < usize::MAX,
                c0.noff > 0 ==> !sie_set(c0.sstatus),
                !pop_off_fails(pushed(masked_once(c0))),
                popped(pushed(masked_once(c0))) == masked_once(c0),
                cpus@ == old(cpus)@ || cpus@ == old(cpus)@.update(hart as int, masked_once(c0)),
                (i >= 1 && me != Some(0usize)) || i >= 2 ==> cpus@ == old(cpus)@.update(
                    hart as int,
                    masked_once(c0),
                ),
                old(self).wf(),
                forall|j: int|
                    0 <= j < NPROC && me != Some(j as usize) ==> (#[trigger] old(self).slot_owner(j)) is None,
                self.list@.len() == NPROC,
                self.next_pid == old(self).next_pid,
                self.wait_lock == old(self).wait_lock,
                forall|j: int|
                    0 <= j < i ==> #[trigger] self.list@[j] == if me == Some(j as usize) {
                        old(self).list@[j]
                    } else {
                        with_ctl(old(self).list@[j], woken(old(self).ctl(j), chan))
                    },
                forall|j: int| i <= j < NPROC ==> #[trigger] self.list@[j] == old(self).list@[j],
            decreases NPROC - i,
        {
            let skip = match me {
                Some(m) => m == i,
                None => false,
            };
            if !skip {
                proof {
                    lemma_push_pop(masked_once(c0));
                    assert(pushed(c0) == pushed(masked_once(c0)));
                    assert(cpus@[hart as int].noff == c0.noff);
                    assert(self.list@[i as int] == old(self).list@[i as int]);
                    assert(old(self).slot_owner(i as int) is None);
                }
                let g = self.list[i].control.lock(cpus, hart);
                let st = self.list[i].control.data.state;
                let ch = self.list[i].control.data.chan;
                if st == ProcState::Sleeping && ch == Some(chan) {
                    self.list[i].control.data.state = ProcState::Runnable;
                }
                self.list[i].control.release(cpus, g);
                assert(cpus@ =~= old(cpus)@.update(hart as int, masked_once(c0)));
            }
            i = i + 1;
        }
        proof {
            assert forall|j: int| 0 <= j < NPROC implies #[trigger] self.ctl(j) == if me == Some(
                j as usize,
            ) {
                old(self).ctl(j)
            } else {
                woken(old(self).ctl(j), chan)
            } by {
                assert(self.list@[j] == if me == Some(j as usize) {
                    old(self).list@[j]
                } else {
                    with_ctl(old(self).list@[j], woken(old(self).ctl(j), chan))
                });
            }
            assert forall|j: int| 0 <= j < NPROC implies #[trigger] self.slot_owner(j) == old(self).slot_owner(j) by {
                assert(self.list@[j] == if me == Some(j as usize) {
                    old(self).list@[j]
                } else {
                    with_ctl(old(self).list@[j], woken(old(self).ctl(j), chan))
                });
            }
        }
    }


    /// Every slot but `p` is as in `pre`, and so are the pid counter and the
    /// wait lock.
    pub open(crate) spec fn others_unchanged(pre: ProcList, post: ProcList, p: int) -> bool {
        &&& post.list@.len() == pre.list@.len()
        &&& post.next_pid == pre.next_pid
        &&& post.wait_lock == pre.wait_lock
        &&& forall|i: int| 0 <= i < pre.list@.len() && i != p ==> #[trigger] post.list@[i] == pre.list@[i]
    }

    /// The process side of the switch to the scheduler, up to the switch.
    /// The caller holds exactly its own slot lock (`guard`), at a nesting
    /// depth of one, with interrupts off, and has already moved its process
    /// out of the running state; anything else is fatal, and left out.
    ///
    /// The interrupt-enable state the hart remembers belongs to the process,
    /// so it is kept in the returned `Suspended`, where the process will find
    /// it again. The register switch itself is the platform's: the hart goes
    /// over to its scheduler, which no longer counts the process as running
    /// and lets go of its slot lock. The process returns from the switch in
    /// `sched_in`, once a scheduler runs it again.
    pub fn sched_out(&mut self, cpus: &mut Cpus, guard: SpinMutexGuard) -> (r: Suspended)
        requires
            old(cpus).wf(),
            guard.spec_hart() < NCPU,
            old(self).slots().len() == NPROC,
            ({
                let c = old(cpus)@[guard.spec_hart() as int];
                &&& c.proc is Some
                &&& c.proc->0 < NPROC
                &&& old(self).slot_owner(c.proc->0 as int) == Some(guard.spec_hart())
                &&& c.noff == 1
                &&& old(self).ctl(c.proc->0 as int).state != ProcState::Running
                &&& !sie_set(c.sstatus)
            }),
        ensures
            final(cpus).wf(),
            ({
                let h = guard.spec_hart() as int;
                let c = old(cpus)@[h];
                let p = c.proc->0 as int;
                &&& r.spec_slot() == p
                &&& r.spec_intena() == c.intena
                &&& final(cpus)@ == old(cpus)@.update(h, Cpu { proc: None, ..popped(c) })
                &&& ProcList::others_unchanged(*old(self), *final(self), p)
                &&& final(self).slots()[p] == unlocked(old(self).slots()[p])
            }),
    {
        let hart = guard.hart;
        let p = match cpus.myproc(hart) {
            Some(p) => p,
            None => 0,
        };
        let intena = cpus.mycpu(hart).intena;
        // On the scheduler's side of the switch.
        cpus.cpus[hart].proc = None;
        self.list[p].control.release(cpus, guard);
        assert(cpus@ =~= old(cpus)@.update(hart as int, Cpu { proc: None, ..popped(old(cpus)@[hart as int]) }));
        Suspended { slot: p, intena }
    }

    /// The process side of the switch back from the scheduler: `hart` has
    /// just been switched into the process that `s` suspended, and still
    /// holds its slot lock, which the scheduler took. The interrupt-enable
    /// state remembered at the switch is restored, and the slot lock's guard
    /// handed back.
    pub fn sched_in(&mut self, cpus: &mut Cpus, hart: usize, s: Suspended) -> (r: SpinMutexGuard)
        requires
            old(cpus).wf(),
            hart < NCPU,
            s.spec_slot() < old(self).slots().len(),
            old(cpus)@[hart as int].proc == Some(s.spec_slot()),
            old(self).slot_owner(s.spec_slot() as int) == Some(hart),
        ensures
            final(cpus).wf(),
            r.spec_hart() == hart,
            final(self).slots() == old(self).slots(),
            final(self).spec_next_pid() == old(self).spec_next_pid(),
            final(self).spec_wait_lock() == old(self).spec_wait_lock(),
            final(self).slot_owner(s.spec_slot() as int) == Some(hart),
            final(cpus)@ == old(cpus)@.update(
                hart as int,
                Cpu { intena: s.spec_intena(), ..old(cpus)@[hart as int] },
            ),
    {
        cpus.cpus[hart].intena = s.intena;
        assert(cpus@ =~= old(cpus)@.update(hart as int, Cpu { intena: s.intena, ..old(cpus)@[hart as int] }));
        SpinMutexGuard { hart }
    }

    /// Puts the calling hart's process to sleep on `chan`, releasing `lk`,
    /// up to the switch to the scheduler. The slot lock is taken before `lk`
    /// is let go and is held until the hart has left the process, so a
    /// wakeup cannot slip in between. Returns where the process stopped;
    /// `sleep_in` takes it up again once the process has been woken and a
    /// scheduler runs it. A hart with no process does nothing.
    ///
    /// `lk` must be the only lock the hart holds, as `sched_out` asks for
    /// the slot lock alone. `lk` is let go directly, not through its guard,
    /// which the caller gets back from `sleep_in`. Whether letting go this
    /// way should also skip undoing the nesting level that `lk` took is an
    /// open choice; here it does undo it. Skipping it would leave the hart
    /// two levels deep at `sched_out`, which is fatal, so every sleep would
    /// halt the kernel.
    pub fn sleep_out<T>(
        &mut self,
        cpus: &mut Cpus,
        chan: usize,
        lk: &mut SpinMutex<T>,
        guard: SpinMutexGuard,
    ) -> (r: Option<Suspended>)
        requires
            old(self).consistent(old(cpus)),
            guard.spec_hart() < NCPU,
            old(lk).owner() == Some(guard.spec_hart()),
            old(cpus)@[guard.spec_hart() as int].proc is Some ==> {
                let p = old(cpus)@[guard.spec_hart() as int].proc->0 as int;
                &&& old(cpus)@[guard.spec_hart() as int].noff == 1
                &&& old(self).slot_owner(p) is None
            },
        ensures
            ({
                let h = guard.spec_hart() as int;
                let c = old(cpus)@[h];
                let p = c.proc->0 as int;
                if c.proc is None {
                    r is None && *final(self) == *old(self) && final(cpus)@ == old(cpus)@
                        && *final(lk) == *old(lk)
                } else {
                    &&& r is Some
                    &&& r->0.spec_slot() == p
                    &&& r->0.spec_intena() == c.intena
                    &&& final(self).consistent(final(cpus))
                    &&& final(cpus)@ == old(cpus)@.update(h, Cpu { proc: None, ..popped(c) })
                    &&& final(lk).owner() is None
                    &&& final(lk).value() == old(lk).value()
                    &&& ProcList::others_unchanged(*old(self), *final(self), p)
                    &&& final(self).slots()[p] == with_ctl(
                        old(self).slots()[p],
                        ProcControl {
                            state: ProcState::Sleeping,
                            chan: Some(chan),
                            ..old(self).ctl(p)
                        },
                    )
                }
            }),
    {
        let hart = guard.hart;
        let p = match cpus.myproc(hart) {
            Some(p) => p,
            None => return None,
        };
        let ghost c0 = cpus@[hart as int];
        proof {
            lemma_push_pop(c0);
        }
        // Holding the slot lock, no wakeup can be missed while `lk` is let go.
        let g = self.list[p].control.lock(cpus, hart);
        lk.force_unlock();
        pop_off(cpus, hart);
        // Go to sleep.
        self.list[p].control.data.chan = Some(chan);
        self.list[p].control.data.state = ProcState::Sleeping;
        proof {
            assert(cpus@[hart as int] == popped(pushed(c0)));
        }
        let s = self.sched_out(cpus, g);
        proof {
            assert(Cpu { proc: None, ..popped(popped(pushed(c0))) } == Cpu { proc: None, ..popped(c0) });
            assert(cpus@ =~= old(cpus)@.update(hart as int, Cpu { proc: None, ..popped(c0) }));
            assert forall|i: int| #![auto] 0 <= i < NPROC && i != p implies self.list@[i] == old(self).list@[i] by {}
            assert forall|i: int| 0 <= i < NPROC implies #[trigger] self.ctl(i) == if i == p {
                ProcControl { state: ProcState::Sleeping, chan: Some(chan), ..old(self).ctl(i) }
            } else {
                old(self).ctl(i)
            } by {}
            assert forall|i: int| 0 <= i < NPROC implies #[trigger] self.slot_owner(i) == if i == p {
                None
            } else {
                old(self).slot_owner(i)
            } by {}
        }
        Some(s)
    }

    /// The rest of going to sleep, in the process that `s` suspended, once a
    /// scheduler on `hart` has switched back into it: back from the switch
    /// with its slot lock held and its interrupt-enable state restored, it
    /// clears its channel, lets go of the slot lock, and takes `lk` again
    /// through `lock`. The hart is then one level deep, as when `sleep_out`
    /// was called, and holds `lk`; the guard returned stands for it.
    pub fn sleep_in<T>(
        &mut self,
        cpus: &mut Cpus,
        hart: usize,
        s: Suspended,
        lk: &mut SpinMutex<T>,
    ) -> (r: SpinMutexGuard)
        requires
            old(self).consistent(old(cpus)),
            hart < NCPU,
            s.spec_slot() < NPROC,
            old(cpus)@[hart as int].proc == Some(s.spec_slot()),
            old(self).slot_owner(s.spec_slot() as int) == Some(hart),
            old(cpus)@[hart as int].noff == 1,
            old(lk).owner() is None,
        ensures
            ({
                let p = s.spec_slot() as int;
                let c = old(cpus)@[hart as int];
                &&& final(self).consistent(final(cpus))
                &&& r.spec_hart() == hart
                &&& acquired(*old(lk), *final(lk), hart)
                &&& final(cpus)@ == old(cpus)@.update(hart as int, Cpu { intena: s.spec_intena(), ..c })
                &&& final(cpus)@[hart as int].noff == 1
                &&& ProcList::others_unchanged(*old(self), *final(self), p)
                &&& final(self).slots()[p] == unlocked(
                    with_ctl(old(self).slots()[p], ProcControl { chan: None, ..old(self).ctl(p) }),
                )
                &&& final(self).slot_owner(p) is None
                &&& final(self).ctl(p).chan is None
                &&& final(self).ctl(p).state == old(self).ctl(p).state
                &&& final(self).ctl(p).pid == old(self).ctl(p).pid
                &&& final(self).ctl(p).killed == old(self).ctl(p).killed
                &&& final(self).ctl(p).xstate == old(self).ctl(p).xstate
            }),
    {
        let p = s.slot;
        let ghost c0 = cpus@[hart as int];
        let ghost c1 = Cpu { intena: s.intena, ..c0 };
        proof {
            lemma_push_pop(popped(c1));
            let x = c0.sstatus;
            assert((x & 2u64 == 0) ==> ((x | 2u64) & !2u64) == x && (x | 2u64) & 2u64 != 0) by (bit_vector);
        }
        let g = self.sched_in(cpus, hart, s);
        // Tidy up.
        self.list[p].control.data.chan = None;
        self.list[p].control.release(cpus, g);
        // Reacquire the original lock.
        let r = lk.lock(cpus, hart);
        proof {
            assert(pushed(popped(c1)) == c1);
            assert(cpus@ =~= old(cpus)@.update(hart as int, c1));
            assert forall|i: int| #![auto] 0 <= i < NPROC && i != p implies self.list@[i] == old(self).list@[i] by {}
            assert forall|i: int| 0 <= i < NPROC implies #[trigger] self.ctl(i) == if i == p {
                ProcControl { chan: None, ..old(self).ctl(i) }
            } else {
                old(self).ctl(i)
            } by {}
            assert forall|i: int| 0 <= i < NPROC implies #[trigger] self.slot_owner(i) == if i == p {
                None
            } else {
                old(self).slot_owner(i)
            } by {}
        }
        r
    }

    /// One step of a hart's scheduler loop, on an idle hart holding no lock:
    /// lock `slot`, and if its process is runnable, mark it running, record
    /// it as the hart's process and switch to it. The process resumes where
    /// it left off, still holding its slot lock: in `sleep_in` when it went
    /// to sleep, in `forkret` when it has not run before. When the process
    /// is not runnable, the slot lock is let go again. Returns whether the
    /// process was run.
    pub fn run(&mut self, cpus: &mut Cpus, hart: usize, slot: usize) -> (r: bool)
        requires
            old(self).consistent(old(cpus)),
            hart < NCPU,
            slot < NPROC,
            old(cpus)@[hart as int].proc is None,
            old(cpus)@[hart as int].noff == 0,
            old(self).slot_owner(slot as int) is None,
        ensures
            final(self).consistent(final(cpus)),
            r == (old(self).ctl(slot as int).state == ProcState::Runnable),
            ProcList::others_unchanged(*old(self), *final(self), slot as int),
            !r ==> final(self).slots() == old(self).slots() && final(cpus)@ == old(cpus)@.update(
                hart as int,
                masked_once(old(cpus)@[hart as int]),
            ),
            r ==> final(self).ctl(slot as int) == (ProcControl {
                state: ProcState::Running,
                ..old(self).ctl(slot as int)
            }) && final(self).slot_owner(slot as int) == Some(hart) && final(cpus)@ == old(
                cpus,
            )@.update(hart as int, Cpu { proc: Some(slot), ..pushed(old(cpus)@[hart as int]) }),
    {
        let ghost c0 = cpus@[hart as int];
        proof {
            lemma_push_pop(c0);
        }
        let g = self.list[slot].control.lock(cpus, hart);
        let ran = self.list[slot].control.data.state == ProcState::Runnable;
        if ran {
            self.list[slot].control.data.state = ProcState::Running;
            cpus.cpus[hart].proc = Some(slot);
            proof {
                assert(cpus@ =~= old(cpus)@.update(hart as int, Cpu { proc: Some(slot), ..pushed(c0) }));
            }
        } else {
            self.list[slot].control.release(cpus, g);
            proof {
                assert(cpus@ =~= old(cpus)@.update(hart as int, masked_once(c0)));
                assert(self.list@ =~= old(self).list@);
            }
        }
        proof {
            assert forall|i: int| #![auto] 0 <= i < NPROC && i != slot implies self.list@[i] == old(self).list@[i] by {}
            assert forall|i: int| 0 <= i < NPROC && i != slot implies #[trigger] self.ctl(i) == old(self).ctl(i) by {}
            assert forall|i: int| 0 <= i < NPROC && i != slot implies #[trigger] self.slot_owner(i) == old(self).slot_owner(i) by {}
        }
        ran
    }

    /// The first thing a process does when first switched to: let go of the
    /// slot lock that the scheduler took for it.
    pub fn forkret(&mut self, cpus: &mut Cpus, hart: usize)
        requires
            old(self).consistent(old(cpus)),
            hart < NCPU,
            old(cpus)@[hart as int].proc is Some,
            old(self).slot_owner(old(cpus)@[hart as int].proc->0 as int) == Some(hart),
        ensures
            ({
                let p = old(cpus)@[hart as int].proc->0 as int;
                &&& final(self).consistent(final(cpus))
                &&& final(cpus)@ == old(cpus)@.update(hart as int, popped(old(cpus)@[hart as int]))
                &&& ProcList::others_unchanged(*old(self), *final(self), p)
                &&& final(self).slots()[p] == unlocked(old(self).slots()[p])
            }),
    {
        let p = match cpus.myproc(hart) {
            Some(p) => p,
            None => 0,
        };
        self.list[p].control.release(cpus, SpinMutexGuard { hart });
        proof {
            assert forall|i: int| #![auto] 0 <= i < NPROC && i != p implies self.list@[i] == old(self).list@[i] by {}
            assert forall|i: int| 0 <= i < NPROC implies #[trigger] self.ctl(i) == old(self).ctl(i) by {}
            assert forall|i: int| 0 <= i < NPROC && i != p implies #[trigger] self.slot_owner(i) == old(self).slot_owner(i) by {}
        }
    }

    /// Marks an allocated process runnable, under its slot lock, as the
    /// last step of creating it. Returns whether `slot` was in the used
    /// state; any other slot is left alone.
    pub fn make_runnable(&mut self, cpus: &mut Cpus, hart: usize, slot: usize) -> (r: bool)
        requires
            old(self).consistent(old(cpus)),
            hart < NCPU,
            slot < NPROC,
            old(cpus)@[hart as int].noff < usize::MAX,
            old(self).slot_owner(slot as int) is None,
        ensures
            final(self).consistent(final(cpus)),
            r == (old(self).ctl(slot as int).state == ProcState::Used),
            ProcList::others_unchanged(*old(self), *final(self), slot as int),
            !r ==> final(self).slots() == old(self).slots(),
            r ==> final(self).slots()[slot as int] == with_ctl(
                old(self).slots()[slot as int],
                ProcControl { state: ProcState::Runnable, ..old(self).ctl(slot as int) },
            ),
            final(cpus)@ == old(cpus)@.update(hart as int, masked_once(old(cpus)@[hart as int])),
    {
        let ghost c0 = cpus@[hart as int];
        proof {
            lemma_push_pop(c0);
        }
        let g = self.list[slot].control.lock(cpus, hart);
        let used = self.list[slot].control.data.state == ProcState::Used;
        if used {
            self.list[slot].control.data.state = ProcState::Runnable;
        }
        self.list[slot].control.release(cpus, g);
        proof {
            assert(cpus@ =~= old(cpus)@.update(hart as int, masked_once(c0)));
            assert forall|i: int| #![auto] 0 <= i < NPROC && i != slot implies self.list@[i] == old(self).list@[i] by {}
            assert forall|i: int| 0 <= i < NPROC implies #[trigger] self.slot_owner(i) == old(self).slot_owner(i) by {
                if i != slot {
                    assert(self.list@[i] == old(self).list@[i]);
                }
            }
            assert forall|i: int| #![auto] 0 <= i < NPROC && i != slot implies self.ctl(i) == old(self).ctl(i) by {}
            if !used {
                assert(self.list@ =~= old(self).list@);
            }
        }
        used
    }

    /// The state of slot `slot`, read without its lock.
    pub fn state(&self, slot: usize) -> (r: ProcState)
        requires
            slot < self.slots().len(),
        ensures
            r == self.ctl(slot as int).state,
    {
        self.list[slot].control.data.state
    }

    /// The channel slot `slot` sleeps on, read without its lock.
    pub fn chan(&self, slot: usize) -> (r: Option<usize>)
        requires
            slot < self.slots().len(),
        ensures
            r == self.ctl(slot as int).chan,
    {
        self.list[slot].control.data.chan
    }

    /// The pid of slot `slot`, read without its lock.
    pub fn pid(&self, slot: usize) -> (r: usize)
        requires
            slot < self.slots().len(),
        ensures
            r == self.ctl(slot as int).pid,
    {
        self.list[slot].control.data.pid
    }

    /// Whether `hart` holds the lock of slot `slot`.
    pub fn slot_holding(&self, slot: usize, hart: usize) -> (r: bool)
        requires
            slot < self.slots().len(),
        ensures
            r == (self.slots()[slot as int].control.owner() == Some(hart)),
    {
        self.list[slot].control.holding(hart)
    }

    /// The process listing, slot by slot: pid, state and name of every slot
    /// in use. It reads without taking any lock, so that it can run on a
    /// wedged machine; it changes nothing.
    pub fn proc_dump(&self) -> (r: Vec<DumpLine>)
        ensures
            r@ == dump_of(self.slots()),
    {
        let mut out: Vec<DumpLine> = Vec::new();
        let mut i: usize = 0;
        while i < self.list.len()
            invariant
                0 <= i <= self.list@.len(),
                out@ == dump_of(self.list@.subrange(0, i as int)),
            decreases self.list@.len() - i,
        {
            let p = &self.list[i];
            proof {
                assert(self.list@.subrange(0, i + 1).drop_last() =~= self.list@.subrange(0, i as int));
            }
            if p.control.data.state != ProcState::Unused {
                out.push(
                    DumpLine { pid: p.control.data.pid, state: p.control.data.state, name: p.name.clone() },
                );
            }
            i = i + 1;
        }
        assert(self.list@.subrange(0, self.list@.len() as int) =~= self.list@);
        out
    }

}

/// A wakeup never changes the slot of the process running on the calling
/// hart, whatever its state: even when that process is itself asleep on the
/// channel woken, it stays asleep.
pub proof fn lemma_wakeup_spares_caller(pre: ProcList, post: ProcList, me: usize, chan: usize)
    requires
        ProcList::wakeup_effect(pre, post, Some(me), chan),
        me < pre.slots().len(),
    ensures
        post.slots()[me as int] == pre.slots()[me as int],
        post.ctl(me as int) == pre.ctl(me as int),
{
    assert(post.list@[me as int] == pre.list@[me as int]);
}

/// Process ids handed out one after another are pairwise distinct, with any
/// operations in between that do not move the counter back (none does).
/// `before[k]` and `after[k]` are the table around the `k`-th `alloc_pid`,
/// which returned `pids[k]`.
pub proof fn lemma_pids_distinct(before: Seq<ProcList>, after: Seq<ProcList>, pids: Seq<usize>)
    requires
        before.len() == pids.len(),
        after.len() == pids.len(),
        forall|k: int|
            0 <= k < pids.len() ==> #[trigger] pids[k] == before[k].spec_next_pid()
                && after[k].spec_next_pid() == pids[k] + 1,
        forall|k: int|
            0 <= k < pids.len() - 1 ==> #[trigger] after[k].spec_next_pid() <= before[k
                + 1].spec_next_pid(),
    ensures
        forall|a: int, b: int| 0 <= a < b < pids.len() ==> pids[a] < pids[b],
        forall|a: int, b: int| 0 <= a < pids.len() && 0 <= b < pids.len() && a != b ==> pids[a] != pids[b],
    decreases pids.len(),
{
    if pids.len() > 0 {
        let n = pids.len() - 1;
        lemma_pids_distinct(before.subrange(0, n), after.subrange(0, n), pids.subrange(0, n));
        assert forall|a: int| 0 <= a < n implies pids[a] < pids[n] by {
            lemma_pids_grow(before, after, pids, a, n);
        }
        assert forall|a: int, b: int| 0 <= a < b < pids.len() implies pids[a] < pids[b] by {
            if b < n {
                assert(pids.subrange(0, n)[a] == pids[a]);
                assert(pids.subrange(0, n)[b] == pids[b]);
            }
        }
    }
}

/// The counter only grows from the `a`-th allocation to the `b`-th.
proof fn lemma_pids_grow(before: Seq<ProcList>, after: Seq<ProcList>, pids: Seq<usize>, a: int, b: int)
    requires
        before.len() == pids.len(),
        after.len() == pids.len(),
        forall|k: int|
            0 <= k < pids.len() ==> #[trigger] pids[k] == before[k].spec_next_pid()
                && after[k].spec_next_pid() == pids[k] + 1,
        forall|k: int|
            0 <= k < pids.len() - 1 ==> #[trigger] after[k].spec_next_pid() <= before[k
                + 1].spec_next_pid(),
        0 <= a < b < pids.len(),
    ensures
        pids[a] < pids[b],
    decreases b - a,
{
    assert(pids[a] == before[a].spec_next_pid());
    assert(after[a].spec_next_pid() <= before[a + 1].spec_next_pid());
    assert(pids[a + 1] == before[a + 1].spec_next_pid());
    if a + 1 < b {
        lemma_pids_grow(before, after, pids, a + 1, b);
    }
}

/// No lost and no doubled wakeup. Take a process asleep in slot `s` on
/// channel `chans[k]`, and a run of steps, each either a wakeup on `chans[t]`
/// from a hart that does not run it, or any other operation that leaves slot
/// `s` alone (such as other processes going to sleep). If its channel is
/// woken at step `k` and at no other, the process stays asleep up to step
/// `k` and is runnable from then on: it becomes runnable exactly once.
pub proof fn lemma_woken_once(
    trace: Seq<ProcList>,
    wakes: Seq<bool>,
    me: Seq<Option<usize>>,
    chans: Seq<usize>,
    s: int,
    k: int,
)
    requires
        trace.len() == wakes.len() + 1,
        me.len() == wakes.len(),
        chans.len() == wakes.len(),
        0 <= k < wakes.len(),
        0 <= s < trace[0].slots().len(),
        trace[0].ctl(s).state == ProcState::Sleeping,
        trace[0].ctl(s).chan == Some(chans[k]),
        wakes[k],
        forall|t: int|
            0 <= t < wakes.len() && #[trigger] wakes[t] ==> ProcList::wakeup_effect(
                trace[t],
                trace[t + 1],
                me[t],
                chans[t],
            ) && me[t] != Some(s as usize),
        forall|t: int|
            0 <= t < wakes.len() && !#[trigger] wakes[t] ==> trace[t + 1].slots().len()
                == trace[t].slots().len() && trace[t + 1].ctl(s) == trace[t].ctl(s),
        forall|t: int| 0 <= t < wakes.len() && #[trigger] wakes[t] && t != k ==> chans[t] != chans[k],
    ensures
        forall|t: int| 0 <= t <= k ==> (#[trigger] trace[t].ctl(s)) == trace[0].ctl(s),
        forall|t: int|
            k < t <= wakes.len() ==> (#[trigger] trace[t].ctl(s)) == (ProcControl {
                state: ProcState::Runnable,
                ..trace[0].ctl(s)
            }),
{
    lemma_woken_prefix(trace, wakes, me, chans, s, k, k);
    lemma_woken_suffix(trace, wakes, me, chans, s, k, wakes.len() as int);
}

proof fn lemma_woken_prefix(
    trace: Seq<ProcList>,
    wakes: Seq<bool>,
    me: Seq<Option<usize>>,
    chans: Seq<usize>,
    s: int,
    k: int,
    u: int,
)
    requires
        trace.len() == wakes.len() + 1,
        me.len() == wakes.len(),
        chans.len() == wakes.len(),
        0 <= k < wakes.len(),
        0 <= u <= k,
        0 <= s < trace[0].slots().len(),
        trace[0].ctl(s).state == ProcState::Sleeping,
        trace[0].ctl(s).chan == Some(chans[k]),
        forall|t: int|
            0 <= t < wakes.len() && #[trigger] wakes[t] ==> ProcList::wakeup_effect(
                trace[t],
                trace[t + 1],
                me[t],
                chans[t],
            ) && me[t] != Some(s as usize),
        forall|t: int|
            0 <= t < wakes.len() && !#[trigger] wakes[t] ==> trace[t + 1].slots().len()
                == trace[t].slots().len() && trace[t + 1].ctl(s) == trace[t].ctl(s),
        forall|t: int| 0 <= t < wakes.len() && #[trigger] wakes[t] && t != k ==> chans[t] != chans[k],
    ensures
        forall|t: int| 0 <= t <= u ==> (#[trigger] trace[t].ctl(s)) == trace[0].ctl(s),
        forall|t: int| 0 <= t <= u ==> (#[trigger] trace[t].slots().len()) == trace[0].slots().len(),
    decreases u,
{
    if u > 0 {
        lemma_woken_prefix(trace, wakes, me, chans, s, k, u - 1);
        let t = u - 1;
        assert(trace[t].ctl(s) == trace[0].ctl(s));
        assert(trace[t].slots().len() == trace[0].slots().len());
        if wakes[t] {
            assert(ProcList::wakeup_effect(trace[t], trace[t + 1], me[t], chans[t]));
            assert(trace[t + 1].list@[s] == with_ctl(trace[t].list@[s], woken(trace[t].ctl(s), chans[t])));
        }
    }
}

proof fn lemma_woken_suffix(
    trace: Seq<ProcList>,
    wakes: Seq<bool>,
    me: Seq<Option<usize>>,
    chans: Seq<usize>,
    s: int,
    k: int,
    u: int,
)
    requires
        trace.len() == wakes.len() + 1,
        me.len() == wakes.len(),
        chans.len() == wakes.len(),
        0 <= k < u <= wakes.len(),
        0 <= s < trace[0].slots().len(),
        trace[0].ctl(s).state == ProcState::Sleeping,
        trace[0].ctl(s).chan == Some(chans[k]),
        wakes[k],
        forall|t: int|
            0 <= t < wakes.len() && #[trigger] wakes[t] ==> ProcList::wakeup_effect(
                trace[t],
                trace[t + 1],
                me[t],
                chans[t],
            ) && me[t] != Some(s as usize),
        forall|t: int|
            0 <= t < wakes.len() && !#[trigger] wakes[t] ==> trace[t + 1].slots().len()
                == trace[t].slots().len() && trace[t + 1].ctl(s) == trace[t].ctl(s),
        forall|t: int| 0 <= t < wakes.len() && #[trigger] wakes[t] && t != k ==> chans[t] != chans[k],
    ensures
        forall|t: int|
            k < t <= u ==> (#[trigger] trace[t].ctl(s)) == (ProcControl {
                state: ProcState::Runnable,
                ..trace[0].ctl(s)
            }),
        forall|t: int| k < t <= u ==> (#[trigger] trace[t].slots().len()) == trace[0].slots().len(),
    decreases u,
{
    let runnable = ProcControl { state: ProcState::Runnable, ..trace[0].ctl(s) };
    if u == k + 1 {
        lemma_woken_prefix(trace, wakes, me, chans, s, k, k);
        assert(trace[k].slots().len() == trace[0].slots().len());
        assert(trace[k].ctl(s) == trace[0].ctl(s));
        assert(ProcList::wakeup_effect(trace[k], trace[k + 1], me[k], chans[k]));
        assert(trace[k + 1].list@[s] == with_ctl(trace[k].list@[s], woken(trace[k].ctl(s), chans[k])));
        assert(trace[k + 1].ctl(s) == runnable);
    } else {
        lemma_woken_suffix(trace, wakes, me, chans, s, k, u - 1);
        let t = u - 1;
        assert(trace[t].ctl(s) == runnable);
        assert(trace[t].slots().len() == trace[0].slots().len());
        if wakes[t] {
            assert(ProcList::wakeup_effect(trace[t], trace[t + 1], me[t], chans[t]));
            assert(trace[t + 1].list@[s] == with_ctl(trace[t].list@[s], woken(trace[t].ctl(s), chans[t])));
        }
    }
}

} // verus!
