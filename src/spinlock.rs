//! Mutual-exclusion spin locks bound to harts, and the matched interrupt
//! masking (`push_off` / `pop_off`) that every lock acquisition goes through.
use vstd::prelude::*;

use crate::param::NCPU;
use crate::proc::{Cpu, Cpus};
use crate::riscv::{intr_get, intr_off, intr_on, sie_set, SSTATUS_SIE};

verus! {

/// A hart's record after `push_off`: interrupts masked, one level deeper,
/// and the previous interrupt state remembered at the outermost level.
pub open spec fn pushed(c: Cpu) -> Cpu {
    Cpu {
        noff: (c.noff + 1) as usize,
        intena: if c.noff == 0 {
            sie_set(c.sstatus)
        } else {
            c.intena
        },
        sstatus: c.sstatus & !SSTATUS_SIE,
        ..c
    }
}

/// A hart's record after a successful `pop_off`: one level shallower, and
/// interrupts enabled again when the outermost level was entered with them on.
pub open spec fn popped(c: Cpu) -> Cpu {
    Cpu {
        noff: (c.noff - 1) as usize,
        sstatus: if c.noff == 1 && c.intena {
            c.sstatus | SSTATUS_SIE
        } else {
            c.sstatus
        },
        ..c
    }
}

/// Whether `pop_off` on this record would be fatal: interrupts are enabled,
/// or no `push_off` is outstanding.
pub open spec fn pop_off_fails(c: Cpu) -> bool {
    sie_set(c.sstatus) || c.noff == 0
}

/// A hart's record after a balanced `push_off` / `pop_off` pair: only the
/// remembered interrupt state can differ, and only at the outermost level.
pub open spec fn masked_once(c: Cpu) -> Cpu {
    Cpu {
        intena: if c.noff == 0 {
            sie_set(c.sstatus)
        } else {
            c.intena
        },
        ..c
    }
}

/// Disables interrupts on `hart` and records one more level of nesting.
/// The interrupt state before the outermost level is remembered, so that the
/// matching `pop_off` can restore it.
pub fn push_off(cpus: &mut Cpus, hart: usize)
    requires
        old(cpus).wf(),
        hart < NCPU,
        old(cpus)@[hart as int].noff < usize::MAX,
    ensures
        final(cpus).wf(),
        final(cpus)@ == old(cpus)@.update(hart as int, pushed(old(cpus)@[hart as int])),
{
    let old = intr_get(cpus.cpus[hart].sstatus);
    let off = intr_off(cpus.cpus[hart].sstatus);
    cpus.cpus[hart].sstatus = off;
    if cpus.cpus[hart].noff == 0 {
        cpus.cpus[hart].intena = old;
    }
    cpus.cpus[hart].noff = cpus.cpus[hart].noff + 1;
}

/// Undoes one `push_off` on `hart`: interrupts come back on only when the
/// outermost level is left and they were on before it. Calling it with
/// interrupts enabled, or with no `push_off` outstanding, is fatal; such
/// calls are left out.
pub fn pop_off(cpus: &mut Cpus, hart: usize)
    requires
        old(cpus).wf(),
        hart < NCPU,
        !pop_off_fails(old(cpus)@[hart as int]),
    ensures
        final(cpus).wf(),
        final(cpus)@ == old(cpus)@.update(hart as int, popped(old(cpus)@[hart as int])),
{
    cpus.cpus[hart].noff = cpus.cpus[hart].noff - 1;
    if cpus.cpus[hart].noff == 0 && cpus.cpus[hart].intena {
        let on = intr_on(cpus.cpus[hart].sstatus);
        cpus.cpus[hart].sstatus = on;
    }
}

/// A mutual-exclusion lock whose owner is a hart.
pub struct SpinMutex<T> {
    /// The hart holding the lock, if any.
    pub(crate) locked: Option<usize>,
    /// Name of the lock, for diagnostics.
    pub(crate) name: &'static str,
    /// The data protected by the lock.
    pub(crate) data: T,
}

/// Proof that a hart acquired a lock; handed back to release it.
pub struct SpinMutexGuard {
    pub(crate) hart: usize,
}

impl SpinMutexGuard {
    /// The hart that acquired the lock.
    pub open(crate) spec fn spec_hart(&self) -> usize {
        self.hart
    }

    /// The hart that acquired the lock.
    #[verifier::when_used_as_spec(spec_hart)]
    pub fn hart(&self) -> (r: usize)
        ensures
            r == self.spec_hart(),
    {
        self.hart
    }
}

/// A `lock` by `hart` took `pre` to `post`.
pub open spec fn acquired<T>(pre: SpinMutex<T>, post: SpinMutex<T>, hart: usize) -> bool {
    &&& pre.owner() is None
    &&& post.owner() == Some(hart)
    &&& post.value() == pre.value()
}

/// A release of `hart`'s guard took `pre` to `post`.
pub open spec fn released<T>(pre: SpinMutex<T>, post: SpinMutex<T>, hart: usize) -> bool {
    &&& pre.owner() == Some(hart)
    &&& post.owner() is None
    &&& post.value() == pre.value()
}

impl<T> SpinMutex<T> {
    /// The hart holding the lock, if any.
    pub open(crate) spec fn owner(&self) -> Option<usize> {
        self.locked
    }

    /// The protected data.
    pub open(crate) spec fn value(&self) -> T {
        self.data
    }

    /// The lock's name.
    pub open(crate) spec fn spec_name(&self) -> &'static str {
        self.name
    }

    /// An unlocked lock around `t`.
    pub fn new(name: &'static str, t: T) -> (r: SpinMutex<T>)
        ensures
            r.owner() is None,
            r.value() == t,
            r.spec_name() == name,
    {
        SpinMutex { locked: None, name, data: t }
    }

    /// The lock's name.
    pub fn name(&self) -> (r: &'static str)
        ensures
            r == self.spec_name(),
    {
        self.name
    }

    /// Whether `hart` holds the lock.
    pub fn holding(&self, hart: usize) -> (r: bool)
        ensures
            r == (self.owner() == Some(hart)),
    {
        match self.locked {
            Some(h) => h == hart,
            None => false,
        }
    }

    /// Acquires the lock for `hart`, masking its interrupts first.
    ///
    /// Taking a lock that the hart already holds is fatal, so the lock must
    /// be free. A lock held by another hart would be spun on until that hart
    /// let go, which a call on one hart cannot bring about.
    pub fn lock(&mut self, cpus: &mut Cpus, hart: usize) -> (r: SpinMutexGuard)
        requires
            old(cpus).wf(),
            hart < NCPU,
            old(cpus)@[hart as int].noff < usize::MAX,
            old(self).owner() is None,
        ensures
            final(cpus).wf(),
            r.spec_hart() == hart,
            acquired(*old(self), *final(self), hart),
            final(self).spec_name() == old(self).spec_name(),
            final(cpus)@ == old(cpus)@.update(hart as int, pushed(old(cpus)@[hart as int])),
    {
        push_off(cpus, hart);
        self.locked = Some(hart);
        SpinMutexGuard { hart }
    }

    /// Releases the lock that `guard` stands for, then undoes the masking of
    /// its acquisition. Releasing a lock the guard's hart does not hold is
    /// fatal, and so is undoing a nesting level that is not there.
    pub fn release(&mut self, cpus: &mut Cpus, guard: SpinMutexGuard)
        requires
            old(cpus).wf(),
            guard.spec_hart() < NCPU,
            old(self).owner() == Some(guard.spec_hart()),
            old(cpus)@[guard.spec_hart() as int].noff > 0,
        ensures
            final(cpus).wf(),
            released(*old(self), *final(self), guard.spec_hart()),
            final(self).spec_name() == old(self).spec_name(),
            final(cpus)@ == old(cpus)@.update(
                guard.spec_hart() as int,
                popped(old(cpus)@[guard.spec_hart() as int]),
            ),
    {
        let hart = guard.hart;
        self.locked = None;
        pop_off(cpus, hart);
    }

    /// Clears the owner without any other bookkeeping.
    pub fn force_unlock(&mut self)
        ensures
            final(self).owner() is None,
            final(self).value() == old(self).value(),
            final(self).spec_name() == old(self).spec_name(),
    {
        self.locked = None;
    }

    /// The protected data, for the hart that holds the lock.
    pub fn get(&self, guard: &SpinMutexGuard) -> (r: &T)
        requires
            self.owner() == Some(guard.spec_hart()),
        ensures
            *r == self.value(),
    {
        &self.data
    }

    /// Replaces the protected data, for the hart that holds the lock.
    pub fn set(&mut self, guard: &SpinMutexGuard, t: T)
        requires
            old(self).owner() == Some(guard.spec_hart()),
        ensures
            final(self).value() == t,
            final(self).owner() == old(self).owner(),
            final(self).spec_name() == old(self).spec_name(),
    {
        self.data = t;
    }
}

/// A hart holds a lock exactly from its `lock` until the release of the
/// guard that `lock` gave it: `holding` is false before, true in between,
/// and false after. In between, a second `lock` by the same hart, which is
/// fatal, is outside what `lock` accepts: the lock is not free.
pub proof fn lemma_holding_window<T>(
    before: SpinMutex<T>,
    held: SpinMutex<T>,
    after: SpinMutex<T>,
    hart: usize,
)
    requires
        acquired(before, held, hart),
        released(held, after, hart),
    ensures
        before.owner() is None,
        held.owner() == Some(hart),
        !(held.owner() is None),
        after.owner() != Some(hart),
        after.value() == before.value(),
{
}

/// A balanced `push_off` / `pop_off` pair changes nothing on a hart but the
/// remembered interrupt state at the outermost level.
pub proof fn lemma_push_pop(c: Cpu)
    requires
        c.noff < usize::MAX,
        c.noff > 0 ==> !sie_set(c.sstatus),
    ensures
        !pop_off_fails(pushed(c)),
        popped(pushed(c)) == masked_once(c),
        masked_once(masked_once(c)) == masked_once(c),
{
    let s = c.sstatus;
    assert((s & !2u64) & 2u64 == 0) by (bit_vector);
    assert((s & 2u64 != 0) ==> (s & !2u64) | 2u64 == s) by (bit_vector);
    assert((s & 2u64 == 0) ==> (s & !2u64) == s) by (bit_vector);
}

/// Interrupt masking nests. On a hart that starts outside any `push_off`,
/// `n` calls of `push_off` followed by `m <= n` calls of `pop_off` all
/// succeed and leave the hart `n - m` levels deep; while any level is left,
/// interrupts stay masked, and once all `n` are undone a further `pop_off`
/// is fatal. `trace[k]` is the hart's record before the `k`-th call.
pub proof fn lemma_nesting(trace: Seq<Cpu>, n: nat, m: nat)
    requires
        trace.len() == n + m + 1,
        trace[0].noff == 0,
        n < usize::MAX,
        m <= n,
        forall|k: int| 0 <= k < n ==> #[trigger] trace[k + 1] == pushed(trace[k]),
        forall|k: int| n <= k < n + m ==> #[trigger] trace[k + 1] == popped(trace[k]),
    ensures
        forall|k: int| n <= k < n + m ==> !pop_off_fails(#[trigger] trace[k]),
        trace[(n + m) as int].noff == n - m,
        m < n ==> !sie_set(trace[(n + m) as int].sstatus),
        m == n ==> pop_off_fails(trace[(n + m) as int]),
    decreases m,
{
    lemma_push_levels(trace, n);
    if m > 0 {
        let m1 = (m - 1) as nat;
        let top: int = (n + m1) as int;
        let prefix = trace.subrange(0, top + 1);
        assert forall|k: int| 0 <= k < n implies #[trigger] prefix[k + 1] == pushed(prefix[k]) by {
            assert(prefix[k + 1] == trace[k + 1]);
            assert(prefix[k] == trace[k]);
        }
        assert forall|k: int| n <= k < n + m1 implies #[trigger] prefix[k + 1] == popped(prefix[k]) by {
            assert(prefix[k + 1] == trace[k + 1]);
            assert(prefix[k] == trace[k]);
        }
        lemma_nesting(prefix, n, m1);
        let c = trace[top];
        assert(prefix[top] == c);
        assert(c.noff == n - m1);
        assert(trace[top + 1] == popped(c));
        assert forall|k: int| n <= k < n + m implies !pop_off_fails(#[trigger] trace[k]) by {
            if k < top {
                assert(prefix[k] == trace[k]);
            }
        }
    }
}

/// After `k` calls of `push_off` from outside any nesting, the hart is `k`
/// levels deep, with interrupts masked once `k > 0`.
proof fn lemma_push_levels(trace: Seq<Cpu>, k: nat)
    requires
        trace.len() > k,
        trace[0].noff == 0,
        k < usize::MAX,
        forall|j: int| 0 <= j < k ==> #[trigger] trace[j + 1] == pushed(trace[j]),
    ensures
        trace[k as int].noff == k,
        k > 0 ==> !sie_set(trace[k as int].sstatus),
    decreases k,
{
    if k > 0 {
        lemma_push_levels(trace, (k - 1) as nat);
        let j: int = k - 1;
        let s = trace[j].sstatus;
        assert((s & !2u64) & 2u64 == 0) by (bit_vector);
        assert(trace[j + 1] == pushed(trace[j]));
    }
}

} // verus!
