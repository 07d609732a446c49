use xv6::param::NPROC;
use xv6::proc::{Cpus, ProcList, ProcState};
use xv6::riscv::intr_get;
use xv6::spinlock::SpinMutex;

/// Allocates a process and makes it runnable; returns its slot.
fn spawn(procs: &mut ProcList, cpus: &mut Cpus, name: &str) -> usize {
    let slot = procs.alloc_proc(cpus, 0, name.to_string()).unwrap();
    assert!(procs.make_runnable(cpus, 0, slot));
    slot
}

/// Runs a runnable process on `hart` for the first time.
fn start(procs: &mut ProcList, cpus: &mut Cpus, hart: usize, slot: usize) {
    assert!(procs.run(cpus, hart, slot));
    procs.forkret(cpus, hart);
}

#[test]
fn new_table_is_empty() {
    let procs = ProcList::new();
    for i in 0..NPROC {
        assert_eq!(procs.state(i), ProcState::Unused);
        assert_eq!(procs.chan(i), None);
    }
    assert!(procs.proc_dump().is_empty());
}

#[test]
fn alloc_pid_counts_from_one() {
    let mut procs = ProcList::new();
    assert_eq!(procs.alloc_pid(), 1);
    assert_eq!(procs.alloc_pid(), 2);
    assert_eq!(procs.alloc_pid(), 3);
}

#[test]
fn alloc_pid_values_pairwise_distinct() {
    let mut procs = ProcList::new();
    let pids: Vec<usize> = (0..100).map(|_| procs.alloc_pid()).collect();
    for a in 0..pids.len() {
        for b in 0..pids.len() {
            if a != b {
                assert_ne!(pids[a], pids[b]);
            }
        }
    }
}

#[test]
fn alloc_proc_takes_first_unused_slot() {
    let mut cpus = Cpus::new();
    let mut procs = ProcList::new();
    assert_eq!(procs.alloc_proc(&mut cpus, 0, "init".to_string()), Some(0));
    assert_eq!(procs.alloc_proc(&mut cpus, 0, "sh".to_string()), Some(1));
    assert_eq!(procs.state(0), ProcState::Used);
    assert_eq!(procs.pid(0), 1);
    assert_eq!(procs.pid(1), 2);
    assert_eq!(cpus.mycpu(0).noff, 0);
}

#[test]
fn alloc_proc_reports_full_table() {
    let mut cpus = Cpus::new();
    let mut procs = ProcList::new();
    for i in 0..NPROC {
        assert_eq!(procs.alloc_proc(&mut cpus, 0, "p".to_string()), Some(i));
    }
    assert_eq!(procs.alloc_proc(&mut cpus, 0, "q".to_string()), None);
}

#[test]
fn run_only_runs_runnable_slots() {
    let mut cpus = Cpus::new();
    let mut procs = ProcList::new();
    let a = procs.alloc_proc(&mut cpus, 0, "a".to_string()).unwrap();
    assert!(!procs.run(&mut cpus, 0, a));
    assert_eq!(cpus.myproc(0), None);
    assert!(!procs.slot_holding(a, 0));
    assert!(procs.make_runnable(&mut cpus, 0, a));
    assert!(!procs.make_runnable(&mut cpus, 0, a));
    assert!(procs.run(&mut cpus, 0, a));
    assert_eq!(procs.state(a), ProcState::Running);
    assert_eq!(cpus.myproc(0), Some(a));
    // The process comes back from the switch holding its slot lock.
    assert!(procs.slot_holding(a, 0));
    assert_eq!(cpus.mycpu(0).noff, 1);
    procs.forkret(&mut cpus, 0);
    assert!(!procs.slot_holding(a, 0));
    assert_eq!(cpus.mycpu(0).noff, 0);
}

#[test]
fn sleep_then_wakeup_then_resume() {
    let mut cpus = Cpus::new();
    let mut procs = ProcList::new();
    let a = spawn(&mut procs, &mut cpus, "a");
    start(&mut procs, &mut cpus, 0, a);
    let mut cond = SpinMutex::new("cond", 0u32);
    let g = cond.lock(&mut cpus, 0);
    let s = procs.sleep_out(&mut cpus, 42, &mut cond, g).unwrap();
    assert_eq!(procs.state(a), ProcState::Sleeping);
    assert_eq!(procs.chan(a), Some(42));
    assert!(!cond.holding(0));
    assert!(!procs.slot_holding(a, 0));
    assert_eq!(cpus.myproc(0), None);
    assert_eq!(cpus.mycpu(0).noff, 0);
    // A wakeup on another channel leaves it asleep.
    procs.wakeup(&mut cpus, 1, 41);
    assert_eq!(procs.state(a), ProcState::Sleeping);
    procs.wakeup(&mut cpus, 1, 42);
    assert_eq!(procs.state(a), ProcState::Runnable);
    // The channel is cleared only when the process resumes.
    assert_eq!(procs.chan(a), Some(42));
    assert!(procs.run(&mut cpus, 1, a));
    let g2 = procs.sleep_in(&mut cpus, 1, s, &mut cond);
    assert_eq!(procs.chan(a), None);
    assert_eq!(procs.state(a), ProcState::Running);
    assert!(!procs.slot_holding(a, 1));
    assert!(cond.holding(1));
    // One level deep again, as when it went to sleep.
    assert_eq!(cpus.mycpu(1).noff, 1);
    cond.release(&mut cpus, g2);
    assert_eq!(cpus.mycpu(1).noff, 0);
}

#[test]
fn sleep_keeps_the_interrupt_state_of_the_process() {
    let mut cpus = Cpus::new();
    let mut procs = ProcList::new();
    let a = spawn(&mut procs, &mut cpus, "a");
    cpus.intr_on(0);
    start(&mut procs, &mut cpus, 0, a);
    let mut cond = SpinMutex::new("cond", ());
    let g = cond.lock(&mut cpus, 0);
    assert!(cpus.mycpu(0).intena);
    let s = procs.sleep_out(&mut cpus, 7, &mut cond, g).unwrap();
    procs.wakeup(&mut cpus, 2, 7);
    // Hart 2 has interrupts off; the process resumes there with its own
    // remembered state, and gets interrupts back when it lets go of `cond`.
    assert!(procs.run(&mut cpus, 2, a));
    assert!(!cpus.mycpu(2).intena);
    let g2 = procs.sleep_in(&mut cpus, 2, s, &mut cond);
    assert!(cpus.mycpu(2).intena);
    assert!(!intr_get(cpus.mycpu(2).sstatus));
    cond.release(&mut cpus, g2);
    assert!(intr_get(cpus.mycpu(2).sstatus));
}

#[test]
fn sleep_without_a_process_does_nothing() {
    let mut cpus = Cpus::new();
    let mut procs = ProcList::new();
    let mut cond = SpinMutex::new("cond", ());
    let g = cond.lock(&mut cpus, 0);
    assert!(procs.sleep_out(&mut cpus, 7, &mut cond, g).is_none());
    assert!(cond.holding(0));
}

#[test]
fn wakeup_changes_only_matching_sleeper() {
    let mut cpus = Cpus::new();
    let mut procs = ProcList::new();
    // A: asleep on channel 5.
    let a = spawn(&mut procs, &mut cpus, "A");
    start(&mut procs, &mut cpus, 0, a);
    let mut cond = SpinMutex::new("cond", ());
    let g = cond.lock(&mut cpus, 0);
    assert!(procs.sleep_out(&mut cpus, 5, &mut cond, g).is_some());
    // B: runnable.
    let b = spawn(&mut procs, &mut cpus, "B");
    // C: unused.
    let c = 2;
    assert_eq!(procs.state(c), ProcState::Unused);

    procs.wakeup(&mut cpus, 0, 5);
    assert_eq!(procs.state(a), ProcState::Runnable);
    assert_eq!(procs.state(b), ProcState::Runnable);
    assert_eq!(procs.state(c), ProcState::Unused);

    let dump = procs.proc_dump();
    assert_eq!(dump.len(), 2);
    assert_eq!(dump[0].pid, procs.pid(a));
    assert_eq!(dump[0].state, ProcState::Runnable);
    assert_eq!(dump[0].name, "A");
    assert_eq!(dump[1].pid, procs.pid(b));
    assert_eq!(dump[1].state, ProcState::Runnable);
    assert_eq!(dump[1].name, "B");
}

#[test]
fn wakeup_leaves_callers_own_process_alone() {
    let mut cpus = Cpus::new();
    let mut procs = ProcList::new();
    let a = spawn(&mut procs, &mut cpus, "a");
    start(&mut procs, &mut cpus, 3, a);
    procs.wakeup(&mut cpus, 3, 0);
    assert_eq!(procs.state(a), ProcState::Running);
    assert_eq!(cpus.myproc(3), Some(a));
}

#[test]
fn wakeup_while_holding_own_slot_lock() {
    let mut cpus = Cpus::new();
    let mut procs = ProcList::new();
    let a = spawn(&mut procs, &mut cpus, "a");
    let b = spawn(&mut procs, &mut cpus, "b");
    start(&mut procs, &mut cpus, 0, b);
    let mut cond = SpinMutex::new("cond", ());
    let g = cond.lock(&mut cpus, 0);
    assert!(procs.sleep_out(&mut cpus, 9, &mut cond, g).is_some());
    // Hart 1 has just switched to `a`, which still holds its slot lock.
    assert!(procs.run(&mut cpus, 1, a));
    procs.wakeup(&mut cpus, 1, 9);
    assert_eq!(procs.state(b), ProcState::Runnable);
    assert_eq!(procs.state(a), ProcState::Running);
    assert!(procs.slot_holding(a, 1));
}

#[test]
fn every_sleeper_woken_exactly_once() {
    let mut cpus = Cpus::new();
    let mut procs = ProcList::new();
    let mut guard_lock = SpinMutex::new("shared", ());
    let n = 6;
    let mut slots = Vec::new();
    for k in 0..n {
        let s = spawn(&mut procs, &mut cpus, "w");
        start(&mut procs, &mut cpus, 0, s);
        let g = guard_lock.lock(&mut cpus, 0);
        assert!(procs.sleep_out(&mut cpus, 100 + k, &mut guard_lock, g).is_some());
        slots.push(s);
    }
    // Fire one wakeup per channel, in reverse order, with a further sleeper
    // going to sleep half way through on a channel of its own.
    let mut transitions = vec![0; n];
    for k in (0..n).rev() {
        if k == n / 2 {
            let s = spawn(&mut procs, &mut cpus, "late");
            start(&mut procs, &mut cpus, 2, s);
            let g = guard_lock.lock(&mut cpus, 2);
            assert!(procs.sleep_out(&mut cpus, 999, &mut guard_lock, g).is_some());
        }
        let before: Vec<ProcState> = slots.iter().map(|&s| procs.state(s)).collect();
        procs.wakeup(&mut cpus, 1, 100 + k);
        for (i, &s) in slots.iter().enumerate() {
            if before[i] != procs.state(s) {
                assert_eq!(before[i], ProcState::Sleeping);
                assert_eq!(procs.state(s), ProcState::Runnable);
                transitions[i] += 1;
                assert_eq!(i, k);
            }
        }
    }
    assert!(transitions.iter().all(|&t| t == 1));
    // The late sleeper was never woken.
    assert_eq!(procs.state(n), ProcState::Sleeping);
}

#[test]
fn proc_dump_changes_nothing() {
    let mut cpus = Cpus::new();
    let mut procs = ProcList::new();
    let a = spawn(&mut procs, &mut cpus, "a");
    let _b = procs.alloc_proc(&mut cpus, 0, "b".to_string()).unwrap();
    let first = procs.proc_dump();
    let second = procs.proc_dump();
    assert_eq!(first.len(), 2);
    assert_eq!(first.len(), second.len());
    for (x, y) in first.iter().zip(second.iter()) {
        assert_eq!(x.pid, y.pid);
        assert_eq!(x.state, y.state);
        assert_eq!(x.name, y.name);
    }
    assert_eq!(first[1].state, ProcState::Used);
    assert_eq!(procs.state(a), ProcState::Runnable);
    assert!(!procs.slot_holding(a, 0));
}
