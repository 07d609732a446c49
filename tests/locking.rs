use xv6::proc::Cpus;
use xv6::riscv::intr_get;
use xv6::spinlock::{pop_off, push_off, SpinMutex};

#[test]
fn holding_only_between_lock_and_release() {
    let mut cpus = Cpus::new();
    let mut lk = SpinMutex::new("test", 7u32);
    assert!(!lk.holding(0));
    let g = lk.lock(&mut cpus, 0);
    assert!(lk.holding(0));
    assert!(!lk.holding(1));
    assert_eq!(*lk.get(&g), 7);
    lk.release(&mut cpus, g);
    assert!(!lk.holding(0));
    assert_eq!(cpus.mycpu(0).noff, 0);
}

#[test]
fn lock_masks_interrupts_until_outermost_release() {
    let mut cpus = Cpus::new();
    cpus.intr_on(1);
    assert!(intr_get(cpus.mycpu(1).sstatus));
    let mut a = SpinMutex::new("a", ());
    let mut b = SpinMutex::new("b", ());
    let ga = a.lock(&mut cpus, 1);
    let gb = b.lock(&mut cpus, 1);
    assert!(!intr_get(cpus.mycpu(1).sstatus));
    assert_eq!(cpus.mycpu(1).noff, 2);
    // Inner locks may be released in any order: the outer one's release
    // turns interrupts back on.
    a.release(&mut cpus, ga);
    assert!(!intr_get(cpus.mycpu(1).sstatus));
    b.release(&mut cpus, gb);
    assert!(intr_get(cpus.mycpu(1).sstatus));
    assert_eq!(cpus.mycpu(1).noff, 0);
}

#[test]
fn fewer_pops_than_pushes_leave_interrupts_off() {
    let mut cpus = Cpus::new();
    cpus.intr_on(0);
    for _ in 0..3 {
        push_off(&mut cpus, 0);
    }
    assert!(cpus.mycpu(0).intena);
    for _ in 0..2 {
        pop_off(&mut cpus, 0);
        assert!(!intr_get(cpus.mycpu(0).sstatus));
    }
    assert_eq!(cpus.mycpu(0).noff, 1);
    pop_off(&mut cpus, 0);
    assert!(intr_get(cpus.mycpu(0).sstatus));
}

#[test]
fn interrupts_stay_off_when_they_were_off_before() {
    let mut cpus = Cpus::new();
    push_off(&mut cpus, 0);
    assert!(!cpus.mycpu(0).intena);
    pop_off(&mut cpus, 0);
    assert!(!intr_get(cpus.mycpu(0).sstatus));
}

#[test]
fn force_unlock_clears_owner_only() {
    let mut cpus = Cpus::new();
    let mut lk = SpinMutex::new("x", 1u8);
    let _g = lk.lock(&mut cpus, 0);
    lk.force_unlock();
    assert!(!lk.holding(0));
    assert_eq!(cpus.mycpu(0).noff, 1);
    assert_eq!(lk.name(), "x");
}

#[test]
fn set_replaces_guarded_data() {
    let mut cpus = Cpus::new();
    let mut lk = SpinMutex::new("x", 1u8);
    let g = lk.lock(&mut cpus, 0);
    lk.set(&g, 9);
    assert_eq!(*lk.get(&g), 9);
}

#[test]
fn pops_matching_pushes_restore_depth_zero() {
    let mut cpus = Cpus::new();
    push_off(&mut cpus, 3);
    push_off(&mut cpus, 3);
    pop_off(&mut cpus, 3);
    assert_eq!(cpus.mycpu(3).noff, 1);
    pop_off(&mut cpus, 3);
    // A further pop_off would be fatal: the depth is back to zero.
    assert_eq!(cpus.mycpu(3).noff, 0);
}
