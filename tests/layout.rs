use xv6::memlayout::{
    clint_mtimecmp, plic_mclaim, plic_menable, plic_mpriority, plic_sclaim, plic_senable,
    plic_spriority, KERNBASE, PHYSTOP, TRAMPOLINE, UART0,
};
use xv6::riscv::{
    intr_get, intr_off, intr_on, make_satp, pa2pte, pg_index, pg_round_down, pte2pa, MAXVA,
    PGSIZE,
};
use xv6::vm::{
    kvmmake, kvmmap, MapToError, PageTable, PageTableEntry, PageTableEntryFlags, PageTablePool,
    PhysAddr, VirtAddr, PTE_R, PTE_V, PTE_W, PTE_X,
};

#[test]
fn clint_and_plic_registers() {
    assert_eq!(clint_mtimecmp(0), 0x200_4000);
    assert_eq!(clint_mtimecmp(3), 0x200_4018);
    assert_eq!(plic_menable(1), 0x0C00_2100);
    assert_eq!(plic_senable(1), 0x0C00_2180);
    assert_eq!(plic_mpriority(2), 0x0C20_4000);
    assert_eq!(plic_spriority(2), 0x0C20_5000);
    assert_eq!(plic_mclaim(0), 0x0C20_0004);
    assert_eq!(plic_sclaim(1), 0x0C20_3004);
}

#[test]
fn memory_bounds() {
    assert_eq!(PHYSTOP - KERNBASE, 128 * 1024 * 1024);
    assert_eq!(TRAMPOLINE, MAXVA - PGSIZE);
}

#[test]
fn interrupt_enable_bit() {
    assert!(intr_get(intr_on(0)));
    assert_eq!(intr_on(0x100), 0x102);
    assert_eq!(intr_off(0x102), 0x100);
    assert!(!intr_get(intr_off(u64::MAX)));
}

#[test]
fn page_arithmetic() {
    assert_eq!(pg_round_down(0x1234), 0x1000);
    assert_eq!(pg_round_down(0x2000), 0x2000);
    assert_eq!(pa2pte(0x8000_1000), 0x2000_0400);
    assert_eq!(pte2pa(0x2000_0400 | 0x7), 0x8000_1000);
    assert_eq!(make_satp(0x8000_0000), 0x8000_0000_0008_0000);
    let va = (3u64 << 30) | (5u64 << 21) | (7u64 << 12) | 0x123;
    assert_eq!(pg_index(2, va), 3);
    assert_eq!(pg_index(1, va), 5);
    assert_eq!(pg_index(0, va), 7);
}

#[test]
fn entry_flags() {
    let rw = PageTableEntryFlags::from_bits_truncate(PTE_R | PTE_W | 0x100);
    assert_eq!(rw.bits(), PTE_R | PTE_W);
    let mut pte = PageTableEntry::new();
    assert_eq!(pte.as_u64(), 0);
    pte.set_addr(PhysAddr::new(pa2pte(0x8000_0000)), rw);
    assert_eq!(pte.as_u64(), 0x2000_0000 | 6);
    assert!(pte.flags().contains(rw));
    assert!(!pte.flags().contains(PageTableEntryFlags::from_bits_truncate(PTE_V)));
    pte.set_flags(PageTableEntryFlags::from_bits_truncate(PTE_V));
    assert!(pte.flags().contains(PageTableEntryFlags::from_bits_truncate(PTE_V | PTE_R)));
    let rx = PageTableEntryFlags::from_bits_truncate(PTE_R).union(
        PageTableEntryFlags::from_bits_truncate(PTE_X),
    );
    assert_eq!(rx.bits(), PTE_R | PTE_X);
}

#[test]
fn addresses() {
    assert!(PhysAddr::new(0x8000_0000).is_aligned());
    assert!(!PhysAddr::new(0x8000_0010).is_aligned());
    assert_eq!(PhysAddr::new(5).as_u64(), 5);
    assert_eq!(VirtAddr::new(0x1000).as_u64(), 0x1000);
}

#[test]
fn empty_page_table() {
    let pt = PageTable::new();
    for i in 0..512 {
        assert_eq!(pt.index(i).as_u64(), 0);
    }
    let mut pt = pt;
    let mut e = PageTableEntry::new();
    e.set_flags(PageTableEntryFlags::from_bits_truncate(PTE_V));
    pt.set(9, e);
    assert_eq!(pt.index(9).as_u64(), 1);
}

#[test]
fn walk_creates_three_levels() {
    let mut pt = PageTablePool::new(0x80000, 8);
    let va = VirtAddr::new(0x1000);
    assert_eq!(pt.walk(VirtAddr::new(0x1000), false), None);
    assert_eq!(pt.len(), 1);
    assert_eq!(pt.walk(va, true), Some((3, 1)));
    assert_eq!(pt.len(), 4);
    // The root entry points at page 1 of the pool, with only the valid bit.
    assert_eq!(pt.pte(0, 0).as_u64(), ((0x80000 + 1) << 10) | 1);
    assert_eq!(pt.walk(VirtAddr::new(0x1000), false), Some((3, 1)));
    // A neighbouring page shares the first two levels only.
    assert_eq!(pt.walk(VirtAddr::new(0x2000), true), Some((4, 2)));
    assert_eq!(pt.len(), 5);
}

#[test]
fn map_pages_maps_each_page() {
    let mut pt = PageTablePool::new(0x80000, 16);
    let rw = PageTableEntryFlags::from_bits_truncate(PTE_R | PTE_W);
    assert_eq!(
        pt.map_pages(VirtAddr::new(0x1800), PhysAddr::new(0x9000_0000), 0x1000, rw),
        Ok(())
    );
    // 0x1800..0x27ff touches two pages.
    let (t, i) = pt.walk(VirtAddr::new(0x1000), false).unwrap();
    assert_eq!(pt.pte(t, i).as_u64(), pa2pte(0x9000_0000) | PTE_R | PTE_W | PTE_V);
    let (t, i) = pt.walk(VirtAddr::new(0x2000), false).unwrap();
    assert_eq!(pt.pte(t, i).as_u64(), pa2pte(0x9000_1000) | PTE_R | PTE_W | PTE_V);
    // The next page has no page-table page of its own yet.
    assert_eq!(pt.walk(VirtAddr::new(0x3000), false), None);
}

#[test]
fn map_pages_runs_out_of_pool() {
    let mut pt = PageTablePool::new(0x80000, 3);
    let r = PageTableEntryFlags::from_bits_truncate(PTE_R);
    assert_eq!(
        pt.map_pages(VirtAddr::new(0), PhysAddr::new(0), 0x1000, r),
        Err(MapToError::FrameAllocationFailed)
    );
    assert_eq!(pt.len(), 3);
}

#[test]
fn kvmmap_maps_a_device_page() {
    let mut pt = PageTablePool::new(0x80000, 8);
    let rw = PageTableEntryFlags::from_bits_truncate(PTE_R | PTE_W);
    assert_eq!(kvmmap(&mut pt, VirtAddr::new(UART0), PhysAddr::new(UART0), PGSIZE, rw), Ok(()));
    let (t, i) = pt.walk(VirtAddr::new(UART0), false).unwrap();
    assert_eq!(pt.pte(t, i).as_u64(), pa2pte(UART0) | 7);
}

#[test]
fn kvmmake_reports_a_small_pool() {
    let mut pt = PageTablePool::new(0x80000, 10);
    assert_eq!(
        kvmmake(&mut pt, KERNBASE + 0x10_0000, 0x8020_0000),
        Err(MapToError::FrameAllocationFailed)
    );
    assert_eq!(pt.len(), 10);
}

#[test]
fn map_pages_leaves_other_pages_unmapped() {
    let mut pt = PageTablePool::new(0x80000, 16);
    let rw = PageTableEntryFlags::from_bits_truncate(PTE_R | PTE_W);
    assert_eq!(pt.map_pages(VirtAddr::new(0x5000), PhysAddr::new(0x5000), 0x1000, rw), Ok(()));
    assert_eq!(pt.map_pages(VirtAddr::new(0x6000), PhysAddr::new(0x7000), 0x1000, rw), Ok(()));
    let (t, i) = pt.walk(VirtAddr::new(0x5000), false).unwrap();
    assert_eq!(pt.pte(t, i).as_u64(), pa2pte(0x5000) | 7);
    let (t, i) = pt.walk(VirtAddr::new(0x6000), false).unwrap();
    assert_eq!(pt.pte(t, i).as_u64(), pa2pte(0x7000) | 7);
    assert_eq!(pt.walk(VirtAddr::new(0x4000), false), None);
}
