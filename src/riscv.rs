use vstd::prelude::*;

verus! {

/// Bytes per page.
pub const PGSIZE: u64 = 4096;

/// Bits of offset within a page.
pub const PGSHIFT: u64 = 12;

/// One beyond the highest possible virtual address. It is one bit less than
/// the Sv39 maximum, to avoid having to sign-extend virtual addresses that
/// have the high bit set.
pub const MAXVA: u64 = 0x40_0000_0000;

/// Supervisor interrupt enable bit of `sstatus`.
pub const SSTATUS_SIE: u64 = 2;

/// Previous-mode bit of `sstatus`: 1 for supervisor, 0 for user.
pub const SSTATUS_SPP: u64 = 0x100;

/// The Sv39 mode field of `satp`.
pub const SATP_SV39: u64 = 0x8000_0000_0000_0000;

/// Whether the supervisor interrupt enable bit is set in a status word.
pub open spec fn sie_set(sstatus: u64) -> bool {
    sstatus & SSTATUS_SIE != 0
}

/// The status word with device interrupts enabled.
pub fn intr_on(sstatus: u64) -> (r: u64)
    ensures
        r == sstatus | SSTATUS_SIE,
        sie_set(r),
        sie_set(sstatus) ==> r == sstatus,
{
    let r = sstatus | SSTATUS_SIE;
    assert(sie_set(r) && (sie_set(sstatus) ==> r == sstatus)) by (bit_vector)
        requires
            r == sstatus | 2u64,
    ;
    r
}

/// The status word with device interrupts disabled.
pub fn intr_off(sstatus: u64) -> (r: u64)
    ensures
        r == sstatus & !SSTATUS_SIE,
        !sie_set(r),
        !sie_set(sstatus) ==> r == sstatus,
        sie_set(sstatus) ==> (r | SSTATUS_SIE) == sstatus,
{
    let r = sstatus & !SSTATUS_SIE;
    assert(!sie_set(r) && (!sie_set(sstatus) ==> r == sstatus) && (sie_set(sstatus) ==> (r
        | 2u64) == sstatus)) by (bit_vector)
        requires
            r == sstatus & !2u64,
    ;
    r
}

/// Whether device interrupts are enabled in the status word.
pub fn intr_get(sstatus: u64) -> (r: bool)
    ensures
        r == sie_set(sstatus),
{
    sstatus & SSTATUS_SIE != 0
}

/// The `satp` value that turns on Sv39 paging with the page table at
/// physical address `pagetable`: the mode field, and the table's page number.
pub fn make_satp(pagetable: u64) -> (r: u64)
    ensures
        r == SATP_SV39 + pagetable / 4096,
{
    let r = SATP_SV39 | (pagetable >> 12);
    assert(SATP_SV39 | (pagetable >> 12) == SATP_SV39 + pagetable / 4096) by (bit_vector)
        requires
            SATP_SV39 == 0x8000_0000_0000_0000u64,
    ;
    r
}

/// `a` rounded down to the start of its page.
pub fn pg_round_down(a: u64) -> (r: u64)
    ensures
        r == a - a % PGSIZE,
        r % PGSIZE == 0,
        r <= a,
{
    let r = a & !(PGSIZE - 1);
    assert(a & !(4095u64) == a - a % 4096 && (a & !(4095u64)) % 4096 == 0) by (bit_vector);
    r
}

/// The page-table-entry form of a physical address: its page number,
/// shifted to the entry's address field.
pub fn pa2pte(pa: u64) -> (r: u64)
    ensures
        r == (pa / 4096) * 1024,
{
    let r = (pa >> 12) << 10;
    assert((pa >> 12u64) << 10u64 == (pa / 4096) * 1024) by (bit_vector);
    r
}

/// The physical address in a page table entry's address field.
pub fn pte2pa(pte: u64) -> (r: u64)
    ensures
        r == ((pte / 1024) * 4096) % 0x1_0000_0000_0000_0000,
        pte < 0x40_0000_0000_0000 ==> r == (pte / 1024) * 4096,
{
    let r = (pte >> 10) << 12;
    assert((pte >> 10u64) << 12u64 == ((pte / 1024) * 4096) % 0x1_0000_0000_0000_0000) by (bit_vector);
    r
}

/// The nine-bit index into the level-`level` page-table page for `va`.
pub fn pg_index(level: u64, va: u64) -> (r: u64)
    requires
        level < 3,
    ensures
        r < 512,
        level == 0 ==> r == (va / 0x1000) % 512,
        level == 1 ==> r == (va / 0x20_0000) % 512,
        level == 2 ==> r == (va / 0x4000_0000) % 512,
{
    let shift = PGSHIFT + 9 * level;
    let r = (va >> shift) & 0x1FF;
    assert(((va >> shift) & 0x1FFu64) < 512) by (bit_vector);
    assert(shift == 12u64 ==> (va >> shift) & 0x1FFu64 == (va / 0x1000) % 512) by (bit_vector);
    assert(shift == 21u64 ==> (va >> shift) & 0x1FFu64 == (va / 0x20_0000) % 512) by (bit_vector);
    assert(shift == 30u64 ==> (va >> shift) & 0x1FFu64 == (va / 0x4000_0000) % 512) by (bit_vector);
    r
}

} // verus!
