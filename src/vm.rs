//! Page-table entries, their flags, physical and virtual addresses, and
//! the building of page tables: walking from the root to the entry for an
//! address, creating page-table pages on the way, and mapping ranges.
use vstd::prelude::*;

use crate::memlayout::{KERNBASE, PHYSTOP, PLIC, TRAMPOLINE, UART0, VIRTIO0};
use crate::riscv::{pa2pte, pg_index, pg_round_down, pte2pa, MAXVA, PGSIZE};

verus! {

/// The entry maps something.
pub const PTE_V: u64 = 1;

/// Readable.
pub const PTE_R: u64 = 2;

/// Writable.
pub const PTE_W: u64 = 4;

/// Executable.
pub const PTE_X: u64 = 8;

/// User mode can access the page.
pub const PTE_U: u64 = 16;

/// All flag bits.
pub const PTE_FLAGS: u64 = 0x1F;

/// A set of page-table-entry flags.
#[derive(Clone, Copy, Debug, PartialEq, Eq, Structural)]
pub struct PageTableEntryFlags {
    pub(crate) bits: u64,
}

impl PageTableEntryFlags {
    /// Only flag bits are set.
    #[verifier::type_invariant]
    spec fn inv(&self) -> bool {
        self.bits <= PTE_FLAGS
    }

    /// The flag bits.
    pub open(crate) spec fn spec_bits(&self) -> u64 {
        self.bits
    }

    /// The flags among `bits`; other bits are dropped.
    pub fn from_bits_truncate(bits: u64) -> (r: PageTableEntryFlags)
        ensures
            r.spec_bits() == bits & PTE_FLAGS,
    {
        assert(bits & 0x1Fu64 <= 0x1Fu64) by (bit_vector);
        PageTableEntryFlags { bits: bits & PTE_FLAGS }
    }

    /// The flag bits, which are within `PTE_FLAGS`.
    pub fn bits(&self) -> (r: u64)
        ensures
            r == self.spec_bits(),
            r <= PTE_FLAGS,
    {
        proof {
            use_type_invariant(self);
        }
        self.bits
    }

    /// Whether every flag of `other` is set here.
    pub fn contains(&self, other: PageTableEntryFlags) -> (r: bool)
        ensures
            r == (self.spec_bits() & other.spec_bits() == other.spec_bits()),
    {
        self.bits & other.bits == other.bits
    }

    /// The flags of both sets.
    pub fn union(&self, other: PageTableEntryFlags) -> (r: PageTableEntryFlags)
        ensures
            r.spec_bits() == self.spec_bits() | other.spec_bits(),
            r.spec_bits() <= PTE_FLAGS,
    {
        proof {
            use_type_invariant(self);
            use_type_invariant(&other);
        }
        let a = self.bits;
        let c = other.bits;
        let b = a | c;
        assert(a <= 0x1Fu64 && c <= 0x1Fu64 ==> (a | c) <= 0x1Fu64) by (bit_vector);
        PageTableEntryFlags { bits: b }
    }
}

/// A 64-bit page-table entry: a physical page number above ten flag bits.
#[derive(Clone, Copy)]
pub struct PageTableEntry {
    pub(crate) entry: u64,
}

impl PageTableEntry {
    /// The raw entry.
    pub open(crate) spec fn spec_entry(&self) -> u64 {
        self.entry
    }

    /// An empty entry.
    pub fn new() -> (r: PageTableEntry)
        ensures
            r.spec_entry() == 0,
    {
        PageTableEntry { entry: 0 }
    }

    /// The entry's flags.
    pub fn flags(&self) -> (r: PageTableEntryFlags)
        ensures
            r.spec_bits() == self.spec_entry() & PTE_FLAGS,
    {
        PageTableEntryFlags::from_bits_truncate(self.entry)
    }

    /// The raw entry.
    pub fn as_u64(&self) -> (r: u64)
        ensures
            r == self.spec_entry(),
    {
        self.entry
    }

    /// Sets the entry to the address field `addr` with `flags`.
    pub fn set_addr(&mut self, addr: PhysAddr, flags: PageTableEntryFlags)
        ensures
            final(self).spec_entry() == addr.spec_addr() | flags.spec_bits(),
    {
        self.entry = addr.as_u64() | flags.bits();
    }

    /// Adds `flags` to the entry.
    pub fn set_flags(&mut self, flags: PageTableEntryFlags)
        ensures
            final(self).spec_entry() == old(self).spec_entry() | flags.spec_bits(),
    {
        self.entry = self.entry | flags.bits();
    }
}

/// Number of entries in a page-table page.
pub const ENTRY_COUNT: usize = 512;

/// One page-table page.
pub struct PageTable {
    pub(crate) entries: Vec<PageTableEntry>,
}

impl PageTable {
    /// The entries.
    pub open(crate) spec fn spec_entries(&self) -> Seq<PageTableEntry> {
        self.entries@
    }

    /// A page-table page whose entries are all empty.
    pub fn new() -> (r: PageTable)
        ensures
            r.spec_entries().len() == ENTRY_COUNT,
            forall|i: int| 0 <= i < ENTRY_COUNT ==> (#[trigger] r.spec_entries()[i]).spec_entry() == 0,
    {
        let mut entries: Vec<PageTableEntry> = Vec::new();
        let mut i: usize = 0;
        while i < ENTRY_COUNT
            invariant
                i <= ENTRY_COUNT,
                entries@.len() == i,
                forall|j: int| 0 <= j < i ==> (#[trigger] entries@[j]).spec_entry() == 0,
            decreases ENTRY_COUNT - i,
        {
            entries.push(PageTableEntry::new());
            i = i + 1;
        }
        PageTable { entries }
    }

    /// Entry `index`.
    pub fn index(&self, index: usize) -> (r: PageTableEntry)
        requires
            index < self.spec_entries().len(),
        ensures
            r == self.spec_entries()[index as int],
    {
        self.entries[index]
    }

    /// Replaces entry `index` with `pte`.
    pub fn set(&mut self, index: usize, pte: PageTableEntry)
        requires
            index < old(self).spec_entries().len(),
        ensures
            final(self).spec_entries() == old(self).spec_entries().update(index as int, pte),
    {
        self.entries.set(index, pte);
    }
}

/// What can go wrong when mapping pages.
#[derive(Clone, Copy, Debug, PartialEq, Eq, Structural)]
pub enum MapToError {
    /// The pool had no page left for a page-table page.
    FrameAllocationFailed,
}

/// A virtual address.
pub struct VirtAddr(pub(crate) u64);

/// A physical address.
#[derive(Clone, Copy)]
pub struct PhysAddr(pub(crate) u64);

impl PhysAddr {
    /// The address.
    pub open(crate) spec fn spec_addr(&self) -> u64 {
        self.0
    }

    pub fn new(addr: u64) -> (r: PhysAddr)
        ensures
            r.spec_addr() == addr,
    {
        PhysAddr(addr)
    }

    /// Whether the address is the start of a page.
    pub fn is_aligned(&self) -> (r: bool)
        ensures
            r == (self.spec_addr() % PGSIZE == 0),
    {
        pg_round_down(self.0) == self.0
    }

    /// The address.
    pub fn as_u64(&self) -> (r: u64)
        ensures
            r == self.spec_addr(),
    {
        self.0
    }
}

impl VirtAddr {
    /// The address.
    pub open(crate) spec fn spec_addr(&self) -> u64 {
        self.0
    }

    pub fn new(addr: u64) -> (r: VirtAddr)
        ensures
            r.spec_addr() == addr,
    {
        VirtAddr(addr)
    }

    /// The address.
    pub fn as_u64(&self) -> (r: u64)
        ensures
            r == self.spec_addr(),
    {
        self.0
    }
}

/// The entry that points at the page-table page with physical page number
/// `pn`: its page number in the address field, and only the valid flag.
pub open spec fn table_pte(pn: int) -> int {
    pn * 1024 + 1
}

/// The index into a page-table page `level` levels above the last that
/// `va` selects: nine bits of its page number.
pub open spec fn px(level: int, va: u64) -> int {
    if level == 0 {
        ((va / 0x1000) % 512) as int
    } else if level == 1 {
        ((va / 0x20_0000) % 512) as int
    } else {
        ((va / 0x4000_0000) % 512) as int
    }
}

/// The start of the page that holds `a`.
pub open spec fn page_start(a: int) -> int {
    a - a % 4096
}

/// The leaf entry that maps a page to physical address `pa` with `flags`.
pub open spec fn leaf_pte(pa: u64, flags: u64) -> u64 {
    ((pa / 4096 * 1024) as u64) | (flags | 1u64)
}

/// The page-table pages of one address space, in a run of physical pages:
/// page `i` of the pool sits at physical address `(base_pn + i) * PGSIZE`,
/// and page 0 is the root.
pub struct PageTablePool {
    pub(crate) pages: Vec<PageTable>,
    /// Physical page number of the pool's first page.
    pub(crate) base_pn: u64,
    /// How many pages the pool can hold.
    pub(crate) capacity: usize,
    /// How far below the root each page sits.
    pub(crate) depth: Ghost<Seq<nat>>,
    /// For each page but the root, the one entry that points at it.
    pub(crate) parent: Ghost<Seq<(int, int)>>,
}

impl PageTablePool {
    /// Raw entry `k` of page `t`.
    pub open(crate) spec fn entry(&self, t: int, k: int) -> u64 {
        self.pages@[t].entries@[k].entry
    }

    /// Entry `k` of page `t` maps something.
    pub open(crate) spec fn valid(&self, t: int, k: int) -> bool {
        self.entry(t, k) % 2 == 1
    }

    /// The pool page that entry `k` of page `t` points at.
    pub open(crate) spec fn child(&self, t: int, k: int) -> int {
        self.entry(t, k) / 1024 - self.base_pn
    }


    /// The page three levels below the root on the way to `va`: from the
    /// root, follow the entries that the level-2, level-1 and level-0 indices
    /// of `va` select, as long as they are valid.
    #[verifier::opaque]
    pub open(crate) spec fn leaf_table(&self, va: u64) -> Option<int> {
        let k2 = px(2, va);
        let k1 = px(1, va);
        let k0 = px(0, va);
        if !self.valid(0, k2) {
            None
        } else if !self.valid(self.child(0, k2), k1) {
            None
        } else if !self.valid(self.child(self.child(0, k2), k1), k0) {
            None
        } else {
            Some(self.child(self.child(self.child(0, k2), k1), k0))
        }
    }

    /// The pool grew from `old` without disturbing it: valid entries, the
    /// pages three levels down and every path that was complete stay as
    /// they were; pages are only added.
    pub open(crate) spec fn extends(&self, old: &PageTablePool) -> bool {
        &&& self.base_pn == old.base_pn
        &&& self.capacity == old.capacity
        &&& old.pages@.len() <= self.pages@.len()
        &&& forall|u: int| 0 <= u < old.pages@.len() ==> #[trigger] self.depth@[u] == old.depth@[u]
        &&& forall|u: int|
            0 <= u < old.pages@.len() && old.depth@[u] == 3 ==> #[trigger] self.pages@[u]
                == old.pages@[u]
        &&& forall|u: int, k: int|
            0 <= u < old.pages@.len() && 0 <= k < 512 && #[trigger] old.valid(u, k) ==> self.entry(u, k)
                == old.entry(u, k)
        &&& forall|b: u64| (#[trigger] old.leaf_table(b)) is Some ==> self.leaf_table(b) == old.leaf_table(b)
            && self.leaf_entry(b) == old.leaf_entry(b)
        &&& forall|u: int, k: int|
            0 <= u < self.pages@.len() && 0 <= k < 512 && self.depth@[u] < 3 && #[trigger] self.valid(u, k)
                && !(u < old.pages@.len() && old.valid(u, k)) ==> self.child(u, k) >= old.pages@.len()
        &&& forall|u: int, k: int|
            old.pages@.len() <= u < self.pages@.len() && 0 <= k < 512 && self.depth@[u] == 3
                ==> #[trigger] self.entry(u, k) == 0
    }

    /// The page at `b` has a valid leaf entry.
    pub open(crate) spec fn mapped(&self, b: u64) -> bool {
        match self.leaf_entry(b) {
            Some(e) => e % 2 == 1,
            None => false,
        }
    }

    /// The leaf entry for `va`, when the path to it is complete.
    pub open(crate) spec fn leaf_entry(&self, va: u64) -> Option<u64> {
        match self.leaf_table(va) {
            Some(t) => Some(self.entry(t, px(0, va))),
            None => None,
        }
    }

    /// Every page that `size` bytes from `va` touch maps to the physical page
    /// at the same distance from `pa`, with `flags` and the valid flag.
    pub open(crate) spec fn maps_range(&self, va: u64, pa: u64, size: u64, flags: u64) -> bool {
        let first = page_start(va as int);
        let last = page_start(va + size - 1);
        forall|b: u64|
            first <= b <= last && b % 4096 == 0 ==> #[trigger] self.leaf_entry(b) == Some(
                leaf_pte((pa + (b - first)) as u64, flags),
            )
    }

    /// Nothing changed from `old`.
    pub open(crate) spec fn unchanged(&self, old: &PageTablePool) -> bool {
        &&& self.pages@ == old.pages@
        &&& self.depth == old.depth
        &&& self.parent == old.parent
        &&& self.base_pn == old.base_pn
        &&& self.capacity == old.capacity
    }

    /// How many pages the pool can hold.
    pub open(crate) spec fn spec_capacity(&self) -> int {
        self.capacity as int
    }

    /// How far below the root page `t` sits.
    pub open(crate) spec fn spec_depth(&self, t: int) -> nat {
        self.depth@[t]
    }

    /// The number of pages in use.
    pub open(crate) spec fn spec_len(&self) -> int {
        self.pages@.len() as int
    }

    /// The pool is a tree of page-table pages below the root: every valid
    /// entry of a page less than three levels down points at a pool page one
    /// level further down, and every page but the root has exactly one entry
    /// pointing at it.
    #[verifier::opaque]
    pub open(crate) spec fn wf(&self) -> bool {
        &&& 1 <= self.pages@.len() <= self.capacity
        &&& (self.base_pn + self.capacity) * 4096 < 0x100_0000_0000_0000
        &&& self.depth@.len() == self.pages@.len()
        &&& self.parent@.len() == self.pages@.len()
        &&& self.depth@[0] == 0
        &&& forall|t: int| 0 <= t < self.pages@.len() ==> (#[trigger] self.pages@[t]).entries@.len() == 512
        &&& forall|t: int| 0 < t < self.pages@.len() ==> 1 <= #[trigger] self.depth@[t] <= 3
        &&& forall|t: int, k: int|
            0 <= t < self.pages@.len() && 0 <= k < 512 && self.depth@[t] < 3 && #[trigger] self.valid(t, k)
                ==> {
                &&& self.entry(t, k) == table_pte(self.base_pn + self.child(t, k))
                &&& 0 < self.child(t, k) < self.pages@.len()
                &&& self.depth@[self.child(t, k)] == self.depth@[t] + 1
                &&& self.parent@[self.child(t, k)] == (t, k)
            }
        &&& forall|j: int|
            0 < j < self.pages@.len() ==> {
                let (t, k) = #[trigger] self.parent@[j];
                &&& 0 <= t < self.pages@.len()
                &&& 0 <= k < 512
                &&& self.depth@[t] < 3
                &&& self.valid(t, k)
                &&& self.child(t, k) == j
            }
    }

    /// A pool of `capacity` pages from physical page `base_pn` on, holding
    /// an empty root.
    pub fn new(base_pn: u64, capacity: usize) -> (r: PageTablePool)
        requires
            capacity >= 1,
            (base_pn + capacity) * 4096 < 0x100_0000_0000_0000,
        ensures
            r.wf(),
            r.spec_len() == 1,
            forall|k: int| 0 <= k < 512 ==> !#[trigger] r.valid(0, k),
            forall|b: u64| !#[trigger] r.mapped(b),
    {
        proof {
            reveal(PageTablePool::wf);
            reveal(PageTablePool::leaf_table);
        }
        let root = PageTable::new();
        let ghost depth0: Seq<nat> = seq![0nat];
        let ghost parent0: Seq<(int, int)> = seq![(0int, 0int)];
        let mut pages: Vec<PageTable> = Vec::new();
        pages.push(root);
        let r = PageTablePool {
            pages,
            base_pn,
            capacity,
            depth: Ghost(depth0),
            parent: Ghost(parent0),
        };
        assert forall|k: int| 0 <= k < 512 implies !#[trigger] r.valid(0, k) by {
            assert(r.pages@[0].entries@[k].entry == 0);
        }
        assert forall|b: u64| !#[trigger] r.mapped(b) by {
            assert(0 <= px(2, b) < 512);
            assert(!r.valid(0, px(2, b)));
        }
        r
    }

    /// Entry `i` of pool page `t`.
    pub fn pte(&self, t: usize, i: usize) -> (r: PageTableEntry)
        requires
            self.wf(),
            t < self.spec_len(),
            i < 512,
        ensures
            r.spec_entry() == self.entry(t as int, i as int),
    {
        proof {
            reveal(PageTablePool::wf);
            reveal(PageTablePool::leaf_table);
        }
        self.pages[t].index(i)
    }

    /// The number of pages in use.
    pub fn len(&self) -> (r: usize)
        ensures
            r == self.spec_len(),
    {
        self.pages.len()
    }

    /// Takes a zeroed page from the pool for a new page-table page; `None`
    /// when the pool is used up.
    fn allocate_page_table(&mut self) -> (r: Option<usize>)
        ensures
            final(self).base_pn == old(self).base_pn,
            final(self).capacity == old(self).capacity,
            final(self).depth == old(self).depth,
            final(self).parent == old(self).parent,
            old(self).pages@.len() >= old(self).capacity ==> r is None && final(self).pages@
                == old(self).pages@,
            old(self).pages@.len() < old(self).capacity ==> {
                &&& r == Some(old(self).pages@.len() as usize)
                &&& final(self).pages@.len() == old(self).pages@.len() + 1
                &&& forall|t: int| 0 <= t < old(self).pages@.len() ==> #[trigger] final(self).pages@[t] == old(self).pages@[t]
                &&& final(self).pages@.last().entries@.len() == 512
                &&& forall|k: int| 0 <= k < 512 ==> (#[trigger] final(self).pages@.last().entries@[k]).entry == 0
            },
    {
        if self.pages.len() >= self.capacity {
            return None;
        }
        let n = self.pages.len();
        self.pages.push(PageTable::new());
        Some(n)
    }

    /// Follows entry `k` of page `t`, which is less than three levels down,
    /// to the page it points at. When the entry is not valid and `alloc` is
    /// set, a fresh page is taken from the pool and the entry made to point
    /// at it; otherwise, or when the pool is used up, `None`.
    fn descend(&mut self, t: usize, k: usize, alloc: bool) -> (r: Option<usize>)
        requires
            old(self).wf(),
            t < old(self).pages@.len(),
            k < 512,
            old(self).depth@[t as int] < 3,
        ensures
            final(self).wf(),
            final(self).extends(old(self)),
            final(self).base_pn == old(self).base_pn,
            final(self).capacity == old(self).capacity,
            old(self).valid(t as int, k as int) ==> r == Some(old(self).child(t as int, k as int) as usize)
                && final(self).pages@ == old(self).pages@ && final(self).depth == old(self).depth
                && final(self).parent == old(self).parent,
            !old(self).valid(t as int, k as int) && (!alloc || old(self).pages@.len()
                == old(self).capacity) ==> r is None && final(self).pages@ == old(self).pages@
                && final(self).depth == old(self).depth && final(self).parent == old(self).parent,
            !old(self).valid(t as int, k as int) && alloc && old(self).pages@.len() < old(self).capacity
                ==> {
                let n = old(self).pages@.len() as int;
                &&& r == Some(n as usize)
                &&& final(self).pages@.len() == n + 1
                &&& final(self).depth@ == old(self).depth@.push(old(self).depth@[t as int] + 1)
                &&& final(self).parent@ == old(self).parent@.push((t as int, k as int))
                &&& forall|u: int| 0 <= u < n && u != t ==> #[trigger] final(self).pages@[u] == old(self).pages@[u]
                &&& final(self).pages@[t as int].entries@ == old(self).pages@[t as int].entries@.update(
                    k as int,
                    final(self).pages@[t as int].entries@[k as int],
                )
                &&& final(self).entry(t as int, k as int) == table_pte(old(self).base_pn + n)
                &&& final(self).valid(t as int, k as int)
                &&& final(self).child(t as int, k as int) == n
                &&& forall|j: int| 0 <= j < 512 ==> (#[trigger] final(self).pages@[n].entries@[j]).entry == 0
            },
    {
        proof {
            reveal(PageTablePool::wf);
            reveal(PageTablePool::leaf_table);
        }
        let pte = self.pages[t].index(k);
        let e = pte.as_u64();
        proof {
            assert(((e & 0x1Fu64) & 1u64 == 1u64) <==> e % 2 == 1) by (bit_vector);
            assert(1u64 & 0x1Fu64 == 1u64) by (bit_vector);
        }
        if pte.flags().contains(PageTableEntryFlags::from_bits_truncate(PTE_V)) {
            let pa = pte2pa(e);
            proof {
                assert(e == self.entry(t as int, k as int));
                assert(self.valid(t as int, k as int));
                let c = self.child(t as int, k as int);
                assert(0 < c < self.pages@.len());
                let pn = self.base_pn + c;
                assert(e == pn * 1024 + 1);
                assert(e / 1024 == pn) by (nonlinear_arith)
                    requires
                        e == pn * 1024 + 1,
                        pn >= 0,
                ;
                assert(pn * 4096 < 0x100_0000_0000_0000) by (nonlinear_arith)
                    requires
                        pn < self.base_pn + self.capacity,
                        (self.base_pn + self.capacity) * 4096 < 0x100_0000_0000_0000,
                ;
                assert(e < 0x40_0000_0000_0000);
                assert(pa == pn * 4096);
                assert(pa / 4096 == pn) by (nonlinear_arith)
                    requires
                        pa == pn * 4096,
                ;
            }
            return Some(((pa / PGSIZE) - self.base_pn) as usize);
        }
        if !alloc || self.pages.len() >= self.capacity {
            return None;
        }
        let n = match self.allocate_page_table() {
            Some(n) => n,
            None => return None,
        };
        let pn = self.base_pn + n as u64;
        proof {
            assert(pn * 4096 < 0x100_0000_0000_0000) by (nonlinear_arith)
                requires
                    pn < self.base_pn + self.capacity,
                    (self.base_pn + self.capacity) * 4096 < 0x100_0000_0000_0000,
            ;
        }
        let pa = pn * PGSIZE;
        let x = pa2pte(pa);
        let mut entry = PageTableEntry::new();
        entry.set_addr(PhysAddr::new(x), PageTableEntryFlags::from_bits_truncate(PTE_V));
        proof {
            assert(pa / 4096 == pn) by (nonlinear_arith)
                requires
                    pa == pn * 4096,
            ;
            assert(x == pn * 1024);
            assert(x % 2 == 0) by (nonlinear_arith)
                requires
                    x == pn * 1024,
            ;
            assert(x % 2 == 0 ==> x | 1u64 == x + 1) by (bit_vector);
            assert(entry.entry == table_pte(pn as int));
            assert(table_pte(pn as int) / 1024 == pn) by (nonlinear_arith)
                requires
                    table_pte(pn as int) == pn * 1024 + 1,
                    pn >= 0,
            ;
            assert(table_pte(pn as int) % 2 == 1) by (nonlinear_arith)
                requires
                    table_pte(pn as int) == pn * 1024 + 1,
                    pn >= 0,
            ;
        }
        self.pages[t].set(k, entry);
        let ghost nd = self.depth@.push(self.depth@[t as int] + 1);
        let ghost np = self.parent@.push((t as int, k as int));
        self.depth = Ghost(nd);
        self.parent = Ghost(np);
        proof {
            let o = old(self);
            assert forall|u: int| 0 <= u < n && u != t implies #[trigger] self.pages@[u] == o.pages@[u] by {}
            assert forall|u: int, j: int| 0 <= u < n && 0 <= j < 512 && (u != t || j != k) implies #[trigger] self.entry(u, j) == o.entry(u, j) by {}
            assert forall|u: int| 0 <= u < self.pages@.len() implies (#[trigger] self.pages@[u]).entries@.len() == 512 by {}
            assert forall|u: int| 0 < u < self.pages@.len() implies 1 <= #[trigger] self.depth@[u] <= 3 by {
                if u < n {
                    assert(self.depth@[u] == o.depth@[u]);
                }
            }
            assert forall|u: int, j: int|
                0 <= u < self.pages@.len() && 0 <= j < 512 && self.depth@[u] < 3 && #[trigger] self.valid(u, j)
                    implies {
                    &&& self.entry(u, j) == table_pte(self.base_pn + self.child(u, j))
                    &&& 0 < self.child(u, j) < self.pages@.len()
                    &&& self.depth@[self.child(u, j)] == self.depth@[u] + 1
                    &&& self.parent@[self.child(u, j)] == (u, j)
                } by {
                if u == n {
                    assert(self.pages@[n as int].entries@[j].entry == 0);
                } else if u == t && j == k {
                } else {
                    assert(self.entry(u, j) == o.entry(u, j));
                    assert(o.valid(u, j));
                    assert(self.depth@[u] == o.depth@[u]);
                    assert(self.depth@[o.child(u, j)] == o.depth@[o.child(u, j)]);
                    assert(self.parent@[o.child(u, j)] == o.parent@[o.child(u, j)]);
                }
            }
            assert forall|u: int, j: int|
                0 <= u < self.pages@.len() && 0 <= j < 512 && self.depth@[u] < 3 && #[trigger] self.valid(u, j)
                    && !(u < o.pages@.len() && o.valid(u, j)) implies self.child(u, j) >= o.pages@.len() by {
                if u == n {
                    assert(self.pages@[n as int].entries@[j].entry == 0);
                } else if u == t && j == k {
                } else {
                    assert(self.entry(u, j) == o.entry(u, j));
                }
            }
            assert forall|u: int, j: int|
                o.pages@.len() <= u < self.pages@.len() && 0 <= j < 512 && self.depth@[u] == 3
                    implies #[trigger] self.entry(u, j) == 0 by {
                assert(self.pages@[n as int].entries@[j].entry == 0);
            }
            assert forall|b: u64| (#[trigger] o.leaf_table(b)) is Some implies self.leaf_table(b) == o.leaf_table(b)
                && self.leaf_entry(b) == o.leaf_entry(b) by {
                lemma_leaf_depth(o, b);
                let k2 = px(2, b);
                let k1 = px(1, b);
                let k0 = px(0, b);
                assert(o.valid(0, k2));
                let t1 = o.child(0, k2);
                assert(o.valid(t1, k1));
                let t2 = o.child(t1, k1);
                assert(o.valid(t2, k0));
                assert(0 <= k2 < 512 && 0 <= k1 < 512 && 0 <= k0 < 512);
                assert(self.entry(0, k2) == o.entry(0, k2));
                assert(self.entry(t1, k1) == o.entry(t1, k1));
                assert(self.entry(t2, k0) == o.entry(t2, k0));
            }
            assert forall|j: int| 0 < j < self.pages@.len() implies {
                let (u, i) = #[trigger] self.parent@[j];
                &&& 0 <= u < self.pages@.len()
                &&& 0 <= i < 512
                &&& self.depth@[u] < 3
                &&& self.valid(u, i)
                &&& self.child(u, i) == j
            } by {
                if j < n {
                    let (u, i) = o.parent@[j];
                    assert(self.parent@[j] == o.parent@[j]);
                    assert(o.valid(u, i));
                    assert(u != t || i != k);
                    assert(self.entry(u, i) == o.entry(u, i));
                    assert(self.depth@[u] == o.depth@[u]);
                }
            }
        }
        Some(n)
    }

    /// The entry for `va` in the page three levels below the root, as a
    /// page and an index into it. With `alloc`, missing pages on the way are
    /// taken from the pool; `None` when one is missing and `alloc` is not
    /// set, or the pool is used up.
    pub fn walk(&mut self, va: VirtAddr, alloc: bool) -> (r: Option<(usize, usize)>)
        requires
            old(self).wf(),
            va.spec_addr() < MAXVA,
        ensures
            final(self).wf(),
            final(self).extends(old(self)),
            !alloc ==> final(self).unchanged(old(self)),
            !alloc ==> match old(self).leaf_table(va.spec_addr()) {
                Some(t) => r == Some((t as usize, px(0, va.spec_addr()) as usize)),
                None => r is None,
            },
            old(self).leaf_table(va.spec_addr()) is Some ==> final(self).unchanged(old(self)),
            alloc && r is None ==> final(self).spec_len() == final(self).spec_capacity(),
            r is Some ==> {
                let (t, i) = r->0;
                &&& final(self).leaf_table(va.spec_addr()) == Some(t as int)
                &&& i == px(0, va.spec_addr())
                &&& t < old(self).spec_len() ==> old(self).leaf_table(va.spec_addr()) == Some(t as int)
                &&& t >= old(self).spec_len() ==> forall|j: int|
                    0 <= j < 512 ==> #[trigger] final(self).entry(t as int, j) == 0
                &&& final(self).spec_depth(t as int) == 3
            },
    {
        proof {
            reveal(PageTablePool::wf);
            reveal(PageTablePool::leaf_table);
        }
        let a = va.as_u64();
        let k2 = pg_index(2, a) as usize;
        let k1 = pg_index(1, a) as usize;
        let k0 = pg_index(0, a) as usize;
        let ghost s0 = *self;
        let t1 = match self.descend(0, k2, alloc) {
            Some(t) => t,
            None => return None,
        };
        let ghost s1 = *self;
        assert(s1.depth@[t1 as int] == 1);
        let t2 = match self.descend(t1, k1, alloc) {
            Some(t) => t,
            None => {
                proof { lemma_extends_trans(&s0, &s1, self); }
                return None;
            },
        };
        let ghost s2 = *self;
        proof {
            lemma_extends_trans(&s0, &s1, &s2);
        }
        assert(s2.depth@[t2 as int] == 2);
        let t3 = match self.descend(t2, k0, alloc) {
            Some(t) => t,
            None => {
                proof { lemma_extends_trans(&s0, &s2, self); }
                return None;
            },
        };
        proof {
            lemma_extends_trans(&s0, &s2, self);
            // The path to `va` is complete in the final pool.
            assert(s1.valid(0, k2 as int) && s1.child(0, k2 as int) == t1);
            assert(s2.valid(0, k2 as int) && s2.child(0, k2 as int) == t1);
            assert(s2.valid(t1 as int, k1 as int) && s2.child(t1 as int, k1 as int) == t2);
            assert(self.valid(0, k2 as int) && self.child(0, k2 as int) == t1);
            assert(self.valid(t1 as int, k1 as int) && self.child(t1 as int, k1 as int) == t2);
            assert(self.valid(t2 as int, k0 as int) && self.child(t2 as int, k0 as int) == t3);
            assert(self.leaf_table(a) == Some(t3 as int));
        }
        Some((t3, k0))
    }


    /// Replaces entry `i` of page `t`, three levels down, with `entry`.
    /// Such pages are never followed, so only the leaf entry that `t` and
    /// `i` name changes.
    fn set_leaf(&mut self, t: usize, i: usize, entry: PageTableEntry)
        requires
            old(self).wf(),
            t < old(self).pages@.len(),
            i < 512,
            old(self).depth@[t as int] == 3,
        ensures
            final(self).wf(),
            final(self).base_pn == old(self).base_pn,
            final(self).capacity == old(self).capacity,
            final(self).pages@.len() == old(self).pages@.len(),
            final(self).depth == old(self).depth,
            final(self).entry(t as int, i as int) == entry.entry,
            forall|b: u64| #[trigger] final(self).leaf_table(b) == old(self).leaf_table(b),
            forall|b: u64|
                (#[trigger] old(self).leaf_table(b)) is Some && (old(self).leaf_table(b) != Some(t as int)
                    || px(0, b) != i) ==> final(self).leaf_entry(b) == old(self).leaf_entry(b),
    {
        proof {
            reveal(PageTablePool::wf);
            reveal(PageTablePool::leaf_table);
        }
        self.pages[t].set(i, entry);
        proof {
            let o = old(self);
            assert forall|u: int, j: int| 0 <= u < self.pages@.len() && 0 <= j < 512 && (u != t || j != i) implies #[trigger] self.entry(u, j) == o.entry(u, j) by {
                if u != t {
                    assert(self.pages@[u] == o.pages@[u]);
                }
            }
            assert forall|u: int| 0 <= u < self.pages@.len() implies (#[trigger] self.pages@[u]).entries@.len() == 512 by {
                if u != t {
                    assert(self.pages@[u] == o.pages@[u]);
                }
            }
            assert forall|u: int, j: int|
                0 <= u < self.pages@.len() && 0 <= j < 512 && self.depth@[u] < 3 && #[trigger] self.valid(u, j)
                    implies {
                    &&& self.entry(u, j) == table_pte(self.base_pn + self.child(u, j))
                    &&& 0 < self.child(u, j) < self.pages@.len()
                    &&& self.depth@[self.child(u, j)] == self.depth@[u] + 1
                    &&& self.parent@[self.child(u, j)] == (u, j)
                } by {
                assert(self.entry(u, j) == o.entry(u, j));
                assert(o.valid(u, j));
            }
            assert forall|j: int| 0 < j < self.pages@.len() implies {
                let (u, k) = #[trigger] self.parent@[j];
                &&& 0 <= u < self.pages@.len()
                &&& 0 <= k < 512
                &&& self.depth@[u] < 3
                &&& self.valid(u, k)
                &&& self.child(u, k) == j
            } by {
                let (u, k) = o.parent@[j];
                assert(o.valid(u, k));
                assert(self.entry(u, k) == o.entry(u, k));
            }
            assert forall|b: u64| #[trigger] self.leaf_table(b) == o.leaf_table(b) by {
                let k2 = px(2, b);
                let k1 = px(1, b);
                let k0 = px(0, b);
                assert(0 <= k2 < 512 && 0 <= k1 < 512 && 0 <= k0 < 512);
                assert(self.entry(0, k2) == o.entry(0, k2));
                if o.valid(0, k2) {
                    let t1 = o.child(0, k2);
                    assert(self.entry(t1, k1) == o.entry(t1, k1));
                    if o.valid(t1, k1) {
                        let t2 = o.child(t1, k1);
                        assert(self.entry(t2, k0) == o.entry(t2, k0));
                    }
                }
            }
            assert forall|b: u64|
                (#[trigger] o.leaf_table(b)) is Some && (o.leaf_table(b) != Some(t as int) || px(0, b) != i)
                    implies self.leaf_entry(b) == o.leaf_entry(b) by {
                let lt = o.leaf_table(b)->0;
                lemma_leaf_depth(o, b);
                assert(self.entry(lt, px(0, b)) == o.entry(lt, px(0, b)));
            }
        }
    }

    /// Maps the page at `a`, which is not mapped yet, to physical address
    /// `p` with `flags` and the valid flag, creating page-table pages as
    /// needed. Fails only when the pool runs out of pages. No other page
    /// below `MAXVA` changes its mapping, and none becomes mapped.
    fn map_one(&mut self, a: u64, p: u64, flags: PageTableEntryFlags) -> (r: Result<(), MapToError>)
        requires
            old(self).wf(),
            a < MAXVA,
            a % 4096 == 0,
            !old(self).mapped(a),
        ensures
            final(self).wf(),
            r is Ok ==> final(self).leaf_entry(a) == Some(leaf_pte(p, flags.spec_bits())),
            forall|b: u64|
                b < MAXVA && page_start(b as int) != a && (#[trigger] old(self).leaf_table(b)) is Some
                    ==> final(self).leaf_entry(b) == old(self).leaf_entry(b) && final(self).leaf_table(b)
                    == old(self).leaf_table(b),
            forall|b: u64|
                b < MAXVA && page_start(b as int) != a && #[trigger] final(self).mapped(b) ==> old(
                    self,
                ).mapped(b),
            r is Err ==> final(self).spec_len() == final(self).spec_capacity(),
    {
        proof {
            reveal(PageTablePool::wf);
            reveal(PageTablePool::leaf_table);
        }
        let valid = PageTableEntryFlags::from_bits_truncate(PTE_V);
        proof {
            assert(1u64 & 0x1Fu64 == 1u64) by (bit_vector);
        }
        let leaf_flags = flags.union(valid);
        let ghost start = *self;
        let (t, i) = match self.walk(VirtAddr::new(a), true) {
            Some(x) => x,
            None => return Err(MapToError::FrameAllocationFailed),
        };
        let pte = self.pages[t].index(i);
        let mut entry = pte;
        let x = pa2pte(p);
        entry.set_addr(PhysAddr::new(x), leaf_flags);
        let ghost mid = *self;
        proof {
            lemma_leaf_depth(&mid, a);
        }
        self.set_leaf(t, i, entry);
        proof {
            assert(self.leaf_table(a) == Some(t as int));
            lemma_page_start_aligned(a);
            assert(page_start(a as int) == a);
            assert forall|b: u64|
                b < MAXVA && page_start(b as int) != a && (#[trigger] old(self).leaf_table(b)) is Some
                    implies self.leaf_entry(b) == old(self).leaf_entry(b) && self.leaf_table(b)
                    == old(self).leaf_table(b) by {
                assert(mid.leaf_table(b) == old(self).leaf_table(b));
                lemma_px_distinct(a, b);
                lemma_leaves_distinct(&mid, a, b);
            }
            assert forall|b: u64|
                b < MAXVA && page_start(b as int) != a && #[trigger] self.mapped(b) implies old(self).mapped(b) by {
                if old(self).leaf_table(b) is None {
                    assert(self.leaf_table(b) == mid.leaf_table(b));
                    assert(mid.leaf_table(b) is Some);
                    lemma_new_leaf(&start, &mid, b);
                    lemma_leaf_depth(&mid, b);
                    lemma_px_distinct(a, b);
                    lemma_leaves_distinct(&mid, a, b);
                    let lt = mid.leaf_table(b)->0;
                    assert(0 <= px(0, b) < 512);
                    assert(mid.entry(lt, px(0, b)) == 0);
                    assert(self.leaf_entry(b) == mid.leaf_entry(b));
                } else {
                    assert(mid.leaf_table(b) == old(self).leaf_table(b));
                    lemma_px_distinct(a, b);
                    lemma_leaves_distinct(&mid, a, b);
                }
            }
        }
        Ok(())
    }

    /// Maps the pages that `size` bytes from `va` touch to consecutive
    /// physical pages from `pa`, with `flags` and the valid flag, creating
    /// page-table pages as needed. Mapping a page that is mapped already is
    /// fatal, so no page of the range may be. Fails only when the pool runs
    /// out of pages. The mappings of other pages are left as they were, and
    /// no other page becomes mapped.
    pub fn map_pages(&mut self, va: VirtAddr, pa: PhysAddr, size: u64, flags: PageTableEntryFlags) -> (r: Result<(), MapToError>)
        requires
            old(self).wf(),
            size > 0,
            va.spec_addr() + size - 1 < MAXVA,
            pa.spec_addr() + page_start(va.spec_addr() + size - 1) - page_start(va.spec_addr() as int) <= u64::MAX,
            forall|b: u64|
                page_start(va.spec_addr() as int) <= b <= page_start(va.spec_addr() + size - 1) && b
                    % 4096 == 0 ==> !#[trigger] old(self).mapped(b),
        ensures
            final(self).wf(),
            ({
                let first = page_start(va.spec_addr() as int);
                let last = page_start(va.spec_addr() + size - 1);
                &&& r is Ok ==> final(self).maps_range(va.spec_addr(), pa.spec_addr(), size, flags.spec_bits())
                &&& forall|b: u64|
                    b < MAXVA && !(first <= page_start(b as int) <= last) && (#[trigger] old(self).leaf_table(b)) is Some
                        ==> final(self).leaf_entry(b) == old(self).leaf_entry(b)
                &&& forall|b: u64|
                    b < MAXVA && !(first <= page_start(b as int) <= last) && #[trigger] final(self).mapped(b)
                        ==> old(self).mapped(b)
                &&& r is Err ==> final(self).spec_len() == final(self).spec_capacity()
            }),
    {
        let first = pg_round_down(va.as_u64());
        let last = pg_round_down(va.as_u64() + size - 1);
        let mut a = first;
        let mut p = pa.as_u64();
        loop
            invariant
                self.wf(),
                first == page_start(va.spec_addr() as int),
                last == page_start(va.spec_addr() + size - 1),
                first <= a <= last,
                a % 4096 == 0,
                last < MAXVA,
                p == pa.spec_addr() + (a - first),
                pa.spec_addr() + last - first <= u64::MAX,
                forall|b: u64|
                    first <= b < a && b % 4096 == 0 ==> #[trigger] self.leaf_entry(b) == Some(
                        leaf_pte((pa.spec_addr() + (b - first)) as u64, flags.spec_bits()),
                    ),
                forall|b: u64|
                    b < MAXVA && !(first <= page_start(b as int) < a) && (#[trigger] old(self).leaf_table(b)) is Some
                        ==> self.leaf_entry(b) == old(self).leaf_entry(b) && self.leaf_table(b) == old(self).leaf_table(b),
                forall|b: u64|
                    b < MAXVA && !(first <= page_start(b as int) < a) && #[trigger] self.mapped(b)
                        ==> old(self).mapped(b),
                forall|b: u64|
                    first <= b <= last && b % 4096 == 0 ==> !#[trigger] old(self).mapped(b),
            decreases last - a,
        {
            let ghost before = *self;
            proof {
                lemma_page_start_aligned(a);
                if self.mapped(a) {
                    assert(old(self).mapped(a));
                }
            }
            let step = self.map_one(a, p, flags);
            proof {
                assert forall|b: u64|
                    b < MAXVA && !(first <= page_start(b as int) <= a) && #[trigger] self.mapped(b)
                        implies old(self).mapped(b) by {
                    lemma_page_start_aligned(b);
                    assert(before.mapped(b));
                }
                assert forall|b: u64|
                    first <= b < a && b % 4096 == 0 implies #[trigger] self.leaf_entry(b) == Some(
                        leaf_pte((pa.spec_addr() + (b - first)) as u64, flags.spec_bits()),
                    ) by {
                    assert(before.leaf_entry(b) is Some);
                    assert(page_start(b as int) == b);
                }
                assert forall|b: u64|
                    b < MAXVA && !(first <= page_start(b as int) <= a) && (#[trigger] old(self).leaf_table(b)) is Some
                        implies self.leaf_entry(b) == old(self).leaf_entry(b) && self.leaf_table(b) == old(self).leaf_table(b) by {
                    lemma_page_start_aligned(b);
                }
            }
            match step {
                Ok(()) => {},
                Err(e) => return Err(e),
            }
            if a == last {
                return Ok(());
            }
            a = a + PGSIZE;
            p = p + PGSIZE;
        }
    }
}

/// The page of `b` is one of those that `size` bytes from `va` touch.
pub open spec fn in_region(b: u64, va: u64, size: u64) -> bool {
    page_start(va as int) <= page_start(b as int) <= page_start(va + size - 1)
}

/// The page of `b` is one that the kernel's page table maps, with kernel
/// text ending at `etext`.
pub open spec fn in_kernel_map(b: u64, etext: u64) -> bool {
    ||| in_region(b, UART0, PGSIZE)
    ||| in_region(b, VIRTIO0, PGSIZE)
    ||| in_region(b, PLIC, 0x40_0000)
    ||| in_region(b, KERNBASE, (etext - KERNBASE) as u64)
    ||| in_region(b, etext, (PHYSTOP - etext) as u64)
    ||| in_region(b, TRAMPOLINE, PGSIZE)
}

/// Adds a mapping to the kernel page table, at boot.
pub fn kvmmap(pt: &mut PageTablePool, va: VirtAddr, pa: PhysAddr, size: u64, flags: PageTableEntryFlags) -> (r: Result<(), MapToError>)
    requires
        old(pt).wf(),
        size > 0,
        va.spec_addr() + size - 1 < MAXVA,
        pa.spec_addr() + page_start(va.spec_addr() + size - 1) - page_start(va.spec_addr() as int) <= u64::MAX,
        forall|b: u64|
            page_start(va.spec_addr() as int) <= b <= page_start(va.spec_addr() + size - 1) && b % 4096
                == 0 ==> !#[trigger] old(pt).mapped(b),
    ensures
        final(pt).wf(),
        r is Ok ==> final(pt).maps_range(va.spec_addr(), pa.spec_addr(), size, flags.spec_bits()),
        forall|b: u64|
            b < MAXVA && !in_region(b, va.spec_addr(), size) && (#[trigger] old(pt).leaf_table(b)) is Some
                ==> final(pt).leaf_entry(b) == old(pt).leaf_entry(b),
        forall|b: u64|
            b < MAXVA && !in_region(b, va.spec_addr(), size) && #[trigger] final(pt).mapped(b) ==> old(
                pt,
            ).mapped(b),
        r is Err ==> final(pt).spec_len() == final(pt).spec_capacity(),
{
    pt.map_pages(va, pa, size, flags)
}

/// Builds the kernel's direct-mapped page table in `pt`: the UART, the
/// virtio disk and the PLIC registers read-write, kernel text (up to
/// `etext`) readable and executable, kernel data and the rest of RAM
/// read-write, and the trampoline page (at physical `trampoline`) at the
/// top of the address space, in a page table that maps nothing yet.
/// Fails only when the pool runs out of pages; otherwise no other page is
/// mapped.
pub fn kvmmake(pt: &mut PageTablePool, etext: u64, trampoline: u64) -> (r: Result<(), MapToError>)
    requires
        old(pt).wf(),
        forall|b: u64| !#[trigger] old(pt).mapped(b),
        KERNBASE < etext < PHYSTOP,
        etext % PGSIZE == 0,
    ensures
        final(pt).wf(),
        r is Err ==> final(pt).spec_len() == final(pt).spec_capacity(),
        r is Ok ==> forall|b: u64| b < MAXVA && #[trigger] final(pt).mapped(b) ==> in_kernel_map(b, etext),
        r is Ok ==> {
            &&& final(pt).maps_range(UART0, UART0, PGSIZE, PTE_R | PTE_W)
            &&& final(pt).maps_range(VIRTIO0, VIRTIO0, PGSIZE, PTE_R | PTE_W)
            &&& final(pt).maps_range(PLIC, PLIC, 0x40_0000, PTE_R | PTE_W)
            &&& final(pt).maps_range(KERNBASE, KERNBASE, (etext - KERNBASE) as u64, PTE_R | PTE_X)
            &&& final(pt).maps_range(etext, etext, (PHYSTOP - etext) as u64, PTE_R | PTE_W)
            &&& final(pt).maps_range(TRAMPOLINE, trampoline, PGSIZE, PTE_R | PTE_W)
        },
{
    let rw = PageTableEntryFlags::from_bits_truncate(PTE_R | PTE_W);
    let rx = PageTableEntryFlags::from_bits_truncate(PTE_R | PTE_X);
    proof {
        assert((2u64 | 4u64) & 0x1Fu64 == (2u64 | 4u64) && (2u64 | 4u64) <= 0x1Fu64) by (bit_vector);
        assert((2u64 | 8u64) & 0x1Fu64 == (2u64 | 8u64) && (2u64 | 8u64) <= 0x1Fu64) by (bit_vector);
    }
    // uart registers
    if let Err(e) = kvmmap(pt, VirtAddr::new(UART0), PhysAddr::new(UART0), PGSIZE, rw) {
        return Err(e);
    }
    let ghost p1 = *pt;
    // virtio mmio disk interface
    if let Err(e) = kvmmap(pt, VirtAddr::new(VIRTIO0), PhysAddr::new(VIRTIO0), PGSIZE, rw) {
        return Err(e);
    }
    let ghost p2 = *pt;
    // PLIC
    if let Err(e) = kvmmap(pt, VirtAddr::new(PLIC), PhysAddr::new(PLIC), 0x40_0000, rw) {
        return Err(e);
    }
    let ghost p3 = *pt;
    // kernel text, executable and read-only
    if let Err(e) = kvmmap(pt, VirtAddr::new(KERNBASE), PhysAddr::new(KERNBASE), etext - KERNBASE, rx) {
        return Err(e);
    }
    let ghost p4 = *pt;
    // kernel data and the physical RAM we'll make use of
    if let Err(e) = kvmmap(pt, VirtAddr::new(etext), PhysAddr::new(etext), PHYSTOP - etext, rw) {
        return Err(e);
    }
    let ghost p5 = *pt;
    // the trampoline for trap entry and exit, at the highest virtual address
    if let Err(e) = kvmmap(pt, VirtAddr::new(TRAMPOLINE), PhysAddr::new(trampoline), PGSIZE, rw) {
        return Err(e);
    }
    proof {
        lemma_maps_range_kept(&p1, &p2, UART0, UART0, PGSIZE, PTE_R | PTE_W, VIRTIO0, PGSIZE);
        lemma_maps_range_kept(&p2, &p3, UART0, UART0, PGSIZE, PTE_R | PTE_W, PLIC, 0x40_0000);
        lemma_maps_range_kept(&p2, &p3, VIRTIO0, VIRTIO0, PGSIZE, PTE_R | PTE_W, PLIC, 0x40_0000);
        lemma_maps_range_kept(&p3, &p4, UART0, UART0, PGSIZE, PTE_R | PTE_W, KERNBASE, (etext - KERNBASE) as u64);
        lemma_maps_range_kept(&p3, &p4, VIRTIO0, VIRTIO0, PGSIZE, PTE_R | PTE_W, KERNBASE, (etext - KERNBASE) as u64);
        lemma_maps_range_kept(&p3, &p4, PLIC, PLIC, 0x40_0000, PTE_R | PTE_W, KERNBASE, (etext - KERNBASE) as u64);
        lemma_maps_range_kept(&p4, &p5, UART0, UART0, PGSIZE, PTE_R | PTE_W, etext, (PHYSTOP - etext) as u64);
        lemma_maps_range_kept(&p4, &p5, VIRTIO0, VIRTIO0, PGSIZE, PTE_R | PTE_W, etext, (PHYSTOP - etext) as u64);
        lemma_maps_range_kept(&p4, &p5, PLIC, PLIC, 0x40_0000, PTE_R | PTE_W, etext, (PHYSTOP - etext) as u64);
        lemma_maps_range_kept(&p4, &p5, KERNBASE, KERNBASE, (etext - KERNBASE) as u64, PTE_R | PTE_X, etext, (PHYSTOP - etext) as u64);
        lemma_maps_range_kept(&p5, pt, UART0, UART0, PGSIZE, PTE_R | PTE_W, TRAMPOLINE, PGSIZE);
        lemma_maps_range_kept(&p5, pt, VIRTIO0, VIRTIO0, PGSIZE, PTE_R | PTE_W, TRAMPOLINE, PGSIZE);
        lemma_maps_range_kept(&p5, pt, PLIC, PLIC, 0x40_0000, PTE_R | PTE_W, TRAMPOLINE, PGSIZE);
        lemma_maps_range_kept(&p5, pt, KERNBASE, KERNBASE, (etext - KERNBASE) as u64, PTE_R | PTE_X, TRAMPOLINE, PGSIZE);
        lemma_maps_range_kept(&p5, pt, etext, etext, (PHYSTOP - etext) as u64, PTE_R | PTE_W, TRAMPOLINE, PGSIZE);
    }
    Ok(())
}

/// A mapped range stays mapped when a later mapping covers other pages.
proof fn lemma_maps_range_kept(
    a: &PageTablePool,
    b: &PageTablePool,
    va: u64,
    pa: u64,
    size: u64,
    flags: u64,
    va2: u64,
    size2: u64,
)
    requires
        a.maps_range(va, pa, size, flags),
        size > 0,
        va + size - 1 < MAXVA,
        page_start(va + size - 1) < page_start(va2 as int) || page_start(va2 + size2 - 1) < page_start(
            va as int,
        ),
        forall|c: u64|
            c < MAXVA && !(page_start(va2 as int) <= page_start(c as int) <= page_start(va2 + size2 - 1))
                && (#[trigger] a.leaf_table(c)) is Some ==> b.leaf_entry(c) == a.leaf_entry(c),
    ensures
        b.maps_range(va, pa, size, flags),
{
    let first = page_start(va as int);
    let last = page_start(va + size - 1);
    assert forall|c: u64| first <= c <= last && c % 4096 == 0 implies #[trigger] b.leaf_entry(c) == Some(
        leaf_pte((pa + (c - first)) as u64, flags),
    ) by {
        assert(a.leaf_entry(c) is Some);
        assert(page_start(c as int) == c);
    }
}

/// The page a complete path leads to is a pool page three levels down.
proof fn lemma_leaf_depth(p: &PageTablePool, b: u64)
    requires
        p.wf(),
        p.leaf_table(b) is Some,
    ensures
        0 < p.leaf_table(b)->0 < p.pages@.len(),
        p.depth@[p.leaf_table(b)->0] == 3,
{
    reveal(PageTablePool::wf);
    reveal(PageTablePool::leaf_table);
    let k2 = px(2, b);
    let k1 = px(1, b);
    let k0 = px(0, b);
    assert(0 <= k2 < 512 && 0 <= k1 < 512 && 0 <= k0 < 512);
    assert(p.valid(0, k2));
    let t1 = p.child(0, k2);
    assert(p.valid(t1, k1));
    let t2 = p.child(t1, k1);
    assert(p.valid(t2, k0));
}

/// A page starts at a multiple of the page size.
proof fn lemma_page_start_aligned(b: u64)
    ensures
        page_start(b as int) % 4096 == 0,
{
    assert((b - b % 4096) % 4096 == 0) by (bit_vector);
}

/// Below `MAXVA`, addresses in different pages differ in one of their three
/// indices.
proof fn lemma_px_distinct(a: u64, b: u64)
    requires
        a < MAXVA,
        b < MAXVA,
        page_start(a as int) != page_start(b as int),
    ensures
        px(0, a) != px(0, b) || px(1, a) != px(1, b) || px(2, a) != px(2, b),
{
    assert(a < 0x40_0000_0000u64 && b < 0x40_0000_0000u64 && a - a % 4096 != b - b % 4096 ==> (a
        / 0x1000) % 512 != (b / 0x1000) % 512 || (a / 0x20_0000) % 512 != (b / 0x20_0000) % 512 || (a
        / 0x4000_0000) % 512 != (b / 0x4000_0000) % 512) by (bit_vector);
}

/// Addresses that differ in one of their three indices reach different leaf
/// entries: each page but the root has exactly one entry pointing at it.
proof fn lemma_leaves_distinct(p: &PageTablePool, a: u64, b: u64)
    requires
        p.wf(),
        p.leaf_table(a) is Some,
        p.leaf_table(b) is Some,
        px(0, a) != px(0, b) || px(1, a) != px(1, b) || px(2, a) != px(2, b),
    ensures
        p.leaf_table(a) != p.leaf_table(b) || px(0, a) != px(0, b),
{
    reveal(PageTablePool::wf);
    reveal(PageTablePool::leaf_table);
    lemma_leaf_depth(p, a);
    lemma_leaf_depth(p, b);
    let ta1 = p.child(0, px(2, a));
    let ta2 = p.child(ta1, px(1, a));
    let ta3 = p.child(ta2, px(0, a));
    let tb1 = p.child(0, px(2, b));
    let tb2 = p.child(tb1, px(1, b));
    let tb3 = p.child(tb2, px(0, b));
    assert(0 <= px(2, a) < 512 && 0 <= px(1, a) < 512 && 0 <= px(0, a) < 512);
    assert(0 <= px(2, b) < 512 && 0 <= px(1, b) < 512 && 0 <= px(0, b) < 512);
    assert(p.valid(0, px(2, a)) && p.valid(ta1, px(1, a)) && p.valid(ta2, px(0, a)));
    assert(p.valid(0, px(2, b)) && p.valid(tb1, px(1, b)) && p.valid(tb2, px(0, b)));
    assert(p.parent@[ta3] == (ta2, px(0, a)));
    assert(p.parent@[tb3] == (tb2, px(0, b)));
    assert(p.parent@[ta2] == (ta1, px(1, a)));
    assert(p.parent@[tb2] == (tb1, px(1, b)));
    assert(p.parent@[ta1] == (0int, px(2, a)));
    assert(p.parent@[tb1] == (0int, px(2, b)));
}

/// A path that a growth of the pool completed ends in a page that the
/// growth added.
proof fn lemma_new_leaf(old: &PageTablePool, new: &PageTablePool, c: u64)
    requires
        old.wf(),
        new.wf(),
        new.extends(old),
        old.leaf_table(c) is None,
        new.leaf_table(c) is Some,
    ensures
        new.leaf_table(c)->0 >= old.pages@.len(),
{
    reveal(PageTablePool::wf);
    reveal(PageTablePool::leaf_table);
    let k2 = px(2, c);
    let k1 = px(1, c);
    let k0 = px(0, c);
    assert(0 <= k2 < 512 && 0 <= k1 < 512 && 0 <= k0 < 512);
    let t1 = new.child(0, k2);
    let t2 = new.child(t1, k1);
    assert(new.valid(0, k2) && new.valid(t1, k1) && new.valid(t2, k0));
    assert(new.depth@[t1] == 1 && new.depth@[t2] == 2);
    if old.valid(0, k2) {
        assert(new.entry(0, k2) == old.entry(0, k2));
        assert(t1 == old.child(0, k2));
        if old.valid(t1, k1) {
            assert(new.entry(t1, k1) == old.entry(t1, k1));
            assert(t2 == old.child(t1, k1));
            if old.valid(t2, k0) {
                assert(old.leaf_table(c) is Some);
            }
        }
    }
}

/// Growing the pool twice is growing it once.
proof fn lemma_extends_trans(a: &PageTablePool, b: &PageTablePool, c: &PageTablePool)
    requires
        b.extends(a),
        c.extends(b),
    ensures
        c.extends(a),
{
    assert forall|u: int, k: int|
        0 <= u < c.pages@.len() && 0 <= k < 512 && c.depth@[u] < 3 && #[trigger] c.valid(u, k) && !(u
            < a.pages@.len() && a.valid(u, k)) implies c.child(u, k) >= a.pages@.len() by {
        if u < b.pages@.len() && b.valid(u, k) {
            assert(c.entry(u, k) == b.entry(u, k));
            assert(c.depth@[u] == b.depth@[u]);
            if u < a.pages@.len() {
                assert(b.entry(u, k) == a.entry(u, k) || !a.valid(u, k));
            }
        }
    }
    assert forall|u: int, k: int|
        a.pages@.len() <= u < c.pages@.len() && 0 <= k < 512 && c.depth@[u] == 3 implies #[trigger] c.entry(
        u,
        k,
    ) == 0 by {
        if u < b.pages@.len() {
            assert(c.depth@[u] == b.depth@[u]);
            assert(b.entry(u, k) == 0);
            assert(c.pages@[u] == b.pages@[u]);
        }
    }
    assert forall|u: int, k: int|
        0 <= u < a.pages@.len() && 0 <= k < 512 && #[trigger] a.valid(u, k) implies c.entry(u, k)
        == a.entry(u, k) by {
        assert(b.entry(u, k) == a.entry(u, k));
        assert(b.valid(u, k));
    }
    assert forall|b2: u64| (#[trigger] a.leaf_table(b2)) is Some implies c.leaf_table(b2) == a.leaf_table(b2)
        && c.leaf_entry(b2) == a.leaf_entry(b2) by {
        assert(b.leaf_table(b2) == a.leaf_table(b2));
    }
    assert forall|u: int|
        0 <= u < a.pages@.len() && a.depth@[u] == 3 implies #[trigger] c.pages@[u] == a.pages@[u] by {
        assert(b.depth@[u] == a.depth@[u]);
    }
}

} // verus!
