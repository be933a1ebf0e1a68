//! Sv39 three-level page tables: one `Mapping` per address space, owning
//! every physical frame used to represent the translation graph.
//!
//! The hardware walk reads the low 27 bits of a virtual page number as
//! three 9-bit indices, highest level first. Each owned table records
//! which level it serves and the index path (`prefix`) that reaches it,
//! and the well-formedness invariant ties those positions to the entries:
//! a valid non-leaf entry points exactly at the owned child table of the
//! matching position. Under that invariant the walk from the root equals
//! a direct lookup of the level-0 table, which is what the contracts of
//! `map_one` and `map` are stated over.

use vstd::prelude::*;
use crate::addr::{PhysicalPageNumber, VirtualPageNumber, KERNEL_MAP_OFFSET_VPN, PAGE_SIZE, SV39_VPN_SPAN};
use crate::segment::{MapType, Segment};
use crate::frame::{FrameAllocator, FrameTracker, MemoryResult};
use crate::page_table_entry::{Flags, PageTableEntry, FLAG_VALID, PPN_LIMIT};

verus! {

/// Entries per table: one Sv39 table is 512 eight-byte entries.
pub const TABLE_LEN: usize = 512;

/// A frame used as one Sv39 page table, together with its place in the
/// translation graph.
pub struct PageTableTracker {
    /// The physical frame the table lives in.
    frame: FrameTracker,
    /// 2 for the root, 1 for a middle table, 0 for a leaf table.
    level: u64,
    /// The index path from the root that reaches this table: empty for
    /// the root, `i2` at level 1, `i2 * 512 + i1` at level 0.
    prefix: u64,
    /// The 512 entries stored in the frame.
    entries: Vec<PageTableEntry>,
}

/// A single table is internally consistent.
pub closed spec fn wf_table(t: PageTableTracker) -> bool {
    &&& t.entries@.len() == TABLE_LEN
    &&& t.level <= 2
    &&& (t.level == 2 ==> t.prefix == 0)
    &&& (t.level == 1 ==> t.prefix < 512)
    &&& (t.level == 0 ==> t.prefix < 512 * 512)
    &&& t.frame.spec_ppn().0 < PPN_LIMIT
    &&& forall|k: int| 0 <= k < TABLE_LEN ==> (#[trigger] t.entries@[k]).wf()
}

impl PageTableTracker {
    /// The frame this table occupies.
    pub closed spec fn spec_ppn(&self) -> int {
        self.frame.spec_ppn().0 as int
    }
}

/// The page-table graph of one address space.
pub struct Mapping {
    /// Frame of the root (level 2) table; what `satp` would hold.
    root_ppn: PhysicalPageNumber,
    /// Every table of the graph; the root is first.
    tables: Vec<PageTableTracker>,
}

impl Mapping {
    /// The owned tables.
    pub closed spec fn spec_tables(self) -> Seq<PageTableTracker> {
        self.tables@
    }

    /// Frame of the root table.
    pub closed spec fn spec_root_ppn(self) -> int {
        self.root_ppn.0 as int
    }

    /// Whether position `j` of the owned tables serves `(level, prefix)`.
    pub closed spec fn is_pos(self, j: int, level: int, prefix: int) -> bool {
        &&& 0 <= j < self.tables@.len()
        &&& self.tables@[j].level == level
        &&& self.tables@[j].prefix == prefix
    }

    /// Whether the graph owns a table for `(level, prefix)`.
    pub closed spec fn has_table(self, level: int, prefix: int) -> bool {
        exists|j: int| #[trigger] self.is_pos(j, level, prefix)
    }

    /// The position of the table serving `(level, prefix)`.
    pub closed spec fn table_at(self, level: int, prefix: int) -> int {
        choose|j: int| #[trigger] self.is_pos(j, level, prefix)
    }

    /// Entry `k` of the table at position `j`.
    pub closed spec fn eat(self, j: int, k: int) -> PageTableEntry {
        self.tables@[j].entries@[k]
    }

    /// Tables serve distinct positions and live in distinct frames.
    pub closed spec fn wf_distinct(self) -> bool {
        forall|j1: int, j2: int|
            0 <= j1 < self.tables@.len() && 0 <= j2 < self.tables@.len() && j1 != j2 ==> {
                &&& ((#[trigger] self.tables@[j1]).level != (#[trigger] self.tables@[j2]).level
                    || self.tables@[j1].prefix != self.tables@[j2].prefix)
                &&& self.tables@[j1].frame.spec_ppn() != self.tables@[j2].frame.spec_ppn()
            }
    }

    /// Every valid non-leaf entry points at the owned child table of the
    /// matching position, carrying exactly the V flag.
    pub closed spec fn wf_links_down(self) -> bool {
        forall|j: int, k: int|
            0 <= j < self.tables@.len() && 0 <= k < TABLE_LEN && self.tables@[j].level >= 1
                && (#[trigger] self.eat(j, k)).spec_is_valid() ==> {
                let lv = self.tables@[j].level as int - 1;
                let cp = self.tables@[j].prefix as int * 512 + k;
                &&& self.has_table(lv, cp)
                &&& self.eat(j, k).spec_ppn() == self.tables@[self.table_at(lv, cp)].frame.spec_ppn().0
                &&& self.eat(j, k).spec_flags() == FLAG_VALID
            }
    }

    /// Every non-root table is reachable: its parent table exists and the
    /// parent entry on the path is valid.
    pub closed spec fn wf_links_up(self) -> bool {
        forall|j: int|
            0 <= j < self.tables@.len() && (#[trigger] self.tables@[j]).level < 2 ==> {
                let lv = self.tables@[j].level as int + 1;
                let pp = self.tables@[j].prefix as int / 512;
                let pk = self.tables@[j].prefix as int % 512;
                &&& self.has_table(lv, pp)
                &&& self.eat(self.table_at(lv, pp), pk).spec_is_valid()
            }
    }

    /// The whole graph is consistent: a root at position 0, internally
    /// consistent tables, distinct positions and frames, and entries that
    /// link parent and child tables exactly.
    pub closed spec fn wf(self) -> bool {
        &&& self.tables@.len() >= 1
        &&& self.tables@[0].level == 2
        &&& self.tables@[0].prefix == 0
        &&& self.tables@[0].frame.spec_ppn().0 == self.root_ppn.0
        &&& forall|j: int| 0 <= j < self.tables@.len() ==> wf_table(#[trigger] self.tables@[j])
        &&& self.wf_distinct()
        &&& self.wf_links_down()
        &&& self.wf_links_up()
    }

    /// No owned table sits on a frame the allocator still considers free.
    /// Holding this apart keeps freshly allocated frames distinct from
    /// every owned table.
    pub closed spec fn frames_outside(self, fa: FrameAllocator) -> bool {
        forall|j: int|
            0 <= j < self.tables@.len() ==> !fa.is_free(
                (#[trigger] self.tables@[j]).frame.spec_ppn().0 as int,
            )
    }

    /// What the level-0 table says about the 27-bit page index `idx`:
    /// the valid leaf entry, if the table exists and the entry is valid.
    pub closed spec fn leaf_entry(self, idx: int) -> Option<PageTableEntry> {
        if self.has_table(0, idx / 512) {
            let e = self.eat(self.table_at(0, idx / 512), idx % 512);
            if e.spec_is_valid() {
                Some(e)
            } else {
                None
            }
        } else {
            None
        }
    }

    /// The owned table living in frame `ppn`, if any.
    pub closed spec fn idx_by_ppn(self, ppn: int) -> Option<int> {
        if exists|j: int|
            0 <= j < self.tables@.len() && (#[trigger] self.tables@[j]).frame.spec_ppn().0
                == ppn {
            Some(
                choose|j: int|
                    0 <= j < self.tables@.len() && (#[trigger] self.tables@[j]).frame.spec_ppn().0
                        == ppn,
            )
        } else {
            None
        }
    }

    /// The hardware translation walk: start at the frame `satp` names,
    /// follow valid entries through the three levels, and return the
    /// level-0 entry reached — if each step stays on an owned table.
    pub open spec fn walk(self, vpn: VirtualPageNumber) -> Option<PageTableEntry> {
        let (i2, i1, i0) = vpn.spec_levels();
        match self.idx_by_ppn(self.spec_root_ppn()) {
            None => None,
            Some(r) => {
                let e2 = self.eat(r, i2);
                if !e2.spec_is_valid() {
                    None
                } else {
                    match self.idx_by_ppn(e2.spec_ppn()) {
                        None => None,
                        Some(j1) => {
                            let e1 = self.eat(j1, i1);
                            if !e1.spec_is_valid() {
                                None
                            } else {
                                match self.idx_by_ppn(e1.spec_ppn()) {
                                    None => None,
                                    Some(j0) => {
                                        let e0 = self.eat(j0, i0);
                                        if e0.spec_is_valid() {
                                            Some(e0)
                                        } else {
                                            None
                                        }
                                    },
                                }
                            }
                        },
                    }
                }
            },
        }
    }
}

impl Mapping {
    /// A fresh address space: allocate and zero a root table and record
    /// it. Afterwards no virtual page translates.
    pub fn new(fa: &mut FrameAllocator) -> (r: MemoryResult<Mapping>)
        requires
            old(fa).wf(),
        ensures
            final(fa).wf(),
            final(fa).spec_start() == old(fa).spec_start(),
            final(fa).spec_end() == old(fa).spec_end(),
            forall|p: int| final(fa).is_free(p) ==> old(fa).is_free(p),
            match r {
                Ok(m) => {
                    &&& m.wf()
                    &&& m.spec_tables().len() == 1
                    &&& forall|idx: int| m.leaf_entry(idx) is None
                    &&& m.frames_outside(*final(fa))
                    &&& old(fa).spec_start() <= m.spec_root_ppn() < old(fa).spec_end()
                    &&& final(fa).free_size() == old(fa).free_size() - 1
                },
                Err(_) => {
                    &&& *final(fa) == *old(fa)
                    &&& old(fa).free_size() == 0
                },
            },
    {
        let frame = fa.allocate()?;
        let entries = new_table_entries();
        let root_ppn = frame.ppn();
        let root = PageTableTracker { frame, level: 2, prefix: 0, entries };
        let mut tables: Vec<PageTableTracker> = Vec::new();
        tables.push(root);
        let m = Mapping { root_ppn, tables };
        proof {
            assert forall|idx: int| m.leaf_entry(idx) is None by {
                if m.has_table(0, idx / 512) {
                    let j = choose|j: int| #[trigger] m.is_pos(j, 0, idx / 512);
                    assert(j == 0);
                }
            }
            assert(m.wf()) by {
                assert forall|j: int, k: int|
                    0 <= j < m.tables@.len() && 0 <= k < TABLE_LEN && m.tables@[j].level >= 1
                        && (#[trigger] m.eat(j, k)).spec_is_valid() implies false by {}
                assert forall|j: int|
                    0 <= j < m.tables@.len() && (#[trigger] m.tables@[j]).level
                        < 2 implies false by {}
            }
        }
        Ok(m)
    }

    /// The frame the root table lives in; what `satp` is loaded with on
    /// activation.
    pub fn root_ppn(&self) -> (r: PhysicalPageNumber)
        ensures
            r.0 == self.spec_root_ppn(),
    {
        self.root_ppn
    }

    /// The `satp` value for this graph: Sv39 mode bits over the root
    /// frame. The boot code writes it to the register and flushes the
    /// TLB.
    pub fn satp_value(&self) -> (r: u64)
        requires
            self.wf(),
        ensures
            r == 0x8000_0000_0000_0000u64 + self.spec_root_ppn(),
    {
        proof {
            assert(wf_table(self.spec_tables()[0]));
        }
        0x8000_0000_0000_0000u64 + self.root_ppn.0
    }

    /// Read entry `k` of owned table `j`.
    fn get_entry(&self, j: usize, k: usize) -> (r: PageTableEntry)
        requires
            j < self.spec_tables().len(),
            self.spec_tables()[j as int].entries@.len() == TABLE_LEN,
            k < TABLE_LEN,
        ensures
            r == self.eat(j as int, k as int),
    {
        self.tables[j].entries[k]
    }

    /// Write entry `k` of owned table `j`; everything else is untouched.
    fn set_entry(&mut self, j: usize, k: usize, e: PageTableEntry)
        requires
            j < old(self).spec_tables().len(),
            old(self).spec_tables()[j as int].entries@.len() == TABLE_LEN,
            k < TABLE_LEN,
        ensures
            final(self).spec_root_ppn() == old(self).spec_root_ppn(),
            final(self).spec_tables().len() == old(self).spec_tables().len(),
            final(self).eat(j as int, k as int) == e,
            forall|j2: int, k2: int|
                0 <= j2 < old(self).spec_tables().len() && 0 <= k2 < TABLE_LEN && !(j2 == j
                    && k2 == k) ==> final(self).eat(j2, k2) == old(self).eat(j2, k2),
            forall|j2: int|
                0 <= j2 < old(self).spec_tables().len() ==> {
                    &&& (#[trigger] final(self).spec_tables()[j2]).level == old(
                        self,
                    ).spec_tables()[j2].level
                    &&& final(self).spec_tables()[j2].prefix == old(self).spec_tables()[j2].prefix
                    &&& final(self).spec_tables()[j2].frame.spec_ppn() == old(
                        self,
                    ).spec_tables()[j2].frame.spec_ppn()
                    &&& final(self).spec_tables()[j2].entries@.len() == old(
                        self,
                    ).spec_tables()[j2].entries@.len()
                },
    {
        self.tables[j].entries[k] = e;
    }

    /// Position of the owned table living in frame `ppn`.
    fn index_of_ppn(&self, ppn: u64) -> (r: usize)
        requires
            exists|j: int|
                0 <= j < self.spec_tables().len() && (#[trigger] self.spec_tables()[
                    j
                ]).frame.spec_ppn().0 == ppn,
        ensures
            r < self.spec_tables().len(),
            self.spec_tables()[r as int].frame.spec_ppn().0 == ppn,
    {
        let mut i: usize = 0;
        while i < self.tables.len()
            invariant
                i <= self.spec_tables().len(),
                forall|j: int|
                    0 <= j < i ==> (#[trigger] self.spec_tables()[j]).frame.spec_ppn().0 != ppn,
                exists|j: int|
                    0 <= j < self.spec_tables().len() && (#[trigger] self.spec_tables()[
                        j
                    ]).frame.spec_ppn().0 == ppn,
            decreases self.spec_tables().len() - i,
        {
            if self.tables[i].frame.ppn().0 == ppn {
                return i;
            }
            i = i + 1;
        }
        proof {
            let j = choose|j: int|
                0 <= j < self.spec_tables().len() && (#[trigger] self.spec_tables()[
                    j
                ]).frame.spec_ppn().0 == ppn;
            assert(false);
        }
        0
    }
}

/// A zeroed table: 512 invalid entries.
fn new_table_entries() -> (r: Vec<PageTableEntry>)
    ensures
        r@.len() == TABLE_LEN,
        forall|k: int| 0 <= k < TABLE_LEN ==> (#[trigger] r@[k]) == PageTableEntry(0),
        forall|k: int|
            0 <= k < TABLE_LEN ==> !(#[trigger] r@[k]).spec_is_valid() && r@[k].wf(),
{
    let mut v: Vec<PageTableEntry> = Vec::new();
    let mut i: usize = 0;
    while i < TABLE_LEN
        invariant
            i == v@.len(),
            i <= TABLE_LEN,
            forall|k: int| 0 <= k < i ==> (#[trigger] v@[k]) == PageTableEntry(0),
        decreases TABLE_LEN - i,
    {
        v.push(PageTableEntry::empty());
        i = i + 1;
    }
    v
}

/// With distinct positions, a table's position determines its index.
proof fn lemma_pos_unique(m: Mapping, j: int, l: int, p: int)
    requires
        m.wf_distinct(),
        m.is_pos(j, l, p),
    ensures
        m.has_table(l, p),
        m.table_at(l, p) == j,
{
    assert(m.has_table(l, p));
    let j2 = m.table_at(l, p);
    assert(m.is_pos(j2, l, p));
    if j2 != j {
        assert(m.spec_tables()[j].level != m.spec_tables()[j2].level || m.spec_tables()[
            j
        ].prefix != m.spec_tables()[j2].prefix);
        assert(false);
    }
}

impl Mapping {
    /// Hang a fresh zeroed table in `frame` under entry `k` of the owned
    /// table at position `parent`. The translation of every page is
    /// unchanged: the new entry leads only to invalid entries.
    #[verifier::rlimit(80)]
    fn grow(&mut self, parent: usize, k: usize, frame: FrameTracker) -> (t: usize)
        requires
            old(self).wf(),
            parent < old(self).spec_tables().len(),
            k < TABLE_LEN,
            old(self).spec_tables()[parent as int].level >= 1,
            !old(self).eat(parent as int, k as int).spec_is_valid(),
            frame.spec_ppn().0 < PPN_LIMIT,
            forall|j: int|
                0 <= j < old(self).spec_tables().len() ==> (#[trigger] old(self).spec_tables()[
                    j
                ]).frame.spec_ppn() != frame.spec_ppn(),
        ensures
            final(self).wf(),
            final(self).spec_root_ppn() == old(self).spec_root_ppn(),
            final(self).spec_tables().len() == old(self).spec_tables().len() + 1,
            t == old(self).spec_tables().len(),
            final(self).is_pos(
                t as int,
                old(self).spec_tables()[parent as int].level as int - 1,
                old(self).spec_tables()[parent as int].prefix as int * 512 + k,
            ),
            forall|j: int|
                0 <= j < old(self).spec_tables().len() ==> {
                    &&& (#[trigger] final(self).spec_tables()[j]).level == old(
                        self,
                    ).spec_tables()[j].level
                    &&& final(self).spec_tables()[j].prefix == old(self).spec_tables()[j].prefix
                    &&& final(self).spec_tables()[j].frame.spec_ppn() == old(
                        self,
                    ).spec_tables()[j].frame.spec_ppn()
                },
            final(self).spec_tables()[t as int].frame.spec_ppn() == frame.spec_ppn(),
            forall|j: int, l: int, p: int|
                0 <= j < old(self).spec_tables().len() ==> ((#[trigger] final(self).is_pos(
                    j,
                    l,
                    p,
                )) <==> old(self).is_pos(j, l, p)),
            forall|idx: int|
                #[trigger] final(self).leaf_entry(idx) == old(self).leaf_entry(idx),
    {
        proof {
            assert(wf_table(old(self).spec_tables()[parent as int]));
        }
        let lv: u64 = self.tables[parent].level - 1;
        let cp: u64 = self.tables[parent].prefix * 512 + (k as u64);
        let e = PageTableEntry::new(frame.ppn(), Flags(FLAG_VALID));
        self.set_entry(parent, k, e);
        let entries = new_table_entries();
        let t = self.tables.len();
        let ghost m0 = *old(self);
        let ghost mid = *self;
        self.tables.push(PageTableTracker { frame, level: lv, prefix: cp, entries });
        proof {
            let m1 = *self;
            let ti = t as int;
            let pi = parent as int;
            let ki = k as int;
            let lvi = lv as int;
            let cpi = cp as int;
            let n0 = m0.spec_tables().len() as int;
            assert(m1.spec_tables().len() == n0 + 1);
            assert(cpi / 512 == m0.spec_tables()[pi].prefix && cpi % 512 == ki)
                by (nonlinear_arith)
                requires
                    cpi == m0.spec_tables()[pi].prefix * 512 + ki,
                    0 <= ki < 512,
                    m0.spec_tables()[pi].prefix >= 0,
            ;
            // Tables below t carry over from the entry write; t is the new one.
            assert(forall|j: int|
                0 <= j < n0 ==> (#[trigger] m1.spec_tables()[j]) == mid.spec_tables()[j]);
            assert(m1.spec_tables()[ti].level == lv && m1.spec_tables()[ti].prefix == cp
                && m1.spec_tables()[ti].frame.spec_ppn() == frame.spec_ppn());

            // The new position was vacant before, else the parent entry
            // had been valid already.
            assert(!m0.has_table(lvi, cpi)) by {
                if m0.has_table(lvi, cpi) {
                    let j = m0.table_at(lvi, cpi);
                    assert(m0.is_pos(j, lvi, cpi));
                    assert(wf_table(m0.spec_tables()[j]));
                    assert(m0.spec_tables()[j].level < 2);
                    let pj = m0.table_at(lvi + 1, cpi / 512);
                    assert(m0.is_pos(pj, lvi + 1, cpi / 512));
                    lemma_pos_unique(m0, pi, lvi + 1, cpi / 512);
                    assert(pj == pi);
                    assert(m0.eat(pi, cpi % 512).spec_is_valid());
                }
            }

            // Entry values: (parent, k) became e, everything else carries over.
            assert(forall|j: int, k2: int|
                0 <= j < n0 && 0 <= k2 < TABLE_LEN && !(j == pi && k2 == ki)
                    ==> #[trigger] m1.eat(j, k2) == m0.eat(j, k2));
            assert(m1.eat(pi, ki) == e);
            assert(forall|k2: int|
                0 <= k2 < TABLE_LEN ==> !(#[trigger] m1.eat(ti, k2)).spec_is_valid());

            // Positions are the old ones plus the new table's.
            assert forall|j: int, l: int, p: int|
                0 <= j < n0 implies ((#[trigger] m1.is_pos(j, l, p)) <==> m0.is_pos(
                j,
                l,
                p,
            )) by {}
            assert(m1.is_pos(ti, lvi, cpi));

            assert(m1.wf_distinct()) by {
                assert forall|j1: int, j2: int|
                    0 <= j1 < m1.spec_tables().len() && 0 <= j2 < m1.spec_tables().len() && j1
                        != j2 implies {
                    &&& ((#[trigger] m1.spec_tables()[j1]).level != (#[trigger] m1.spec_tables()[
                        j2
                    ]).level || m1.spec_tables()[j1].prefix != m1.spec_tables()[j2].prefix)
                    &&& m1.spec_tables()[j1].frame.spec_ppn() != m1.spec_tables()[
                        j2
                    ].frame.spec_ppn()
                } by {
                    if j1 < n0 && j2 < n0 {
                    } else if j1 == ti && j2 < n0 {
                        if m1.spec_tables()[j2].level == lvi && m1.spec_tables()[j2].prefix
                            == cpi {
                            assert(m0.is_pos(j2, lvi, cpi));
                            assert(m0.has_table(lvi, cpi));
                        }
                    } else if j2 == ti && j1 < n0 {
                        if m1.spec_tables()[j1].level == lvi && m1.spec_tables()[j1].prefix
                            == cpi {
                            assert(m0.is_pos(j1, lvi, cpi));
                            assert(m0.has_table(lvi, cpi));
                        }
                    }
                }
            }

            // Internal consistency of each table.
            assert forall|j: int|
                0 <= j < m1.spec_tables().len() implies wf_table(
                #[trigger] m1.spec_tables()[j],
            ) by {
                if j < n0 {
                    assert(wf_table(m0.spec_tables()[j]));
                    assert forall|k2: int|
                        0 <= k2 < TABLE_LEN implies (#[trigger] m1.spec_tables()[j].entries@[
                        k2
                    ]).wf() by {
                        assert(m1.eat(j, k2) == m1.spec_tables()[j].entries@[k2]);
                        if j == pi && k2 == ki {
                        } else {
                            assert(m1.eat(j, k2) == m0.eat(j, k2));
                        }
                    }
                } else {
                    assert(m1.spec_tables()[j].level == lv);
                    assert(wf_table(m0.spec_tables()[pi]));
                    assert forall|k2: int|
                        0 <= k2 < TABLE_LEN implies (#[trigger] m1.spec_tables()[j].entries@[
                        k2
                    ]).wf() by {}
                }
            }

            // Downward links.
            assert forall|j: int, k2: int|
                0 <= j < m1.spec_tables().len() && 0 <= k2 < TABLE_LEN && m1.spec_tables()[
                j
            ].level >= 1 && (#[trigger] m1.eat(j, k2)).spec_is_valid() implies {
                let lv2 = m1.spec_tables()[j].level as int - 1;
                let cp2 = m1.spec_tables()[j].prefix as int * 512 + k2;
                &&& m1.has_table(lv2, cp2)
                &&& m1.eat(j, k2).spec_ppn() == m1.spec_tables()[m1.table_at(lv2, cp2)
                ].frame.spec_ppn().0
                &&& m1.eat(j, k2).spec_flags() == FLAG_VALID
            } by {
                let lv2 = m1.spec_tables()[j].level as int - 1;
                let cp2 = m1.spec_tables()[j].prefix as int * 512 + k2;
                if j == ti {
                    assert(false);
                } else if j == pi && k2 == ki {
                    lemma_pos_unique(m1, ti, lvi, cpi);
                } else {
                    assert(m1.eat(j, k2) == m0.eat(j, k2));
                    assert(m0.has_table(lv2, cp2));
                    let c = m0.table_at(lv2, cp2);
                    assert(m0.is_pos(c, lv2, cp2));
                    assert(m1.is_pos(c, lv2, cp2));
                    lemma_pos_unique(m1, c, lv2, cp2);
                    assert(m1.spec_tables()[c].frame.spec_ppn() == m0.spec_tables()[
                        c
                    ].frame.spec_ppn());
                }
            }

            // Upward links.
            assert forall|j: int|
                0 <= j < m1.spec_tables().len() && (#[trigger] m1.spec_tables()[j]).level
                    < 2 implies {
                let lv2 = m1.spec_tables()[j].level as int + 1;
                let pp = m1.spec_tables()[j].prefix as int / 512;
                let pk = m1.spec_tables()[j].prefix as int % 512;
                &&& m1.has_table(lv2, pp)
                &&& m1.eat(m1.table_at(lv2, pp), pk).spec_is_valid()
            } by {
                let lv2 = m1.spec_tables()[j].level as int + 1;
                let pp = m1.spec_tables()[j].prefix as int / 512;
                let pk = m1.spec_tables()[j].prefix as int % 512;
                if j == ti {
                    assert(m0.is_pos(pi, lvi + 1, cpi / 512));
                    assert(m1.is_pos(pi, lvi + 1, cpi / 512));
                    lemma_pos_unique(m1, pi, lv2, pp);
                    assert(m1.eat(pi, ki).spec_is_valid());
                } else {
                    assert(m0.spec_tables()[j].level < 2);
                    let c = m0.table_at(lv2, pp);
                    assert(m0.is_pos(c, lv2, pp));
                    assert(m1.is_pos(c, lv2, pp));
                    lemma_pos_unique(m1, c, lv2, pp);
                    if c == pi && pk == ki {
                    } else {
                        assert(m1.eat(c, pk) == m0.eat(c, pk));
                        lemma_pos_unique(m0, c, lv2, pp);
                        assert(m0.eat(c, pk).spec_is_valid());
                    }
                }
            }

            // The translation of every page index is unchanged.
            assert forall|idx: int|
                #[trigger] m1.leaf_entry(idx) == m0.leaf_entry(idx) by {
                let p = idx / 512;
                if lvi == 0 && cpi == p {
                    assert(!m0.has_table(0, p));
                    assert(m0.leaf_entry(idx) is None);
                    lemma_pos_unique(m1, ti, 0, p);
                    assert(0 <= idx % 512 < 512) by (nonlinear_arith);
                    assert(!m1.eat(ti, idx % 512).spec_is_valid());
                    assert(m1.leaf_entry(idx) is None);
                } else {
                    if m0.has_table(0, p) {
                        let c = m0.table_at(0, p);
                        assert(m0.is_pos(c, 0, p));
                        assert(m1.is_pos(c, 0, p));
                        lemma_pos_unique(m1, c, 0, p);
                        lemma_pos_unique(m0, c, 0, p);
                        assert(0 <= idx % 512 < 512) by (nonlinear_arith);
                        assert(m0.spec_tables()[c].level == 0 && m0.spec_tables()[pi].level
                            >= 1);
                        assert(c != pi);
                        assert(m1.eat(c, idx % 512) == m0.eat(c, idx % 512));
                    } else {
                        assert(!m1.has_table(0, p)) by {
                            if m1.has_table(0, p) {
                                let c = m1.table_at(0, p);
                                assert(m1.is_pos(c, 0, p));
                                if c < n0 {
                                    assert(m0.is_pos(c, 0, p));
                                    assert(m0.has_table(0, p));
                                } else {
                                    assert(lvi == 0 && cpi == p);
                                }
                            }
                        }
                    }
                }
            }
        }
        t
    }
}

impl Mapping {
    /// Walk levels 2 to 0 for `vpn`, allocating any missing intermediate
    /// table on the way, and return the position of the level-0 table
    /// together with the entry index for `vpn` in it.
    ///
    /// The walk changes no translation: new tables hold only invalid
    /// entries. At most two tables are allocated, and none at all when
    /// the level-0 table already exists — a second call for the same
    /// page finds everything in place and leaves the graph and the
    /// allocator exactly as they are.
    pub fn find_entry(&mut self, vpn: VirtualPageNumber, fa: &mut FrameAllocator) -> (r:
        MemoryResult<(usize, usize)>)
        requires
            old(self).wf(),
            old(fa).wf(),
            old(self).frames_outside(*old(fa)),
        ensures
            final(self).wf(),
            final(fa).wf(),
            final(self).frames_outside(*final(fa)),
            final(self).spec_root_ppn() == old(self).spec_root_ppn(),
            final(fa).spec_start() == old(fa).spec_start(),
            final(fa).spec_end() == old(fa).spec_end(),
            forall|p: int| final(fa).is_free(p) ==> old(fa).is_free(p),
            final(fa).free_size() >= old(fa).free_size() - 2,
            final(self).spec_tables().len() <= old(self).spec_tables().len() + 2,
            forall|idx: int|
                #[trigger] final(self).leaf_entry(idx) == old(self).leaf_entry(idx),
            old(self).has_table(0, vpn.spec_index27() / 512) ==> *final(self) == *old(self)
                && *final(fa) == *old(fa),
            match r {
                Ok(t) => {
                    &&& final(self).is_pos(t.0 as int, 0, vpn.spec_index27() / 512)
                    &&& final(self).has_table(0, vpn.spec_index27() / 512)
                    &&& t.1 == vpn.spec_index27() % 512
                    &&& t.1 < TABLE_LEN
                },
                Err(_) => final(fa).free_size() == 0,
            },
    {
        let ghost idx = vpn.spec_index27();
        let ghost p0 = idx / 512;
        proof {
            lemma_index_decompose(idx);
        }
        let i2 = vpn.level_index(2);
        let i1 = vpn.level_index(1);
        let i0 = vpn.level_index(0);
        proof {
            assert(wf_table(self.spec_tables()[0]));
            // If the level-0 table exists, the chain of parent links
            // makes both intermediate entries valid.
            if old(self).has_table(0, p0) {
                let j0 = old(self).table_at(0, p0);
                assert(old(self).is_pos(j0, 0, p0));
                assert(old(self).has_table(1, p0 / 512));
                let j1 = old(self).table_at(1, p0 / 512);
                assert(old(self).is_pos(j1, 1, i2 as int));
                assert(old(self).has_table(2, i2 as int / 512));
                let j2 = old(self).table_at(2, 0);
                assert(old(self).is_pos(j2, 2, 0));
                assert(old(self).is_pos(0, 2, 0));
                lemma_pos_unique(*old(self), 0, 2, 0);
                assert(old(self).eat(0, i2 as int).spec_is_valid());
                lemma_pos_unique(*old(self), j1, 1, i2 as int);
                assert(old(self).eat(j1, p0 % 512).spec_is_valid());
            }
        }
        let e2 = self.get_entry(0, i2);
        let t1: usize;
        if e2.is_valid() {
            proof {
                assert(self.spec_tables()[0].prefix as int * 512 + i2 as int == i2 as int);
                assert(self.has_table(1, i2 as int));
            }
            t1 = self.index_of_ppn(e2.ppn().0);
            proof {
                let c = self.table_at(1, i2 as int);
                assert(self.is_pos(c, 1, i2 as int));
                assert(self.spec_tables()[c].frame.spec_ppn().0 == e2.spec_ppn());
                if t1 as int != c {
                    assert(self.spec_tables()[t1 as int].frame.spec_ppn() != self.spec_tables()[
                        c
                    ].frame.spec_ppn());
                    assert(false);
                }
                assert(self.is_pos(t1 as int, 1, i2 as int));
            }
        } else {
            let alloc1 = fa.allocate();
            match alloc1 {
                Err(msg) => {
                    proof {
                        if old(self).has_table(0, p0) {
                            assert(old(self).eat(0, i2 as int).spec_is_valid());
                        }
                    }
                    return Err(msg);
                },
                Ok(f) => {
                    proof {
                        assert forall|j: int|
                            0 <= j < self.spec_tables().len() implies (
                        #[trigger] self.spec_tables()[j]).frame.spec_ppn()
                            != f.spec_ppn() by {
                            assert(!old(fa).is_free(
                                self.spec_tables()[j].frame.spec_ppn().0 as int,
                            ));
                        }
                        if old(self).has_table(0, p0) {
                            assert(old(self).eat(0, i2 as int).spec_is_valid());
                        }
                    }
                    t1 = self.grow(0, i2, f);
                },
            }
        }
        proof {
            assert(self.is_pos(t1 as int, 1, i2 as int));
            assert(wf_table(self.spec_tables()[t1 as int]));
            assert(self.frames_outside(*fa)) by {
                assert forall|j: int|
                    0 <= j < self.spec_tables().len() implies !fa.is_free(
                    (#[trigger] self.spec_tables()[j]).frame.spec_ppn().0 as int,
                ) by {}
            }
        }
        let e1 = self.get_entry(t1, i1);
        let t0: usize;
        if e1.is_valid() {
            proof {
                assert(self.spec_tables()[t1 as int].prefix as int * 512 + i1 as int == p0);
                assert(self.has_table(0, p0));
            }
            t0 = self.index_of_ppn(e1.ppn().0);
            proof {
                let c = self.table_at(0, p0);
                assert(self.is_pos(c, 0, p0));
                assert(self.spec_tables()[c].frame.spec_ppn().0 == e1.spec_ppn());
                if t0 as int != c {
                    assert(self.spec_tables()[t0 as int].frame.spec_ppn() != self.spec_tables()[
                        c
                    ].frame.spec_ppn());
                    assert(false);
                }
                assert(self.is_pos(t0 as int, 0, p0));
            }
        } else {
            let alloc2 = fa.allocate();
            match alloc2 {
                Err(msg) => {
                    proof {
                        if old(self).has_table(0, p0) {
                            assert(*self == *old(self));
                        }
                    }
                    return Err(msg);
                },
                Ok(f) => {
                    proof {
                        assert forall|j: int|
                            0 <= j < self.spec_tables().len() implies (
                        #[trigger] self.spec_tables()[j]).frame.spec_ppn()
                            != f.spec_ppn() by {}
                        if old(self).has_table(0, p0) {
                            assert(*self == *old(self));
                        }
                        assert(self.spec_tables()[t1 as int].prefix as int * 512 + i1 as int
                            == p0);
                    }
                    t0 = self.grow(t1, i1, f);
                },
            }
        }
        proof {
            assert(self.is_pos(t0 as int, 0, p0));
            if old(self).has_table(0, p0) {
                assert(*self == *old(self) && *fa == *old(fa));
            }
        }
        Ok((t0, i0))
    }
}

/// The 27-bit index the Sv39 walk reads for page number `v`.
pub open spec fn vpn27(v: int) -> int {
    v % (SV39_VPN_SPAN as int)
}

impl Mapping {
    /// Whether page `v` translates to frame `ppn` with `flags` plus V.
    pub open spec fn maps_to(self, v: int, ppn: int, flags: u8) -> bool {
        match self.leaf_entry(vpn27(v)) {
            Some(e) => e.spec_ppn() == ppn && e.spec_flags() == (flags | FLAG_VALID),
            None => false,
        }
    }

    /// Map one page: find its level-0 entry — which must be empty — and
    /// write the target frame and flags into it, with V set. Only this
    /// page's translation changes.
    pub fn map_one(
        &mut self,
        vpn: VirtualPageNumber,
        ppn: PhysicalPageNumber,
        flags: Flags,
        fa: &mut FrameAllocator,
    ) -> (r: MemoryResult<()>)
        requires
            old(self).wf(),
            old(fa).wf(),
            old(self).frames_outside(*old(fa)),
            old(self).leaf_entry(vpn.spec_index27()) is None,
            ppn.0 < PPN_LIMIT,
        ensures
            final(self).wf(),
            final(fa).wf(),
            final(self).frames_outside(*final(fa)),
            final(self).spec_root_ppn() == old(self).spec_root_ppn(),
            final(fa).spec_start() == old(fa).spec_start(),
            final(fa).spec_end() == old(fa).spec_end(),
            forall|p: int| final(fa).is_free(p) ==> old(fa).is_free(p),
            final(fa).free_size() >= old(fa).free_size() - 2,
            forall|idx: int|
                idx != vpn.spec_index27() ==> #[trigger] final(self).leaf_entry(idx) == old(
                    self,
                ).leaf_entry(idx),
            match r {
                Ok(_) => final(self).maps_to(vpn.0 as int, ppn.0 as int, flags.0),
                Err(_) => {
                    &&& final(fa).free_size() == 0
                    &&& final(self).leaf_entry(vpn.spec_index27()) is None
                },
            },
    {
        let ghost idx = vpn.spec_index27();
        let ghost p0 = idx / 512;
        let fe = self.find_entry(vpn, fa);
        match fe {
            Err(msg) => Err(msg),
            Ok(te) => {
                let (ti, ei) = te;
                proof {
                    lemma_index_decompose(idx);
                    lemma_pos_unique(*self, ti as int, 0, p0);
                    assert(self.leaf_entry(idx) == old(self).leaf_entry(idx));
                    assert(!self.eat(ti as int, ei as int).spec_is_valid());
                    assert(wf_table(self.spec_tables()[ti as int]));
                }
                let e = PageTableEntry::new(ppn, flags.or(Flags(FLAG_VALID)));
                proof {
                    let fb = flags.0;
                    assert((fb | FLAG_VALID) & FLAG_VALID == FLAG_VALID) by (bit_vector);
                }
                let ghost mid = *self;
                self.set_entry(ti, ei, e);
                proof {
                    let m1 = *self;
                    let tii = ti as int;
                    let eii = ei as int;
                    assert(e.spec_is_valid());

                    // Positions, levels, prefixes and frames are untouched.
                    assert forall|j: int, l: int, p: int|
                        (#[trigger] m1.is_pos(j, l, p)) <==> mid.is_pos(j, l, p) by {}

                    assert(m1.wf()) by {
                        assert forall|j: int|
                            0 <= j < m1.spec_tables().len() implies wf_table(
                            #[trigger] m1.spec_tables()[j],
                        ) by {
                            assert(wf_table(mid.spec_tables()[j]));
                            assert forall|k2: int|
                                0 <= k2 < TABLE_LEN implies (#[trigger] m1.spec_tables()[
                                j
                            ].entries@[k2]).wf() by {
                                assert(m1.eat(j, k2) == m1.spec_tables()[j].entries@[k2]);
                                if !(j == tii && k2 == eii) {
                                    assert(m1.eat(j, k2) == mid.eat(j, k2));
                                }
                            }
                        }
                        assert forall|j: int, k2: int|
                            0 <= j < m1.spec_tables().len() && 0 <= k2 < TABLE_LEN
                                && m1.spec_tables()[j].level >= 1 && (#[trigger] m1.eat(
                                j,
                                k2,
                            )).spec_is_valid() implies {
                            let lv2 = m1.spec_tables()[j].level as int - 1;
                            let cp2 = m1.spec_tables()[j].prefix as int * 512 + k2;
                            &&& m1.has_table(lv2, cp2)
                            &&& m1.eat(j, k2).spec_ppn() == m1.spec_tables()[m1.table_at(
                                lv2,
                                cp2,
                            )].frame.spec_ppn().0
                            &&& m1.eat(j, k2).spec_flags() == FLAG_VALID
                        } by {
                            let lv2 = m1.spec_tables()[j].level as int - 1;
                            let cp2 = m1.spec_tables()[j].prefix as int * 512 + k2;
                            assert(m1.spec_tables()[tii].level == 0);
                            assert(!(j == tii && k2 == eii));
                            assert(m1.eat(j, k2) == mid.eat(j, k2));
                            assert(mid.has_table(lv2, cp2));
                            let c = mid.table_at(lv2, cp2);
                            assert(mid.is_pos(c, lv2, cp2));
                            assert(m1.is_pos(c, lv2, cp2));
                            lemma_pos_unique(m1, c, lv2, cp2);
                            assert(m1.spec_tables()[c].frame.spec_ppn() == mid.spec_tables()[
                                c
                            ].frame.spec_ppn());
                        }
                        assert forall|j: int|
                            0 <= j < m1.spec_tables().len() && (#[trigger] m1.spec_tables()[
                            j
                        ]).level < 2 implies {
                            let lv2 = m1.spec_tables()[j].level as int + 1;
                            let pp = m1.spec_tables()[j].prefix as int / 512;
                            let pk = m1.spec_tables()[j].prefix as int % 512;
                            &&& m1.has_table(lv2, pp)
                            &&& m1.eat(m1.table_at(lv2, pp), pk).spec_is_valid()
                        } by {
                            let lv2 = m1.spec_tables()[j].level as int + 1;
                            let pp = m1.spec_tables()[j].prefix as int / 512;
                            let pk = m1.spec_tables()[j].prefix as int % 512;
                            let c = mid.table_at(lv2, pp);
                            assert(mid.is_pos(c, lv2, pp));
                            assert(m1.is_pos(c, lv2, pp));
                            lemma_pos_unique(m1, c, lv2, pp);
                            lemma_pos_unique(mid, c, lv2, pp);
                            if c == tii && pk == eii {
                            } else {
                                assert(m1.eat(c, pk) == mid.eat(c, pk));
                                assert(mid.eat(c, pk).spec_is_valid());
                            }
                        }
                    }

                    // This page now translates; no other page changed.
                    assert(m1.leaf_entry(idx) == Some(e)) by {
                        lemma_pos_unique(m1, tii, 0, p0);
                    }
                    assert forall|idx2: int|
                        idx2 != idx implies #[trigger] m1.leaf_entry(idx2) == mid.leaf_entry(
                        idx2,
                    ) by {
                        let p2 = idx2 / 512;
                        let k2 = idx2 % 512;
                        assert(idx2 == 512 * p2 + k2 && idx == 512 * p0 + eii)
                            by (nonlinear_arith)
                            requires p2 == idx2 / 512, k2 == idx2 % 512, p0 == idx / 512,
                                eii == idx % 512,
                        ;
                        if m1.has_table(0, p2) {
                            let c = m1.table_at(0, p2);
                            assert(m1.is_pos(c, 0, p2));
                            assert(mid.is_pos(c, 0, p2));
                            lemma_pos_unique(mid, c, 0, p2);
                            if p2 == p0 {
                                lemma_pos_unique(m1, tii, 0, p0);
                                assert(c == tii);
                                assert(k2 != eii);
                                assert(m1.eat(c, k2) == mid.eat(c, k2));
                            } else {
                                assert(c != tii);
                                assert(m1.eat(c, k2) == mid.eat(c, k2));
                            }
                        } else {
                            assert(!mid.has_table(0, p2)) by {
                                if mid.has_table(0, p2) {
                                    let c = mid.table_at(0, p2);
                                    assert(mid.is_pos(c, 0, p2));
                                    assert(m1.is_pos(c, 0, p2));
                                }
                            }
                        }
                    }
                    assert forall|idx2: int|
                        idx2 != idx implies #[trigger] m1.leaf_entry(idx2) == old(
                        self,
                    ).leaf_entry(idx2) by {}
                }
                Ok(())
            },
        }
    }
}

impl Mapping {
    /// Map a whole segment.
    ///
    /// For a `Linear` segment every page translates to the frame the
    /// kernel offset names, and no frame is allocated. For a `Framed`
    /// segment every page gets a fresh frame; the returned pairs own
    /// those frames, in page order, and when `init_data` is given each
    /// frame holds its window of the data, zero-filled past the end.
    /// Pages outside the segment keep their translation.
    #[verifier::loop_isolation(false)]
    #[verifier::rlimit(80)]
    pub fn map(
        &mut self,
        segment: &Segment,
        init_data: Option<&Vec<u8>>,
        fa: &mut FrameAllocator,
    ) -> (r: MemoryResult<Vec<(VirtualPageNumber, FrameTracker)>>)
        requires
            old(self).wf(),
            old(fa).wf(),
            old(self).frames_outside(*old(fa)),
            segment.spec_page_range().start.0 <= segment.spec_page_range().end.0,
            forall|v1: int, v2: int|
                segment.spec_page_range().spec_contains(v1)
                    && segment.spec_page_range().spec_contains(v2) && v1 != v2 ==> vpn27(v1)
                    != vpn27(v2),
            forall|v: int|
                segment.spec_page_range().spec_contains(v) ==> old(self).leaf_entry(
                    #[trigger] vpn27(v),
                ) is None,
            segment.map_type == MapType::Linear ==> KERNEL_MAP_OFFSET_VPN
                <= segment.spec_page_range().start.0 && segment.spec_page_range().end.0
                <= KERNEL_MAP_OFFSET_VPN + PPN_LIMIT,
            segment.map_type == MapType::Framed && init_data is Some
                ==> segment.spec_page_range().end.0 <= SV39_VPN_SPAN,
        ensures
            final(self).wf(),
            final(fa).wf(),
            final(self).frames_outside(*final(fa)),
            final(self).spec_root_ppn() == old(self).spec_root_ppn(),
            final(fa).spec_start() == old(fa).spec_start(),
            final(fa).spec_end() == old(fa).spec_end(),
            forall|p: int| final(fa).is_free(p) ==> old(fa).is_free(p),
            forall|idx: int|
                (forall|v: int|
                    segment.spec_page_range().spec_contains(v) ==> idx != vpn27(v))
                    ==> #[trigger] final(self).leaf_entry(idx) == old(self).leaf_entry(idx),
            match r {
                Ok(pairs) => {
                    &&& (segment.map_type == MapType::Linear ==> pairs@.len() == 0
                        && forall|v: int|
                        segment.spec_page_range().spec_contains(v)
                            ==> #[trigger] final(self).maps_to(
                            v,
                            v - KERNEL_MAP_OFFSET_VPN,
                            segment.flags.0,
                        ))
                    &&& (segment.map_type == MapType::Framed ==> {
                        &&& pairs@.len() == segment.spec_page_range().end.0
                            - segment.spec_page_range().start.0
                        &&& forall|j: int|
                            0 <= j < pairs@.len() ==> {
                                &&& (#[trigger] pairs@[j]).0.0 == segment.spec_page_range().start.0
                                    + j
                                &&& final(self).maps_to(
                                    segment.spec_page_range().start.0 + j,
                                    pairs@[j].1.spec_ppn().0 as int,
                                    segment.flags.0,
                                )
                                &&& old(fa).spec_start() <= pairs@[j].1.spec_ppn().0 < old(
                                    fa,
                                ).spec_end()
                                &&& !final(fa).is_free(pairs@[j].1.spec_ppn().0 as int)
                                &&& pairs@[j].1.spec_data().len() == PAGE_SIZE
                                &&& (init_data matches Some(d) ==> forall|b: int|
                                    0 <= b < PAGE_SIZE ==> pairs@[j].1.spec_data()[b] == (if j
                                        * PAGE_SIZE + b < d@.len() {
                                        d@[j * PAGE_SIZE + b]
                                    } else {
                                        0u8
                                    }))
                            }
                        &&& forall|j1: int, j2: int|
                            0 <= j1 < pairs@.len() && 0 <= j2 < pairs@.len() && j1 != j2
                                ==> (#[trigger] pairs@[j1]).1.spec_ppn() != (
                            #[trigger] pairs@[j2]).1.spec_ppn()
                    })
                },
                Err(_) => final(fa).free_size() == 0,
            },
    {
        let pr = segment.page_range();
        let s = pr.start.0;
        let e = pr.end.0;
        let ghost m0 = *old(self);
        let ghost fa0 = *old(fa);
        let mut pairs: Vec<(VirtualPageNumber, FrameTracker)> = Vec::new();
        let mut k: u64 = 0;
        let is_linear = match segment.map_type {
            MapType::Linear => true,
            MapType::Framed => false,
        };
        while k < e - s
            invariant
                k <= e - s,
                self.wf(),
                fa.wf(),
                self.frames_outside(*fa),
                self.spec_root_ppn() == m0.spec_root_ppn(),
                fa.spec_start() == fa0.spec_start(),
                fa.spec_end() == fa0.spec_end(),
                forall|p: int| fa.is_free(p) ==> fa0.is_free(p),
                forall|v: int|
                    s + k <= v < e ==> self.leaf_entry(#[trigger] vpn27(v)) is None,
                forall|idx: int|
                    (forall|v: int| s <= v < e ==> idx != vpn27(v))
                        ==> #[trigger] self.leaf_entry(idx) == m0.leaf_entry(idx),
                is_linear ==> pairs@.len() == 0 && forall|v: int|
                    s <= v < s + k ==> #[trigger] self.maps_to(
                        v,
                        v - KERNEL_MAP_OFFSET_VPN,
                        segment.flags.0,
                    ),
                !is_linear ==> pairs@.len() == k && forall|j: int|
                    0 <= j < k ==> {
                        &&& (#[trigger] pairs@[j]).0.0 == s + j
                        &&& self.maps_to(s + j, pairs@[j].1.spec_ppn().0 as int, segment.flags.0)
                        &&& old(fa).spec_start() <= pairs@[j].1.spec_ppn().0 < old(
                            fa,
                        ).spec_end()
                        &&& !fa.is_free(pairs@[j].1.spec_ppn().0 as int)
                        &&& pairs@[j].1.spec_data().len() == PAGE_SIZE
                        &&& (init_data matches Some(d) ==> forall|b: int|
                            0 <= b < PAGE_SIZE ==> pairs@[j].1.spec_data()[b] == (if j
                                * PAGE_SIZE + b < d@.len() {
                                d@[j * PAGE_SIZE + b]
                            } else {
                                0u8
                            }))
                    },
                !is_linear ==> forall|j1: int, j2: int|
                    0 <= j1 < k && 0 <= j2 < k && j1 != j2 ==> (#[trigger] pairs@[
                        j1
                    ]).1.spec_ppn() != (#[trigger] pairs@[j2]).1.spec_ppn(),
            decreases e - s - k,
        {
            let v = VirtualPageNumber(s + k);
            let ghost self_pre = *self;
            if is_linear {
                let ppn = v.to_physical();
                proof {
                    assert(vpn27(s + k) == v.spec_index27());
                    assert(self.leaf_entry(vpn27(s + k)) is None);
                }
                let res = self.map_one(v, ppn, segment.flags, fa);
                if let Err(msg) = res {
                    proof {
                        assert forall|idx: int|
                            (forall|v2: int| s <= v2 < e ==> idx != vpn27(v2))
                                implies #[trigger] self.leaf_entry(idx) == m0.leaf_entry(
                            idx,
                        ) by {
                            assert(idx != vpn27(s + k));
                            assert(self.leaf_entry(idx) == self_pre.leaf_entry(idx));
                        }
                    }
                    return Err(msg);
                }
                proof {
                    assert forall|v2: int|
                        s <= v2 < s + k + 1 implies #[trigger] self.maps_to(
                        v2,
                        v2 - KERNEL_MAP_OFFSET_VPN,
                        segment.flags.0,
                    ) by {
                        if v2 == s + k {
                            assert(self.maps_to(v.0 as int, ppn.0 as int, segment.flags.0));
                            assert(ppn.0 == s + k - KERNEL_MAP_OFFSET_VPN);
                        }
                        if v2 < s + k {
                            assert(self_pre.maps_to(
                                v2,
                                v2 - KERNEL_MAP_OFFSET_VPN,
                                segment.flags.0,
                            ));
                            assert(vpn27(v2) != vpn27(s + k));
                            assert(self.leaf_entry(vpn27(v2)) == self_pre.leaf_entry(
                                vpn27(v2),
                            ));
                        }
                    }
                }
            } else {
                let af = fa.allocate();
                match af {
                    Err(msg) => {
                        return Err(msg);
                    },
                    Ok(mut frame) => {
                        if let Some(d) = init_data {
                            let bytes = page_slice(d, k as usize);
                            frame.store(bytes);
                        }
                        let ppn = frame.ppn();
                        proof {
                            assert(self.frames_outside(*fa)) by {
                                assert forall|j: int|
                                    0 <= j < self.spec_tables().len() implies !fa.is_free(
                                    (#[trigger] self.spec_tables()[j]).frame.spec_ppn().0
                                        as int,
                                ) by {}
                            }
                        }
                        let ghost fa_mid = *fa;
                        proof {
                            assert(vpn27(s + k) == v.spec_index27());
                            assert(self.leaf_entry(vpn27(s + k)) is None);
                        }
                        let res = self.map_one(v, ppn, segment.flags, fa);
                        match res {
                            Err(msg) => {
                                proof {
                                    assert forall|idx: int|
                                        (forall|v2: int| s <= v2 < e ==> idx != vpn27(v2))
                                            implies #[trigger] self.leaf_entry(idx)
                                        == m0.leaf_entry(idx) by {
                                        assert(idx != vpn27(s + k));
                                        assert(self.leaf_entry(idx) == self_pre.leaf_entry(
                                            idx,
                                        ));
                                    }
                                }
                                return Err(msg);
                            },
                            Ok(_) => {},
                        }
                        pairs.push((v, frame));
                        proof {
                            assert forall|j: int|
                                0 <= j < k + 1 implies {
                                &&& (#[trigger] pairs@[j]).0.0 == s + j
                                &&& self.maps_to(
                                    s + j,
                                    pairs@[j].1.spec_ppn().0 as int,
                                    segment.flags.0,
                                )
                                &&& pairs@[j].1.spec_data().len() == PAGE_SIZE
                            } by {
                                if j < k {
                                    assert(pairs@[j] == pairs@.subrange(0, k as int)[j]);
                                    assert(vpn27(s + j) != vpn27(s + k));
                                    assert(self.leaf_entry(vpn27(s + j)) == self_pre.leaf_entry(
                                        vpn27(s + j),
                                    ));
                                }
                            }
                        }
                    },
                }
            }
            proof {
                assert forall|v2: int|
                    s + k + 1 <= v2 < e implies self.leaf_entry(#[trigger] vpn27(v2))
                    is None by {
                    assert(vpn27(v2) != vpn27(s + k));
                    assert(self.leaf_entry(vpn27(v2)) == self_pre.leaf_entry(vpn27(v2)));
                }
                assert forall|idx: int|
                    (forall|v2: int| s <= v2 < e ==> idx != vpn27(v2))
                        implies #[trigger] self.leaf_entry(idx) == m0.leaf_entry(idx) by {
                    assert(idx != vpn27(s + k));
                    assert(self.leaf_entry(idx) == self_pre.leaf_entry(idx));
                }
            }
            k = k + 1;
        }
        Ok(pairs)
    }
}

impl Mapping {
    /// Read the translation of a page without changing anything: follow
    /// the entries from the root and return the mapped frame and flags,
    /// or nothing where the walk dead-ends.
    pub fn translate(&self, vpn: VirtualPageNumber) -> (r: Option<(PhysicalPageNumber, Flags)>)
        requires
            self.wf(),
        ensures
            match self.leaf_entry(vpn.spec_index27()) {
                Some(e) => r == Some(
                    (PhysicalPageNumber(e.spec_ppn() as u64), Flags(e.spec_flags())),
                ),
                None => r is None,
            },
    {
        let ghost idx = vpn.spec_index27();
        let ghost p0 = idx / 512;
        proof {
            lemma_index_decompose(idx);
            assert(wf_table(self.spec_tables()[0]));
            if self.has_table(0, p0) {
                let j0 = self.table_at(0, p0);
                assert(self.is_pos(j0, 0, p0));
                assert(self.has_table(1, p0 / 512));
                let j1 = self.table_at(1, p0 / 512);
                assert(self.is_pos(j1, 1, idx / (512int * 512int)));
                assert(self.has_table(2, 0));
                lemma_pos_unique(*self, 0, 2, 0);
                assert(self.eat(0, idx / (512int * 512int)).spec_is_valid());
                lemma_pos_unique(*self, j1, 1, idx / (512int * 512int));
                assert(self.eat(j1, p0 % 512).spec_is_valid());
            }
        }
        let i2 = vpn.level_index(2);
        let i1 = vpn.level_index(1);
        let i0 = vpn.level_index(0);
        let e2 = self.get_entry(0, i2);
        if !e2.is_valid() {
            return None;
        }
        proof {
            assert(self.spec_tables()[0].prefix as int * 512 + i2 as int == i2 as int);
            assert(self.has_table(1, i2 as int));
        }
        let t1 = self.index_of_ppn(e2.ppn().0);
        proof {
            let c = self.table_at(1, i2 as int);
            assert(self.is_pos(c, 1, i2 as int));
            assert(self.spec_tables()[c].frame.spec_ppn().0 == e2.spec_ppn());
            if t1 as int != c {
                assert(self.spec_tables()[t1 as int].frame.spec_ppn() != self.spec_tables()[
                    c
                ].frame.spec_ppn());
                assert(false);
            }
            assert(self.is_pos(t1 as int, 1, i2 as int));
            assert(wf_table(self.spec_tables()[t1 as int]));
        }
        let e1 = self.get_entry(t1, i1);
        if !e1.is_valid() {
            return None;
        }
        proof {
            assert(self.spec_tables()[t1 as int].prefix as int * 512 + i1 as int == p0);
            assert(self.has_table(0, p0));
        }
        let t0 = self.index_of_ppn(e1.ppn().0);
        proof {
            let c = self.table_at(0, p0);
            assert(self.is_pos(c, 0, p0));
            assert(self.spec_tables()[c].frame.spec_ppn().0 == e1.spec_ppn());
            if t0 as int != c {
                assert(self.spec_tables()[t0 as int].frame.spec_ppn() != self.spec_tables()[
                    c
                ].frame.spec_ppn());
                assert(false);
            }
            assert(self.is_pos(t0 as int, 0, p0));
            assert(wf_table(self.spec_tables()[t0 as int]));
        }
        let e0 = self.get_entry(t0, i0);
        if e0.is_valid() {
            Some((e0.ppn(), e0.flags()))
        } else {
            None
        }
    }
}

/// The bytes that land in page `page` of a region initialised from
/// `data`: the matching window of `data`, zero-filled past its end.
pub fn page_slice(data: &Vec<u8>, page: usize) -> (r: Vec<u8>)
    requires
        page < SV39_VPN_SPAN,
    ensures
        r@.len() == PAGE_SIZE,
        forall|b: int|
            0 <= b < PAGE_SIZE ==> (#[trigger] r@[b]) == (if page * PAGE_SIZE + b
                < data@.len() {
                data@[page * PAGE_SIZE + b]
            } else {
                0u8
            }),
{
    let mut r: Vec<u8> = Vec::new();
    let base: u64 = (page as u64) * PAGE_SIZE;
    let len: u64 = data.len() as u64;
    let mut i: usize = 0;
    while i < PAGE_SIZE as usize
        invariant
            i <= PAGE_SIZE,
            r@.len() == i,
            base == page * PAGE_SIZE,
            base <= SV39_VPN_SPAN * PAGE_SIZE,
            len == data@.len(),
            len <= usize::MAX,
            forall|b: int|
                0 <= b < i ==> (#[trigger] r@[b]) == (if page * PAGE_SIZE + b < data@.len() {
                    data@[page * PAGE_SIZE + b]
                } else {
                    0u8
                }),
        decreases PAGE_SIZE - i,
    {
        let pos: u64 = base + (i as u64);
        if pos < len {
            proof {
                assert(len <= usize::MAX);
                assert(pos as usize as u64 == pos);
            }
            let b = data[pos as usize];
            r.push(b);
        } else {
            r.push(0u8);
        }
        i = i + 1;
    }
    r
}

/// How the three 9-bit walk indices decompose the 27-bit page index.
proof fn lemma_index_decompose(idx: int)
    requires
        0 <= idx < SV39_VPN_SPAN,
    ensures
        idx / 512 == (idx / (512int * 512int)) * 512 + (idx / 512) % 512,
        0 <= idx / (512int * 512int) < 512,
        0 <= (idx / 512) % 512 < 512,
        0 <= idx % 512 < 512,
        0 <= idx / 512 < 512int * 512int,
        (idx / 512) / 512 == idx / (512int * 512int),
{
    let q = idx / 512;
    assert(q / 512 == idx / (512int * 512int) && 0 <= q < 512int * 512int && idx / (512int * 512int) < 512)
        by (nonlinear_arith)
        requires 0 <= idx < 0x800_0000, q == idx / 512,
    ;
    assert(q == (q / 512) * 512 + q % 512) by (nonlinear_arith);
}

/// Under the well-formedness invariant, the hardware walk from the root
/// frame agrees with the direct level-0 lookup: for every virtual page,
/// following entries from `root_ppn` reaches exactly the leaf entry that
/// `leaf_entry` reads off the owned level-0 table.
pub proof fn lemma_walk_is_leaf_entry(m: Mapping, vpn: VirtualPageNumber)
    requires
        m.wf(),
    ensures
        m.walk(vpn) == m.leaf_entry(vpn.spec_index27()),
{
    let idx = vpn.spec_index27();
    let (i2, i1, i0) = vpn.spec_levels();
    lemma_index_decompose(idx);
    let p0 = idx / 512;

    // The root lookup by ppn resolves to position 0.
    assert(m.tables@[0].frame.spec_ppn().0 == m.spec_root_ppn());
    let r = m.idx_by_ppn(m.spec_root_ppn());
    assert(r is Some);
    let ri = r->0;
    assert(m.tables@[ri].frame.spec_ppn().0 == m.spec_root_ppn());
    assert(ri == 0);

    let e2 = m.eat(0, i2);
    if !e2.spec_is_valid() {
        // No path through the root entry; nor can a level-0 table exist,
        // since its chain of parents would make this entry valid.
        if m.has_table(0, p0) {
            let j0 = m.table_at(0, p0);
            assert(m.is_pos(j0, 0, p0));
            assert(m.has_table(1, p0 / 512));
            let j1 = m.table_at(1, p0 / 512);
            assert(m.is_pos(j1, 1, i2));
            assert(m.tables@[j1].level < 2);
            assert(m.has_table(2, i2 / 512));
            let j2 = m.table_at(2, 0);
            assert(m.is_pos(j2, 2, 0));
            assert(j2 == 0);
            assert(m.eat(0, i2).spec_is_valid());
        }
        assert(m.walk(vpn) is None);
        assert(m.leaf_entry(idx) is None);
    } else {
        // Root entry valid: the down link lands on the level-1 table.
        assert(m.is_pos(0, 2, 0));
        assert(m.has_table(1, i2) && e2.spec_ppn() == m.tables@[m.table_at(1, i2)].frame.spec_ppn().0);
        let c1 = m.table_at(1, i2);
        assert(m.is_pos(c1, 1, i2));
        let f1 = m.idx_by_ppn(e2.spec_ppn());
        assert(m.tables@[c1].frame.spec_ppn().0 == e2.spec_ppn());
        assert(f1 is Some);
        let j1 = f1->0;
        assert(m.tables@[j1].frame.spec_ppn().0 == e2.spec_ppn());
        assert(j1 == c1);

        let e1 = m.eat(c1, i1);
        if !e1.spec_is_valid() {
            if m.has_table(0, p0) {
                let j0 = m.table_at(0, p0);
                assert(m.is_pos(j0, 0, p0));
                assert(m.has_table(1, p0 / 512));
                let pj = m.table_at(1, p0 / 512);
                assert(m.is_pos(pj, 1, i2));
                assert(pj == c1);
                assert(m.eat(c1, p0 % 512).spec_is_valid());
                assert(p0 % 512 == i1);
            }
            assert(m.walk(vpn) is None);
            assert(m.leaf_entry(idx) is None);
        } else {
            assert(m.has_table(0, i2 * 512 + i1) && e1.spec_ppn() == m.tables@[
                m.table_at(0, i2 * 512 + i1)
            ].frame.spec_ppn().0);
            assert(i2 * 512 + i1 == p0);
            let c0 = m.table_at(0, p0);
            assert(m.is_pos(c0, 0, p0));
            let f0 = m.idx_by_ppn(e1.spec_ppn());
            assert(m.tables@[c0].frame.spec_ppn().0 == e1.spec_ppn());
            assert(f0 is Some);
            let j0 = f0->0;
            assert(m.tables@[j0].frame.spec_ppn().0 == e1.spec_ppn());
            assert(j0 == c0);
            let e0 = m.eat(c0, i0);
            if e0.spec_is_valid() {
                assert(m.walk(vpn) == Some(e0));
                assert(m.leaf_entry(idx) == Some(e0));
            } else {
                assert(m.walk(vpn) is None);
                assert(m.leaf_entry(idx) is None);
            }
        }
    }
}

} // verus!
