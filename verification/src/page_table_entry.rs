//! Page-table-entry flag bits and the 64-bit Sv39 entry layout.
//!
//! Bits 0 to 7 of an entry are the flag bits {V, R, W, X, U, G, A, D};
//! bits 10 to 53 hold the physical page number of the next level or of
//! the mapped frame. An entry is composed as `ppn * 1024 + flags`, which
//! keeps bits 8 and 9 clear.

use vstd::prelude::*;
use crate::addr::PhysicalPageNumber;

verus! {

/// Flag bit: entry is valid.
pub const FLAG_VALID: u8 = 1;

/// Flag bit: page may be read.
pub const FLAG_READABLE: u8 = 2;

/// Flag bit: page may be written.
pub const FLAG_WRITABLE: u8 = 4;

/// Flag bit: page may be executed.
pub const FLAG_EXECUTABLE: u8 = 8;

/// Flag bit: page is reachable from user mode.
pub const FLAG_USER: u8 = 16;

/// Flag bit: mapping is global.
pub const FLAG_GLOBAL: u8 = 32;

/// Flag bit: page has been accessed.
pub const FLAG_ACCESSED: u8 = 64;

/// Flag bit: page has been written.
pub const FLAG_DIRTY: u8 = 128;

/// Largest page number an entry can carry (44 bits).
pub const PPN_LIMIT: u64 = 0x1000_0000_0000;

/// A set of page-table-entry flag bits.
#[derive(Clone, Copy, Debug, PartialEq, Eq, Structural)]
pub struct Flags(pub u8);

impl Flags {
    /// Union of two flag sets.
    pub fn or(self, other: Flags) -> (r: Flags)
        ensures
            r.0 == (self.0 | other.0),
    {
        Flags(self.0 | other.0)
    }

    /// Whether every bit of `mask` is set.
    pub fn has(self, mask: u8) -> (r: bool)
        ensures
            r == (self.0 & mask == mask),
    {
        self.0 & mask == mask
    }

    /// The user bit, if `is_user` asks for it.
    pub fn user(is_user: bool) -> (r: Flags)
        ensures
            r.0 == if is_user { FLAG_USER } else { 0u8 },
    {
        if is_user { Flags(FLAG_USER) } else { Flags(0) }
    }

    /// The readable bit, if `readable` asks for it.
    pub fn readable(readable: bool) -> (r: Flags)
        ensures
            r.0 == if readable { FLAG_READABLE } else { 0u8 },
    {
        if readable { Flags(FLAG_READABLE) } else { Flags(0) }
    }

    /// The writable bit, if `writable` asks for it.
    pub fn writable(writable: bool) -> (r: Flags)
        ensures
            r.0 == if writable { FLAG_WRITABLE } else { 0u8 },
    {
        if writable { Flags(FLAG_WRITABLE) } else { Flags(0) }
    }

    /// The executable bit, if `executable` asks for it.
    pub fn executable(executable: bool) -> (r: Flags)
        ensures
            r.0 == if executable { FLAG_EXECUTABLE } else { 0u8 },
    {
        if executable { Flags(FLAG_EXECUTABLE) } else { Flags(0) }
    }
}

/// One 64-bit Sv39 page-table entry.
#[derive(Clone, Copy, Debug, PartialEq, Eq, Structural)]
pub struct PageTableEntry(pub u64);

impl PageTableEntry {
    /// Entries this module builds: a 44-bit page number in bits 10 to 53
    /// and flags in bits 0 to 7, bits 8 and 9 clear.
    pub open spec fn wf(self) -> bool {
        &&& self.0 % 1024 < 256
        &&& self.0 / 1024 < PPN_LIMIT
    }

    /// The page number carried in bits 10 and up.
    pub open spec fn spec_ppn(self) -> int {
        self.0 as int / 1024
    }

    /// The flag bits.
    pub open spec fn spec_flags(self) -> u8 {
        (self.0 % 256) as u8
    }

    /// Whether the V bit is set.
    pub open spec fn spec_is_valid(self) -> bool {
        self.0 % 2 == 1
    }

    /// An empty (invalid, all-zero) entry.
    pub fn empty() -> (r: PageTableEntry)
        ensures
            r.0 == 0,
            !r.spec_is_valid(),
            r.wf(),
    {
        PageTableEntry(0)
    }

    /// Compose an entry from a page number and flags.
    pub fn new(ppn: PhysicalPageNumber, flags: Flags) -> (r: PageTableEntry)
        requires
            ppn.0 < PPN_LIMIT,
        ensures
            r.0 == ppn.0 * 1024 + flags.0,
            r.spec_ppn() == ppn.0,
            r.spec_flags() == flags.0,
            r.spec_is_valid() == (flags.0 & FLAG_VALID == FLAG_VALID),
            r.wf(),
    {
        proof {
            lemma_pte_compose(ppn.0, flags.0);
        }
        PageTableEntry(ppn.0 * 1024 + (flags.0 as u64))
    }

    /// Read the page number back out.
    pub fn ppn(self) -> (r: PhysicalPageNumber)
        requires
            self.wf(),
        ensures
            r.0 == self.spec_ppn(),
    {
        PhysicalPageNumber(self.0 / 1024)
    }

    /// Read the flag bits back out.
    pub fn flags(self) -> (r: Flags)
        ensures
            r.0 == self.spec_flags(),
    {
        Flags((self.0 % 256) as u8)
    }

    /// Whether the V bit is set.
    pub fn is_valid(self) -> (r: bool)
        ensures
            r == self.spec_is_valid(),
    {
        self.0 % 2 == 1
    }

    /// A valid entry with any of R, W, X set maps a frame rather than a
    /// next-level table.
    pub fn is_leaf(self) -> (r: bool)
        ensures
            r == (self.spec_is_valid() && self.spec_flags() & (
                FLAG_READABLE | FLAG_WRITABLE | FLAG_EXECUTABLE
            ) != 0),
    {
        self.is_valid() && (self.flags().0 & (FLAG_READABLE | FLAG_WRITABLE | FLAG_EXECUTABLE))
            != 0
    }
}

/// Composing `ppn * 1024 + flags` places the page number and the flags
/// in disjoint bit ranges, so both can be read back exactly.
proof fn lemma_pte_compose(ppn: u64, flags: u8)
    requires
        ppn < PPN_LIMIT,
    ensures
        ppn * 1024 + flags <= u64::MAX,
        (ppn * 1024 + flags) as int / 1024 == ppn,
        (ppn * 1024 + flags) as int % 256 == flags,
        (ppn * 1024 + flags) as int % 1024 == flags,
        (ppn * 1024 + flags) as int % 2 == (flags & FLAG_VALID) as int,
{
    let v = ppn as int * 1024 + flags;
    assert(ppn as int * 1024 + flags <= (PPN_LIMIT - 1) * 1024 + 255) by (nonlinear_arith)
        requires ppn < PPN_LIMIT,
    ;
    assert(v / 1024 == ppn && v % 1024 == flags) by (nonlinear_arith)
        requires v == ppn as int * 1024 + flags, 0 <= flags < 1024, ppn >= 0,
    ;
    assert(v % 256 == flags) by (nonlinear_arith)
        requires v == ppn as int * 1024 + flags, 0 <= flags < 256, ppn >= 0,
    ;
    assert(v % 2 == flags as int % 2) by (nonlinear_arith)
        requires v == ppn as int * 1024 + flags, 0 <= flags, ppn >= 0,
    ;
    assert((flags & FLAG_VALID) == flags % 2) by (bit_vector);
}

} // verus!
