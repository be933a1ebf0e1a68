//! Strongly typed physical and virtual addresses and page numbers for Sv39.
//!
//! A fixed high-half offset (`KERNEL_MAP_OFFSET`) relates virtual and
//! physical addresses by linear translation for kernel-owned memory.

use vstd::prelude::*;

verus! {

/// Size of one page / frame in bytes.
pub const PAGE_SIZE: u64 = 4096;

/// Linear offset of the kernel high-half window: VA = PA + KERNEL_MAP_OFFSET.
pub const KERNEL_MAP_OFFSET: u64 = 0xFFFF_FFFF_0000_0000;

/// `KERNEL_MAP_OFFSET` measured in pages.
pub const KERNEL_MAP_OFFSET_VPN: u64 = 0xF_FFFF_FFF0_0000;

/// End of usable physical memory.
pub const MEMORY_END_ADDRESS: u64 = 0x8800_0000;

/// Number of distinct virtual page numbers an Sv39 page table can tell
/// apart: the hardware walk reads only the low 27 bits of a page number.
pub const SV39_VPN_SPAN: u64 = 0x800_0000;

/// A physical address, as a plain word.
#[derive(Clone, Copy, Debug, PartialEq, Eq, Structural)]
pub struct PhysicalAddress(pub u64);

/// A virtual address, as a plain word.
#[derive(Clone, Copy, Debug, PartialEq, Eq, Structural)]
pub struct VirtualAddress(pub u64);

/// A physical page number (address divided by `PAGE_SIZE`).
#[derive(Clone, Copy, Debug, PartialEq, Eq, Structural)]
pub struct PhysicalPageNumber(pub u64);

/// A virtual page number (address divided by `PAGE_SIZE`).
#[derive(Clone, Copy, Debug, PartialEq, Eq, Structural)]
pub struct VirtualPageNumber(pub u64);

impl PhysicalPageNumber {
    /// Page number of the last page boundary at or below `addr`.
    pub fn floor(addr: PhysicalAddress) -> (r: PhysicalPageNumber)
        ensures
            r.0 == addr.0 / PAGE_SIZE,
    {
        PhysicalPageNumber(addr.0 / PAGE_SIZE)
    }

    /// Page number of the first page boundary at or above `addr`.
    pub fn ceil(addr: PhysicalAddress) -> (r: PhysicalPageNumber)
        ensures
            r.0 == addr.0 / PAGE_SIZE + if addr.0 % PAGE_SIZE == 0 { 0int } else { 1int },
    {
        PhysicalPageNumber(addr.0 / PAGE_SIZE + if addr.0 % PAGE_SIZE == 0 { 0u64 } else { 1u64 })
    }

    /// First address of the page.
    pub fn address(self) -> (r: PhysicalAddress)
        requires
            self.0 * PAGE_SIZE <= u64::MAX,
        ensures
            r.0 == self.0 * PAGE_SIZE,
    {
        PhysicalAddress(self.0 * PAGE_SIZE)
    }

    /// The virtual page that reaches this frame through the kernel window.
    pub fn to_virtual(self) -> (r: VirtualPageNumber)
        requires
            self.0 + KERNEL_MAP_OFFSET_VPN <= u64::MAX,
        ensures
            r.0 == self.0 + KERNEL_MAP_OFFSET_VPN,
    {
        VirtualPageNumber(self.0 + KERNEL_MAP_OFFSET_VPN)
    }
}

impl VirtualPageNumber {
    /// Page number of the last page boundary at or below `addr`.
    pub fn floor(addr: VirtualAddress) -> (r: VirtualPageNumber)
        ensures
            r.0 == addr.0 / PAGE_SIZE,
    {
        VirtualPageNumber(addr.0 / PAGE_SIZE)
    }

    /// Page number of the first page boundary at or above `addr`.
    pub fn ceil(addr: VirtualAddress) -> (r: VirtualPageNumber)
        ensures
            r.0 == addr.0 / PAGE_SIZE + if addr.0 % PAGE_SIZE == 0 { 0int } else { 1int },
    {
        VirtualPageNumber(addr.0 / PAGE_SIZE + if addr.0 % PAGE_SIZE == 0 { 0u64 } else { 1u64 })
    }

    /// The 27-bit index that the Sv39 walk reads from this page number.
    pub open spec fn spec_index27(self) -> int {
        (self.0 % SV39_VPN_SPAN) as int
    }

    /// The three 9-bit Sv39 level indices, highest level first.
    pub open spec fn spec_levels(self) -> (int, int, int) {
        (
            self.spec_index27() / (512int * 512int),
            (self.spec_index27() / 512int) % 512int,
            self.spec_index27() % 512int,
        )
    }

    /// Index of the page-table slot this page selects at the given level.
    pub fn level_index(self, level: u64) -> (r: usize)
        requires
            level <= 2,
        ensures
            level == 2 ==> r == self.spec_levels().0,
            level == 1 ==> r == self.spec_levels().1,
            level == 0 ==> r == self.spec_levels().2,
            r < 512,
    {
        let idx = self.0 % SV39_VPN_SPAN;
        if level == 2 {
            (idx / (512 * 512)) as usize
        } else if level == 1 {
            ((idx / 512) % 512) as usize
        } else {
            (idx % 512) as usize
        }
    }

    /// The page for the physical frame this virtual page reaches linearly.
    pub fn to_physical(self) -> (r: PhysicalPageNumber)
        requires
            self.0 >= KERNEL_MAP_OFFSET_VPN,
        ensures
            r.0 == self.0 - KERNEL_MAP_OFFSET_VPN,
    {
        PhysicalPageNumber(self.0 - KERNEL_MAP_OFFSET_VPN)
    }
}

impl VirtualAddress {
    /// The physical address reached by undoing the kernel linear offset.
    pub fn to_physical(self) -> (r: PhysicalAddress)
        requires
            self.0 >= KERNEL_MAP_OFFSET,
        ensures
            r.0 == self.0 - KERNEL_MAP_OFFSET,
    {
        PhysicalAddress(self.0 - KERNEL_MAP_OFFSET)
    }
}

impl PhysicalAddress {
    /// The virtual address of this physical address in the kernel window.
    pub fn to_virtual(self) -> (r: VirtualAddress)
        requires
            self.0 + KERNEL_MAP_OFFSET <= u64::MAX,
        ensures
            r.0 == self.0 + KERNEL_MAP_OFFSET,
    {
        VirtualAddress(self.0 + KERNEL_MAP_OFFSET)
    }
}

/// The page number returned by `floor`.
pub open spec fn page_floor(a: int) -> int {
    a / PAGE_SIZE as int
}

/// The page number returned by `ceil`.
pub open spec fn page_ceil(a: int) -> int {
    a / PAGE_SIZE as int + if a % PAGE_SIZE as int == 0 { 0int } else { 1int }
}

/// The kernel offset in pages is the kernel offset in bytes divided by
/// the page size.
pub proof fn lemma_kernel_offset_vpn()
    ensures
        KERNEL_MAP_OFFSET_VPN == KERNEL_MAP_OFFSET / PAGE_SIZE,
{
}

/// Rounding an address to page boundaries brackets it: the floor page
/// starts at or below the address, the ceiling page starts at or above
/// it, and the two page numbers differ by zero or one.
pub proof fn lemma_page_floor_ceil(a: u64)
    ensures
        page_floor(a as int) * PAGE_SIZE <= a as int,
        a as int <= page_ceil(a as int) * PAGE_SIZE,
        page_ceil(a as int) - page_floor(a as int) == 0
            || page_ceil(a as int) - page_floor(a as int) == 1,
{
    assert(page_floor(a as int) * PAGE_SIZE <= a as int) by (nonlinear_arith)
        requires a >= 0,
    ;
    assert(a as int <= page_ceil(a as int) * PAGE_SIZE) by (nonlinear_arith)
        requires a >= 0,
    ;
}

} // verus!
