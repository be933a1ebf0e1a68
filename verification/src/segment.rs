//! Mapping types and mapped virtual-address segments.

use vstd::prelude::*;
use crate::addr::{VirtualAddress, VirtualPageNumber, PAGE_SIZE};
use crate::page_table_entry::Flags;

verus! {

/// How a segment's pages reach physical memory.
#[derive(Clone, Copy, Debug, PartialEq, Eq, Structural)]
pub enum MapType {
    /// Linear: VA = PA + `KERNEL_MAP_OFFSET`; used for the kernel.
    Linear,
    /// Backed by freshly allocated frames, one per page.
    Framed,
}

/// A half-open range of virtual addresses.
#[derive(Clone, Copy, Debug, PartialEq, Eq, Structural)]
pub struct VaRange {
    /// First address of the range.
    pub start: VirtualAddress,
    /// First address past the range.
    pub end: VirtualAddress,
}

/// A half-open range of virtual page numbers.
#[derive(Clone, Copy, Debug, PartialEq, Eq, Structural)]
pub struct VpnRange {
    /// First page of the range.
    pub start: VirtualPageNumber,
    /// First page past the range.
    pub end: VirtualPageNumber,
}

impl VpnRange {
    /// Whether page `v` lies in the range.
    pub open spec fn spec_contains(self, v: int) -> bool {
        self.start.0 <= v < self.end.0
    }
}

/// Two half-open page ranges overlap exactly when the larger start lies
/// below the smaller end.
pub open spec fn ranges_overlap(a: VpnRange, b: VpnRange) -> bool {
    exists|v: int| a.spec_contains(v) && b.spec_contains(v)
}

/// One contiguous region of an address space: a virtual-address range,
/// a mapping policy, and permission flags.
#[derive(Clone, Copy, Debug, PartialEq, Eq, Structural)]
pub struct Segment {
    /// The mapping policy.
    pub map_type: MapType,
    /// The mapped virtual addresses.
    pub range: VaRange,
    /// Permission flag bits for every page of the segment.
    pub flags: Flags,
}

impl Segment {
    /// The pages the segment occupies: the start rounded down, the end
    /// rounded up.
    pub fn page_range(&self) -> (r: VpnRange)
        ensures
            r == self.spec_page_range(),
    {
        VpnRange {
            start: VirtualPageNumber::floor(self.range.start),
            end: VirtualPageNumber::ceil(self.range.end),
        }
    }

    /// The pages the segment occupies.
    pub open spec fn spec_page_range(&self) -> VpnRange {
        VpnRange {
            start: VirtualPageNumber((self.range.start.0 / PAGE_SIZE) as u64),
            end: VirtualPageNumber(
                (self.range.end.0 / PAGE_SIZE + if self.range.end.0 % PAGE_SIZE == 0 {
                    0u64
                } else {
                    1u64
                }) as u64,
            ),
        }
    }
}

} // verus!
