//! One address space: a page-table graph, the segments composing it,
//! and the frames backing the `Framed` segments.
//!
//! Segments live in one of two windows: user pages below the 27-bit
//! wrap-around, or kernel pages inside the linear high-half window. In
//! both windows distinct pages read distinct Sv39 indices, so the
//! pairwise non-overlap of segments carries over to the page table.

use vstd::prelude::*;
use crate::addr::{
    VirtualAddress, VirtualPageNumber, KERNEL_MAP_OFFSET, KERNEL_MAP_OFFSET_VPN,
    MEMORY_END_ADDRESS, PAGE_SIZE, SV39_VPN_SPAN,
};
use crate::elf::{elf_loads, ElfSegment};
use crate::frame::{FrameAllocator, FrameTracker, MemoryResult};
use crate::mapping::{vpn27, Mapping};
use crate::page_table_entry::{
    Flags, FLAG_EXECUTABLE, FLAG_READABLE, FLAG_USER, FLAG_VALID, FLAG_WRITABLE,
};
use crate::segment::{ranges_overlap, MapType, Segment, VaRange, VpnRange};

verus! {

/// Pages below this bound keep their own value as Sv39 index.
pub const LOW_VPN_LIMIT: u64 = 0x7F0_0000;

/// Size of the kernel linear window, in pages.
pub const KERNEL_WINDOW_PAGES: u64 = 0x10_0000;

/// First virtual address of the device MMIO window.
pub const DEVICE_START_ADDRESS: u64 = 0xFFFF_FFFF_1000_0000;

/// First virtual address past the device MMIO window.
pub const DEVICE_END_ADDRESS: u64 = 0xFFFF_FFFF_1001_0000;

/// Whether a page number lies in one of the two windows the address
/// space uses.
pub open spec fn vpn_in_window(v: int) -> bool {
    ||| 0 <= v < LOW_VPN_LIMIT
    ||| KERNEL_MAP_OFFSET_VPN <= v < KERNEL_MAP_OFFSET_VPN + KERNEL_WINDOW_PAGES
}

/// A segment whose pages all lie below the wrap-around.
pub open spec fn seg_in_low(s: Segment) -> bool {
    s.spec_page_range().end.0 <= LOW_VPN_LIMIT
}

/// A segment whose pages all lie in the kernel linear window.
pub open spec fn seg_in_kernel_window(s: Segment) -> bool {
    &&& KERNEL_MAP_OFFSET_VPN <= s.spec_page_range().start.0
    &&& s.spec_page_range().end.0 <= KERNEL_MAP_OFFSET_VPN + KERNEL_WINDOW_PAGES
}

/// Every page of the segment lies in one of the two windows.
pub open spec fn seg_in_window(s: Segment) -> bool {
    seg_in_low(s) || seg_in_kernel_window(s)
}

/// Inside the two windows the Sv39 index is affine in the page number:
/// low pages keep their value, kernel pages map onto the top of the
/// 27-bit index space.
pub proof fn lemma_vpn27_in_window(v: int)
    requires
        vpn_in_window(v),
    ensures
        0 <= v < LOW_VPN_LIMIT ==> vpn27(v) == v,
        KERNEL_MAP_OFFSET_VPN <= v ==> vpn27(v) == v - KERNEL_MAP_OFFSET_VPN + LOW_VPN_LIMIT,
{
    if 0 <= v < LOW_VPN_LIMIT {
        assert(vpn27(v) == v) by (nonlinear_arith)
            requires 0 <= v < 0x7F0_0000,
        ;
    } else {
        let d = v - KERNEL_MAP_OFFSET_VPN;
        assert(KERNEL_MAP_OFFSET_VPN == 0x1FFFFFF * (SV39_VPN_SPAN as int) + LOW_VPN_LIMIT);
        assert(vpn27(v) == d + LOW_VPN_LIMIT) by (nonlinear_arith)
            requires
                v == 0x1FFFFFF * (SV39_VPN_SPAN as int) + LOW_VPN_LIMIT + d,
                0 <= d < KERNEL_WINDOW_PAGES,
                LOW_VPN_LIMIT + KERNEL_WINDOW_PAGES == SV39_VPN_SPAN,
        ;
    }
}

/// Distinct pages of the two windows read distinct Sv39 indices.
pub proof fn lemma_vpn27_injective(v1: int, v2: int)
    requires
        vpn_in_window(v1),
        vpn_in_window(v2),
        v1 != v2,
    ensures
        vpn27(v1) != vpn27(v2),
{
    lemma_vpn27_in_window(v1);
    lemma_vpn27_in_window(v2);
}

/// All the memory-management information of one process: the page
/// tables, the segments, and the owned frames of `Framed` pages.
pub struct MemorySet {
    /// The page-table graph.
    pub mapping: Mapping,
    /// The mapped segments, pairwise non-overlapping.
    pub segments: Vec<Segment>,
    /// One owned frame per `Framed` page, with its page number.
    pub allocated_pairs: Vec<(VirtualPageNumber, FrameTracker)>,
}

impl MemorySet {
    /// Every page of segment `s` has a valid leaf entry with exactly the
    /// segment's flags plus V; `Linear` pages point at the frame the
    /// kernel offset names.
    pub open spec fn seg_mapped(self, s: Segment) -> bool {
        forall|v: int|
            s.spec_page_range().spec_contains(v) ==> match self.mapping.leaf_entry(
                #[trigger] vpn27(v),
            ) {
                Some(e) => e.spec_flags() == (s.flags.0 | FLAG_VALID) && (s.map_type
                    == MapType::Linear ==> e.spec_ppn() == v - KERNEL_MAP_OFFSET_VPN),
                None => false,
            }
    }

    /// Every valid leaf entry belongs to some segment's pages.
    pub open spec fn mapped_only_segments(self) -> bool {
        forall|idx: int|
            (#[trigger] self.mapping.leaf_entry(idx)) is Some ==> exists|i: int, v: int|
                0 <= i < self.segments@.len() && (#[trigger] self.segments@[
                    i
                ].spec_page_range().spec_contains(v)) && vpn27(v) == idx
    }

    /// The address space is consistent: the page tables are well formed,
    /// the segments sit in the two windows, no two segments overlap,
    /// every segment is mapped with its flags, and nothing else is
    /// mapped.
    pub open spec fn wf(self) -> bool {
        &&& self.mapping.wf()
        &&& forall|i: int|
            0 <= i < self.segments@.len() ==> seg_in_window(#[trigger] self.segments@[i])
        &&& forall|i: int, j: int|
            0 <= i < self.segments@.len() && 0 <= j < self.segments@.len() && i != j
                ==> !ranges_overlap(
                (#[trigger] self.segments@[i]).spec_page_range(),
                (#[trigger] self.segments@[j]).spec_page_range(),
            )
        &&& forall|i: int|
            0 <= i < self.segments@.len() ==> self.seg_mapped(#[trigger] self.segments@[i])
        &&& self.mapped_only_segments()
    }

    /// An empty address space: a fresh root table and no segments.
    pub fn new_empty(fa: &mut FrameAllocator) -> (r: MemoryResult<MemorySet>)
        requires
            old(fa).wf(),
        ensures
            final(fa).wf(),
            final(fa).spec_start() == old(fa).spec_start(),
            final(fa).spec_end() == old(fa).spec_end(),
            forall|p: int| final(fa).is_free(p) ==> old(fa).is_free(p),
            match r {
                Ok(ms) => {
                    &&& ms.wf()
                    &&& ms.segments@.len() == 0
                    &&& ms.allocated_pairs@.len() == 0
                    &&& ms.mapping.frames_outside(*final(fa))
                },
                Err(_) => *final(fa) == *old(fa) && old(fa).free_size() == 0,
            },
    {
        let mapping = match Mapping::new(fa) {
            Ok(m) => m,
            Err(msg) => {
                return Err(msg);
            },
        };
        let ms = MemorySet { mapping, segments: Vec::new(), allocated_pairs: Vec::new() };
        Ok(ms)
    }

    /// Whether `range` overlaps one of the mapped segments, by a linear
    /// scan. Two ranges overlap exactly when the larger start lies below
    /// the smaller end.
    pub fn overlap_with(&self, range: VpnRange) -> (r: bool)
        ensures
            r == exists|i: int|
                0 <= i < self.segments@.len() && ranges_overlap(
                    range,
                    (#[trigger] self.segments@[i]).spec_page_range(),
                ),
    {
        let mut i: usize = 0;
        while i < self.segments.len()
            invariant
                i <= self.segments@.len(),
                forall|j: int|
                    0 <= j < i ==> !ranges_overlap(
                        range,
                        (#[trigger] self.segments@[j]).spec_page_range(),
                    ),
            decreases self.segments@.len() - i,
        {
            let seg_range = self.segments[i].page_range();
            let lo = if range.start.0 > seg_range.start.0 {
                range.start.0
            } else {
                seg_range.start.0
            };
            let hi = if range.end.0 < seg_range.end.0 {
                range.end.0
            } else {
                seg_range.end.0
            };
            proof {
                lemma_ranges_overlap_iff(range, self.segments@[i as int].spec_page_range());
            }
            if lo < hi {
                return true;
            }
            i = i + 1;
        }
        false
    }
}

impl MemorySet {
    /// Map one more segment into the address space.
    ///
    /// A segment overlapping what is already mapped is rejected and
    /// nothing changes. Otherwise the segment's pages are mapped with
    /// its flags; for a `Framed` segment the freshly allocated frames
    /// are appended to the owned pairs, in page order, each holding its
    /// window of `init_data` zero-filled past the end.
    #[verifier::rlimit(80)]
    pub fn add_segment(
        &mut self,
        segment: Segment,
        init_data: Option<&Vec<u8>>,
        fa: &mut FrameAllocator,
    ) -> (r: MemoryResult<()>)
        requires
            old(self).wf(),
            old(fa).wf(),
            old(self).mapping.frames_outside(*old(fa)),
            segment.range.start.0 <= segment.range.end.0,
            seg_in_window(segment),
            segment.map_type == MapType::Linear ==> seg_in_kernel_window(segment),
            init_data is Some ==> segment.map_type == MapType::Framed && seg_in_low(segment),
        ensures
            final(fa).wf(),
            final(fa).spec_start() == old(fa).spec_start(),
            final(fa).spec_end() == old(fa).spec_end(),
            forall|p: int| final(fa).is_free(p) ==> old(fa).is_free(p),
            final(self).mapping.frames_outside(*final(fa)),
            (exists|i: int|
                0 <= i < old(self).segments@.len() && ranges_overlap(
                    segment.spec_page_range(),
                    (#[trigger] old(self).segments@[i]).spec_page_range(),
                )) ==> r is Err && *final(self) == *old(self) && *final(fa) == *old(fa),
            r is Err ==> final(self).segments@ == old(self).segments@
                && final(self).allocated_pairs@ == old(self).allocated_pairs@,
            (r is Err && (forall|i: int|
                0 <= i < old(self).segments@.len() ==> !ranges_overlap(
                    segment.spec_page_range(),
                    (#[trigger] old(self).segments@[i]).spec_page_range(),
                ))) ==> final(fa).free_size() == 0,
            match r {
                Ok(_) => {
                    &&& final(self).wf()
                    &&& final(self).segments@ == old(self).segments@.push(segment)
                    &&& forall|j: int|
                        0 <= j < old(self).allocated_pairs@.len()
                            ==> #[trigger] final(self).allocated_pairs@[j] == old(
                            self,
                        ).allocated_pairs@[j]
                    &&& (segment.map_type == MapType::Linear ==> final(self).allocated_pairs@
                        == old(self).allocated_pairs@)
                    &&& (segment.map_type == MapType::Framed ==> {
                        let base = old(self).allocated_pairs@.len() as int;
                        let s = segment.spec_page_range().start.0 as int;
                        let n = segment.spec_page_range().end.0 - s;
                        &&& final(self).allocated_pairs@.len() == base + n
                        &&& forall|j: int|
                            0 <= j < n ==> {
                                &&& (#[trigger] final(self).allocated_pairs@[base + j]).0.0 == s
                                    + j
                                &&& final(self).allocated_pairs@[base + j].1.spec_data().len()
                                    == PAGE_SIZE
                                &&& final(self).mapping.maps_to(
                                    s + j,
                                    final(self).allocated_pairs@[base + j].1.spec_ppn().0 as int,
                                    segment.flags.0,
                                )
                                &&& old(fa).spec_start() <= final(self).allocated_pairs@[base
                                    + j].1.spec_ppn().0 < old(fa).spec_end()
                                &&& !final(fa).is_free(
                                    final(self).allocated_pairs@[base + j].1.spec_ppn().0 as int,
                                )
                                &&& (init_data matches Some(d) ==> forall|b: int|
                                    0 <= b < PAGE_SIZE
                                        ==> (#[trigger] final(self).allocated_pairs@[base
                                        + j].1.spec_data()[b]) == (if j
                                        * PAGE_SIZE + b < d@.len() {
                                        d@[j * PAGE_SIZE + b]
                                    } else {
                                        0u8
                                    }))
                            }
                        &&& forall|j1: int, j2: int|
                            0 <= j1 < n && 0 <= j2 < n && j1 != j2
                                ==> (#[trigger] final(self).allocated_pairs@[base
                                + j1]).1.spec_ppn()
                                != (#[trigger] final(self).allocated_pairs@[base
                                + j2]).1.spec_ppn()
                    })
                },
                Err(_) => true,
            },
    {
        let pr = segment.page_range();
        if self.overlap_with(pr) {
            return Err("overlapping segment");
        }
        let ghost m0 = *self;
        proof {
            // In-window pages of distinct values read distinct indices.
            assert forall|v1: int, v2: int|
                pr.spec_contains(v1) && pr.spec_contains(v2) && v1 != v2 implies vpn27(v1)
                != vpn27(v2) by {
                lemma_vpn27_injective(v1, v2);
            }
            // No page of the new segment is mapped yet: a valid leaf
            // belongs to some existing segment, which would overlap.
            assert forall|v: int|
                pr.spec_contains(v) implies self.mapping.leaf_entry(#[trigger] vpn27(v))
                is None by {
                if self.mapping.leaf_entry(vpn27(v)) is Some {
                    let (i, v2) = choose|i: int, v2: int|
                        0 <= i < self.segments@.len() && (#[trigger] self.segments@[
                            i
                        ].spec_page_range().spec_contains(v2)) && vpn27(v2) == vpn27(v);
                    if v2 != v {
                        lemma_vpn27_injective(v2, v);
                    }
                    assert(ranges_overlap(pr, self.segments@[i].spec_page_range()));
                }
            }
        }
        let res = self.mapping.map(&segment, init_data, fa);
        match res {
            Err(msg) => Err(msg),
            Ok(mut new_pairs) => {
                let ghost base = self.allocated_pairs@.len() as int;
                self.allocated_pairs.append(&mut new_pairs);
                self.segments.push(segment);
                proof {
                    let mf = *self;
                    let n0 = m0.segments@.len() as int;
                    // Pages of the old segments kept their leaf entries.
                    assert forall|i: int|
                        0 <= i < n0 implies mf.seg_mapped(#[trigger] mf.segments@[i]) by {
                        assert(mf.segments@[i] == m0.segments@[i]);
                        assert forall|v: int|
                            m0.segments@[i].spec_page_range().spec_contains(v) implies match mf
                                .mapping.leaf_entry(#[trigger] vpn27(v)) {
                            Some(e) => e.spec_flags() == (m0.segments@[i].flags.0 | FLAG_VALID)
                                && (m0.segments@[i].map_type == MapType::Linear ==> e.spec_ppn()
                                == v - KERNEL_MAP_OFFSET_VPN),
                            None => false,
                        } by {
                            assert forall|v2: int|
                                pr.spec_contains(v2) implies vpn27(v) != vpn27(v2) by {
                                if v2 == v {
                                    assert(ranges_overlap(
                                        pr,
                                        m0.segments@[i].spec_page_range(),
                                    ));
                                } else {
                                    lemma_vpn27_injective(v, v2);
                                }
                            }
                            assert(mf.mapping.leaf_entry(vpn27(v)) == m0.mapping.leaf_entry(
                                vpn27(v),
                            ));
                            assert(m0.seg_mapped(m0.segments@[i]));
                        }
                    }
                    // The new segment is mapped with its flags.
                    assert(mf.seg_mapped(segment)) by {
                        assert forall|v: int|
                            segment.spec_page_range().spec_contains(v) implies match mf
                                .mapping.leaf_entry(#[trigger] vpn27(v)) {
                            Some(e) => e.spec_flags() == (segment.flags.0 | FLAG_VALID)
                                && (segment.map_type == MapType::Linear ==> e.spec_ppn() == v
                                - KERNEL_MAP_OFFSET_VPN),
                            None => false,
                        } by {
                            if segment.map_type == MapType::Linear {
                                assert(mf.mapping.maps_to(
                                    v,
                                    v - KERNEL_MAP_OFFSET_VPN,
                                    segment.flags.0,
                                ));
                            } else {
                                let s = segment.spec_page_range().start.0 as int;
                                let j = v - s;
                                assert(mf.mapping.maps_to(
                                    s + j,
                                    mf.allocated_pairs@[base + j].1.spec_ppn().0 as int,
                                    segment.flags.0,
                                ));
                            }
                        }
                    }
                    // And nothing outside the segments is mapped.
                    assert(mf.mapped_only_segments()) by {
                        assert forall|idx: int|
                            (#[trigger] mf.mapping.leaf_entry(idx)) is Some implies exists|
                            i: int,
                            v: int,
                        |
                            0 <= i < mf.segments@.len() && (#[trigger] mf.segments@[
                                i
                            ].spec_page_range().spec_contains(v)) && vpn27(v) == idx by {
                            if forall|v: int|
                                pr.spec_contains(v) ==> idx != #[trigger] vpn27(v) {
                                assert(mf.mapping.leaf_entry(idx) == m0.mapping.leaf_entry(
                                    idx,
                                ));
                                let (i, v) = choose|i: int, v: int|
                                    0 <= i < m0.segments@.len() && (#[trigger] m0.segments@[
                                        i
                                    ].spec_page_range().spec_contains(v)) && vpn27(v) == idx;
                                assert(mf.segments@[i].spec_page_range().spec_contains(v));
                            } else {
                                let v = choose|v: int|
                                    pr.spec_contains(v) && idx == #[trigger] vpn27(v);
                                assert(mf.segments@[n0].spec_page_range().spec_contains(v));
                            }
                        }
                    }
                }
                Ok(())
            },
        }
    }
}

/// The linker-provided section boundaries of the kernel image, as
/// virtual addresses in the high-half window. The boot code reads them
/// off the linker symbols and hands them in as plain values.
#[derive(Clone, Copy, Debug, PartialEq, Eq, Structural)]
pub struct KernelLayout {
    /// Start of `.text`.
    pub text_start: VirtualAddress,
    /// End of `.text`.
    pub text_end: VirtualAddress,
    /// Start of `.rodata`.
    pub rodata_start: VirtualAddress,
    /// End of `.rodata`.
    pub rodata_end: VirtualAddress,
    /// Start of `.data`.
    pub data_start: VirtualAddress,
    /// End of `.data`.
    pub data_end: VirtualAddress,
    /// Start of `.bss`.
    pub bss_start: VirtualAddress,
    /// End of `.bss`.
    pub bss_end: VirtualAddress,
    /// Start of the kernel heap.
    pub heap_start: VirtualAddress,
    /// End of the kernel heap.
    pub heap_end: VirtualAddress,
    /// Lower end of the boot stack.
    pub stack_start: VirtualAddress,
    /// Upper end of the boot stack.
    pub stack_end: VirtualAddress,
}

/// A section range sits inside the kernel window, ordered.
pub open spec fn section_ok(s: VirtualAddress, e: VirtualAddress) -> bool {
    &&& KERNEL_MAP_OFFSET <= s.0
    &&& s.0 <= e.0
    &&& e.0 <= KERNEL_MAP_OFFSET + MEMORY_END_ADDRESS
}

impl KernelLayout {
    /// The sections are page-aligned — the linker script guarantees it —
    /// ordered behind the device window, and end inside physical memory.
    /// So laid out, no two of the eight kernel segments share a page.
    pub open spec fn wf(self) -> bool {
        &&& self.text_start.0 % PAGE_SIZE == 0
        &&& self.text_end.0 % PAGE_SIZE == 0
        &&& self.rodata_start.0 % PAGE_SIZE == 0
        &&& self.rodata_end.0 % PAGE_SIZE == 0
        &&& self.data_start.0 % PAGE_SIZE == 0
        &&& self.data_end.0 % PAGE_SIZE == 0
        &&& self.bss_start.0 % PAGE_SIZE == 0
        &&& self.bss_end.0 % PAGE_SIZE == 0
        &&& self.heap_start.0 % PAGE_SIZE == 0
        &&& self.heap_end.0 % PAGE_SIZE == 0
        &&& self.stack_start.0 % PAGE_SIZE == 0
        &&& self.stack_end.0 % PAGE_SIZE == 0
        &&& DEVICE_END_ADDRESS <= self.text_start.0
        &&& self.text_start.0 <= self.text_end.0
        &&& self.text_end.0 <= self.rodata_start.0
        &&& self.rodata_start.0 <= self.rodata_end.0
        &&& self.rodata_end.0 <= self.data_start.0
        &&& self.data_start.0 <= self.data_end.0
        &&& self.data_end.0 <= self.bss_start.0
        &&& self.bss_start.0 <= self.bss_end.0
        &&& self.bss_end.0 <= self.heap_start.0
        &&& self.heap_start.0 <= self.heap_end.0
        &&& self.heap_end.0 <= self.stack_start.0
        &&& self.stack_start.0 <= self.stack_end.0
        &&& self.stack_end.0 <= KERNEL_MAP_OFFSET + MEMORY_END_ADDRESS
    }
}

/// The `i`-th segment of the kernel address space: the device window,
/// then the image sections in address order, then the rest of physical
/// memory.
pub open spec fn kernel_segment(layout: KernelLayout, i: int) -> Segment {
    let (s, e, f) = if i == 0 {
        (VirtualAddress(DEVICE_START_ADDRESS), VirtualAddress(DEVICE_END_ADDRESS), FLAG_READABLE
            | FLAG_WRITABLE)
    } else if i == 1 {
        (layout.text_start, layout.text_end, FLAG_READABLE | FLAG_EXECUTABLE)
    } else if i == 2 {
        (layout.rodata_start, layout.rodata_end, FLAG_READABLE)
    } else if i == 3 {
        (layout.data_start, layout.data_end, FLAG_READABLE | FLAG_WRITABLE)
    } else if i == 4 {
        (layout.bss_start, layout.bss_end, FLAG_READABLE | FLAG_WRITABLE)
    } else if i == 5 {
        (layout.heap_start, layout.heap_end, FLAG_READABLE | FLAG_WRITABLE)
    } else if i == 6 {
        (layout.stack_start, layout.stack_end, FLAG_READABLE | FLAG_WRITABLE)
    } else {
        (
            layout.stack_end,
            VirtualAddress((KERNEL_MAP_OFFSET + MEMORY_END_ADDRESS) as u64),
            FLAG_READABLE | FLAG_WRITABLE,
        )
    };
    Segment { map_type: MapType::Linear, range: VaRange { start: s, end: e }, flags: Flags(f) }
}

/// Under a well-formed layout, the eight kernel segments occupy
/// pairwise disjoint pages: each ends, page-aligned, at or before the
/// next one starts.
proof fn lemma_kernel_segments_disjoint(layout: KernelLayout, i: int, j: int)
    requires
        layout.wf(),
        0 <= j < i < 8,
    ensures
        !ranges_overlap(
            kernel_segment(layout, i).spec_page_range(),
            kernel_segment(layout, j).spec_page_range(),
        ),
{
    let a = kernel_segment(layout, j);
    let b = kernel_segment(layout, i);
    assert(a.range.end.0 <= b.range.start.0);
    assert(a.range.end.0 % PAGE_SIZE == 0);
    assert(a.spec_page_range().end.0 == a.range.end.0 / PAGE_SIZE);
    if ranges_overlap(b.spec_page_range(), a.spec_page_range()) {
        let v = choose|v: int|
            b.spec_page_range().spec_contains(v) && a.spec_page_range().spec_contains(v);
        assert(a.range.end.0 / PAGE_SIZE <= b.range.start.0 / PAGE_SIZE);
        assert(false);
    }
}

/// A linear kernel segment over `[s, e)` with the given flag bits.
fn linear_segment(s: VirtualAddress, e: VirtualAddress, flags: u8) -> (r: Segment)
    ensures
        r == (Segment {
            map_type: MapType::Linear,
            range: VaRange { start: s, end: e },
            flags: Flags(flags),
        }),
{
    Segment { map_type: MapType::Linear, range: VaRange { start: s, end: e }, flags: Flags(flags) }
}

/// A section inside the kernel window occupies pages of the kernel
/// window.
proof fn lemma_section_in_window(s: VirtualAddress, e: VirtualAddress, seg: Segment)
    requires
        section_ok(s, e),
        seg.range == (VaRange { start: s, end: e }),
    ensures
        seg_in_kernel_window(seg),
        seg_in_window(seg),
{
    crate::addr::lemma_kernel_offset_vpn();
    let pr = seg.spec_page_range();
    assert(pr.start.0 == s.0 / PAGE_SIZE);
    assert(KERNEL_MAP_OFFSET_VPN <= s.0 / PAGE_SIZE) by (nonlinear_arith)
        requires KERNEL_MAP_OFFSET <= s.0, KERNEL_MAP_OFFSET == KERNEL_MAP_OFFSET_VPN * PAGE_SIZE,
            PAGE_SIZE > 0,
    ;
    assert(e.0 / PAGE_SIZE + 1 <= KERNEL_MAP_OFFSET_VPN + KERNEL_WINDOW_PAGES)
        by (nonlinear_arith)
        requires
            e.0 <= KERNEL_MAP_OFFSET + MEMORY_END_ADDRESS,
            KERNEL_MAP_OFFSET == KERNEL_MAP_OFFSET_VPN * PAGE_SIZE,
            MEMORY_END_ADDRESS == 0x88000 * PAGE_SIZE,
            0x88000 + 1 <= KERNEL_WINDOW_PAGES,
            PAGE_SIZE > 0,
    ;
}

impl MemorySet {
    /// The kernel address space: the device MMIO window and every kernel
    /// section mapped linearly — `.text` read-execute, `.rodata`
    /// read-only, the writable sections and the rest of physical memory
    /// read-write. No segment carries the user bit. With a well-formed
    /// layout the segments never collide, so the only failure is frame
    /// exhaustion.
    #[verifier::loop_isolation(false)]
    pub fn new_kernel(layout: &KernelLayout, fa: &mut FrameAllocator) -> (r: MemoryResult<
        MemorySet,
    >)
        requires
            old(fa).wf(),
            layout.wf(),
        ensures
            final(fa).wf(),
            final(fa).spec_start() == old(fa).spec_start(),
            final(fa).spec_end() == old(fa).spec_end(),
            forall|p: int| final(fa).is_free(p) ==> old(fa).is_free(p),
            r is Err ==> final(fa).free_size() == 0,
            r matches Ok(ms) ==> {
                &&& ms.wf()
                &&& ms.mapping.frames_outside(*final(fa))
                &&& ms.segments@.len() == 8
                &&& forall|i: int|
                    0 <= i < 8 ==> #[trigger] ms.segments@[i] == kernel_segment(*layout, i)
                &&& ms.allocated_pairs@.len() == 0
                &&& forall|i: int|
                    0 <= i < 8 ==> (#[trigger] ms.segments@[i]).flags.0
                        & crate::page_table_entry::FLAG_USER == 0
            },
    {
        let mut ms = match MemorySet::new_empty(fa) {
            Ok(ms) => ms,
            Err(msg) => {
                return Err(msg);
            },
        };
        let rw: u8 = FLAG_READABLE | FLAG_WRITABLE;
        let segs: [Segment; 8] = [
            linear_segment(
                VirtualAddress(DEVICE_START_ADDRESS),
                VirtualAddress(DEVICE_END_ADDRESS),
                rw,
            ),
            linear_segment(layout.text_start, layout.text_end, FLAG_READABLE | FLAG_EXECUTABLE),
            linear_segment(layout.rodata_start, layout.rodata_end, FLAG_READABLE),
            linear_segment(layout.data_start, layout.data_end, rw),
            linear_segment(layout.bss_start, layout.bss_end, rw),
            linear_segment(layout.heap_start, layout.heap_end, rw),
            linear_segment(layout.stack_start, layout.stack_end, rw),
            linear_segment(
                layout.stack_end,
                VirtualAddress(KERNEL_MAP_OFFSET + MEMORY_END_ADDRESS),
                rw,
            ),
        ];
        proof {
            assert forall|j: int| 0 <= j < 8 implies #[trigger] segs@[j] == kernel_segment(
                *layout,
                j,
            ) by {
                if j == 0 {
                } else if j == 1 {
                } else if j == 2 {
                } else if j == 3 {
                } else if j == 4 {
                } else if j == 5 {
                } else if j == 6 {
                } else {
                }
            }
        }
        let mut i: usize = 0;
        while i < 8
            invariant
                i <= 8,
                fa.wf(),
                fa.spec_start() == old(fa).spec_start(),
                fa.spec_end() == old(fa).spec_end(),
                forall|p: int| fa.is_free(p) ==> old(fa).is_free(p),
                ms.wf(),
                ms.mapping.frames_outside(*fa),
                ms.segments@.len() == i,
                ms.allocated_pairs@.len() == 0,
                forall|j: int|
                    0 <= j < i ==> #[trigger] ms.segments@[j] == kernel_segment(*layout, j),
                segs@.len() == 8,
                forall|j: int|
                    0 <= j < 8 ==> #[trigger] segs@[j] == kernel_segment(*layout, j),
            decreases 8 - i,
        {
            let seg = segs[i];
            proof {
                assert(seg == kernel_segment(*layout, i as int));
                assert(section_ok(seg.range.start, seg.range.end)) by {
                    assert(KERNEL_MAP_OFFSET <= DEVICE_START_ADDRESS);
                    assert(DEVICE_END_ADDRESS <= KERNEL_MAP_OFFSET + MEMORY_END_ADDRESS);
                }
                lemma_section_in_window(seg.range.start, seg.range.end, seg);
            }
            let res = ms.add_segment(seg, None, fa);
            if let Err(msg) = res {
                proof {
                    // The kernel segments are pairwise disjoint, so the
                    // failure can only be frame exhaustion.
                    assert forall|j: int|
                        0 <= j < ms.segments@.len() implies !ranges_overlap(
                        seg.spec_page_range(),
                        (#[trigger] ms.segments@[j]).spec_page_range(),
                    ) by {
                        lemma_kernel_segments_disjoint(*layout, i as int, j);
                    }
                }
                return Err(msg);
            }
            i = i + 1;
        }
        proof {
            assert forall|j: int|
                0 <= j < 8 implies (#[trigger] ms.segments@[j]).flags.0
                    & crate::page_table_entry::FLAG_USER == 0 by {
                let f = ms.segments@[j].flags.0;
                assert(f == (FLAG_READABLE | FLAG_EXECUTABLE) || f == FLAG_READABLE || f == (
                FLAG_READABLE | FLAG_WRITABLE));
                assert((FLAG_READABLE | FLAG_EXECUTABLE) & crate::page_table_entry::FLAG_USER
                    == 0) by (bit_vector);
                assert(FLAG_READABLE & crate::page_table_entry::FLAG_USER == 0) by (bit_vector);
                assert((FLAG_READABLE | FLAG_WRITABLE) & crate::page_table_entry::FLAG_USER
                    == 0) by (bit_vector);
            }
        }
        Ok(ms)
    }
}

/// The pages an ELF load segment occupies: its virtual-address range,
/// rounded out to page boundaries.
pub open spec fn load_pages(l: ElfSegment) -> VpnRange {
    VpnRange {
        start: VirtualPageNumber((l.vaddr / PAGE_SIZE) as u64),
        end: VirtualPageNumber(
            ((l.vaddr + l.mem_size) as u64 / PAGE_SIZE + if (l.vaddr + l.mem_size) as u64
                % PAGE_SIZE == 0 {
                0u64
            } else {
                1u64
            }) as u64,
        ),
    }
}

/// Pages a load segment occupies, counted.
pub open spec fn load_page_count(l: ElfSegment) -> int {
    load_pages(l).end.0 - load_pages(l).start.0
}

/// Where the backing frames of load `i` start in `allocated_pairs`:
/// after the frames of the loads before it (the kernel half has none).
pub open spec fn load_pair_base(loads: Seq<ElfSegment>, i: int) -> int
    decreases i,
{
    if i <= 0 {
        0
    } else {
        load_pair_base(loads, i - 1) + load_page_count(loads[i - 1])
    }
}

/// First virtual address past the user window: user pages stay below
/// the Sv39 wrap-around, whose top slice this model reserves for the
/// kernel's high-half mapping — spec-valid addresses above it belong to
/// the kernel half that every process already shares.
pub const USER_VA_LIMIT: u64 = 0x7F_0000_0000;

/// Whether a load segment fits what the kernel maps: inside the user
/// window, and with its file bytes inside the image.
pub open spec fn elf_load_ok(l: ElfSegment, data_len: int) -> bool {
    &&& l.mem_size <= USER_VA_LIMIT
    &&& l.vaddr <= USER_VA_LIMIT - l.mem_size
    &&& l.file_size <= data_len
    &&& l.offset <= data_len - l.file_size
}

/// Earlier loads' frame blocks end before a later load's block starts.
proof fn lemma_load_pair_base_monotone(loads: Seq<ElfSegment>, j: int, i: int)
    requires
        0 <= j < i <= loads.len(),
        forall|k: int| 0 <= k < i ==> load_page_count(#[trigger] loads[k]) >= 0,
    ensures
        load_pair_base(loads, j) + load_page_count(loads[j]) <= load_pair_base(loads, i),
        load_pair_base(loads, j) >= 0,
    decreases i,
{
    if j + 1 == i {
        if j > 0 {
            lemma_load_pair_base_monotone(loads, j - 1, j);
        }
    } else {
        lemma_load_pair_base_monotone(loads, j, i - 1);
    }
}

/// The flag bits an ELF load segment is mapped with: its own R/W/X
/// permissions, plus U for a user process.
pub open spec fn spec_elf_flags(l: ElfSegment, is_user: bool) -> u8 {
    ((if is_user {
        FLAG_USER
    } else {
        0u8
    }) | (if l.readable {
        FLAG_READABLE
    } else {
        0u8
    }) | (if l.writable {
        FLAG_WRITABLE
    } else {
        0u8
    })) | (if l.executable {
        FLAG_EXECUTABLE
    } else {
        0u8
    })
}

/// The bytes of one ELF segment laid out from its first page boundary:
/// `pad` zero bytes (the segment's offset within its first page), then
/// the segment's window of the image.
fn segment_bytes(data: &Vec<u8>, offset: u64, len: u64, pad: u64) -> (r: Vec<u8>)
    requires
        offset + len <= data@.len(),
        pad < PAGE_SIZE,
    ensures
        r@.len() == pad + len,
        forall|b: int| 0 <= b < pad ==> (#[trigger] r@[b]) == 0u8,
        forall|b: int|
            pad <= b < pad + len ==> (#[trigger] r@[b]) == data@[offset + b - pad],
{
    let mut r: Vec<u8> = Vec::new();
    let mut i: u64 = 0;
    while i < pad
        invariant
            i <= pad,
            r@.len() == i,
            forall|b: int| 0 <= b < i ==> (#[trigger] r@[b]) == 0u8,
        decreases pad - i,
    {
        r.push(0u8);
        i = i + 1;
    }
    let data_len: usize = data.len();
    let mut j: u64 = 0;
    while j < len
        invariant
            j <= len,
            offset + len <= data@.len(),
            data@.len() == data_len <= usize::MAX,
            r@.len() == pad + j,
            forall|b: int| 0 <= b < pad ==> (#[trigger] r@[b]) == 0u8,
            forall|b: int|
                pad <= b < pad + j ==> (#[trigger] r@[b]) == data@[offset + b - pad],
        decreases len - j,
    {
        let b = data[(offset + j) as usize];
        r.push(b);
        j = j + 1;
    }
    r
}

impl MemorySet {
    /// The `satp` value that activates this address space: Sv39 mode
    /// over the root table's frame. Writing the register and flushing
    /// the TLB is the boot code's business.
    pub fn activate(&self) -> (r: u64)
        requires
            self.mapping.wf(),
        ensures
            r == 0x8000_0000_0000_0000u64 + self.mapping.spec_root_ppn(),
    {
        self.mapping.satp_value()
    }

    /// Build an address space from an ELF image: the kernel mapping
    /// first — user processes keep the high-half kernel mapping, so trap
    /// handling still sees kernel text after the `satp` switch — then
    /// one `Framed` segment per loadable program header, at its virtual
    /// address, sized by `mem_size`, with its permission bits plus U for
    /// a user process. The backing frames hold the header's file bytes,
    /// zero-filled past `file_size` — the tail is always zero. Failure
    /// means frames ran out, the image is wild or does not parse, a
    /// load segment leaves the user window or the image,
    /// or two load segments share a page.
    #[verifier::loop_isolation(false)]
    #[verifier::rlimit(100)]
    pub fn from_elf(
        data: &Vec<u8>,
        is_user: bool,
        layout: &KernelLayout,
        fa: &mut FrameAllocator,
    ) -> (r: MemoryResult<MemorySet>)
        requires
            old(fa).wf(),
            layout.wf(),
        ensures
            final(fa).wf(),
            final(fa).spec_start() == old(fa).spec_start(),
            final(fa).spec_end() == old(fa).spec_end(),
            forall|p: int| final(fa).is_free(p) ==> old(fa).is_free(p),
            r is Err ==> {
                ||| final(fa).free_size() == 0
                ||| !crate::elf::elf_image_tame(data@)
                ||| !crate::elf::elf_parses(data@)
                ||| exists|i: int|
                    0 <= i < elf_loads(data@).len() && !elf_load_ok(
                        #[trigger] elf_loads(data@)[i],
                        data@.len() as int,
                    )
                ||| exists|i: int, j: int|
                    #![trigger elf_loads(data@)[i], elf_loads(data@)[j]]
                    0 <= j < i < elf_loads(data@).len() && ranges_overlap(
                        load_pages(elf_loads(data@)[i]),
                        load_pages(elf_loads(data@)[j]),
                    )
            },
            r matches Ok(ms) ==> {
                &&& ms.wf()
                &&& ms.mapping.frames_outside(*final(fa))
                &&& crate::elf::elf_parses(data@)
                &&& ms.segments@.len() == 8 + elf_loads(data@).len()
                &&& forall|i: int|
                    0 <= i < 8 ==> #[trigger] ms.segments@[i] == kernel_segment(*layout, i)
                &&& forall|i: int|
                    0 <= i < elf_loads(data@).len() ==> elf_load_ok(
                        #[trigger] elf_loads(data@)[i],
                        data@.len() as int,
                    )
                &&& forall|i: int|
                    0 <= i < elf_loads(data@).len() ==> {
                        let l = elf_loads(data@)[i];
                        let seg = #[trigger] ms.segments@[8 + i];
                        &&& seg.map_type == MapType::Framed
                        &&& seg.range.start.0 == l.vaddr
                        &&& seg.range.end.0 == l.vaddr + l.mem_size
                        &&& seg.flags.0 == spec_elf_flags(l, is_user)
                    }
                &&& ms.allocated_pairs@.len() == load_pair_base(
                    elf_loads(data@),
                    elf_loads(data@).len() as int,
                )
                &&& forall|i: int, k: int|
                    #![trigger ms.allocated_pairs@[load_pair_base(elf_loads(data@), i) + k]]
                    0 <= i < elf_loads(data@).len() && 0 <= k < load_page_count(
                        elf_loads(data@)[i],
                    ) ==> {
                        let l = elf_loads(data@)[i];
                        let pair = ms.allocated_pairs@[load_pair_base(elf_loads(data@), i) + k];
                        &&& pair.0.0 == load_pages(l).start.0 + k
                        &&& pair.1.spec_data().len() == PAGE_SIZE
                        &&& forall|b: int|
                            0 <= b < PAGE_SIZE ==> (#[trigger] pair.1.spec_data()[b]) == ({
                                let pos = (load_pages(l).start.0 + k) * PAGE_SIZE + b
                                    - l.vaddr;
                                if 0 <= pos < l.file_size {
                                    data@[l.offset + pos]
                                } else {
                                    0u8
                                }
                            })
                    }
            },
    {
        if !crate::elf::elf_image_check(data) {
            return Err("unsupported elf format");
        }
        let loads = match crate::elf::parse_load_segments(data) {
            Ok(v) => v,
            Err(msg) => {
                return Err(msg);
            },
        };
        let mut ms = match MemorySet::new_kernel(layout, fa) {
            Ok(ms) => ms,
            Err(msg) => {
                return Err(msg);
            },
        };
        let mut i: usize = 0;
        while i < loads.len()
            invariant
                i <= loads@.len(),
                loads@ == elf_loads(data@),
                fa.wf(),
                fa.spec_start() == old(fa).spec_start(),
                fa.spec_end() == old(fa).spec_end(),
                forall|p: int| fa.is_free(p) ==> old(fa).is_free(p),
                ms.wf(),
                ms.mapping.frames_outside(*fa),
                ms.segments@.len() == 8 + i,
                forall|j: int|
                    0 <= j < 8 ==> #[trigger] ms.segments@[j] == kernel_segment(*layout, j),
                forall|j: int|
                    0 <= j < i ==> elf_load_ok(
                        #[trigger] elf_loads(data@)[j],
                        data@.len() as int,
                    ),
                forall|j: int|
                    0 <= j < i ==> {
                        let l = elf_loads(data@)[j];
                        let seg = #[trigger] ms.segments@[8 + j];
                        &&& seg.map_type == MapType::Framed
                        &&& seg.range.start.0 == l.vaddr
                        &&& seg.range.end.0 == l.vaddr + l.mem_size
                        &&& seg.flags.0 == spec_elf_flags(l, is_user)
                        &&& seg.spec_page_range() == load_pages(l)
                    },
                ms.allocated_pairs@.len() == load_pair_base(loads@, i as int),
                forall|j: int, k: int|
                    #![trigger ms.allocated_pairs@[load_pair_base(elf_loads(data@), j) + k]]
                    0 <= j < i && 0 <= k < load_page_count(elf_loads(data@)[j]) ==> {
                        let l = elf_loads(data@)[j];
                        let pair = ms.allocated_pairs@[load_pair_base(elf_loads(data@), j) + k];
                        &&& pair.0.0 == load_pages(l).start.0 + k
                        &&& pair.1.spec_data().len() == PAGE_SIZE
                        &&& forall|b: int|
                            0 <= b < PAGE_SIZE ==> (#[trigger] pair.1.spec_data()[b]) == ({
                                let pos = (load_pages(l).start.0 + k) * PAGE_SIZE + b
                                    - l.vaddr;
                                if 0 <= pos < l.file_size {
                                    data@[l.offset + pos]
                                } else {
                                    0u8
                                }
                            })
                    },
            decreases loads@.len() - i,
        {
            let l = loads[i];
            // The segment must fit the user window and lie inside the
            // image.
            if l.mem_size > USER_VA_LIMIT || l.vaddr > USER_VA_LIMIT - l.mem_size {
                return Err("unsupported elf format");
            }
            if l.file_size > data.len() as u64 || l.offset > data.len() as u64 - l.file_size {
                return Err("unsupported elf format");
            }
            let flags = Flags::user(is_user).or(Flags::readable(l.readable)).or(
                Flags::writable(l.writable),
            ).or(Flags::executable(l.executable));
            let segment = Segment {
                map_type: MapType::Framed,
                range: VaRange {
                    start: VirtualAddress(l.vaddr),
                    end: VirtualAddress(l.vaddr + l.mem_size),
                },
                flags,
            };
            let pad = l.vaddr % PAGE_SIZE;
            let init = segment_bytes(data, l.offset, l.file_size, pad);
            proof {
                let pr = segment.spec_page_range();
                assert(pr.end.0 <= LOW_VPN_LIMIT) by (nonlinear_arith)
                    requires
                        pr.end.0 as int == (l.vaddr + l.mem_size) / (PAGE_SIZE as int) + (if (
                        l.vaddr + l.mem_size) % (PAGE_SIZE as int) == 0 {
                            0int
                        } else {
                            1int
                        }),
                        l.vaddr + l.mem_size <= USER_VA_LIMIT,
                        USER_VA_LIMIT == LOW_VPN_LIMIT * 4096,
                        PAGE_SIZE == 4096,
                ;
                assert(seg_in_low(segment));
                assert(pr == load_pages(loads@[i as int]));
            }
            let ghost pre_segments = ms.segments@;
            let ghost pre_pairs = ms.allocated_pairs@;
            let res = ms.add_segment(segment, Some(&init), fa);
            if let Err(msg) = res {
                proof {
                    // Either frames ran out, or the new segment collides
                    // with an earlier one; a kernel segment cannot be the
                    // culprit, its pages lie in the high window.
                    if exists|j: int|
                        0 <= j < pre_segments.len() && ranges_overlap(
                            segment.spec_page_range(),
                            (#[trigger] pre_segments[j]).spec_page_range(),
                        ) {
                        let j = choose|j: int|
                            0 <= j < pre_segments.len() && ranges_overlap(
                                segment.spec_page_range(),
                                (#[trigger] pre_segments[j]).spec_page_range(),
                            );
                        if j < 8 {
                            let ks = kernel_segment(*layout, j);
                            assert(KERNEL_MAP_OFFSET <= ks.range.start.0
                                && ks.range.start.0 <= ks.range.end.0 && ks.range.end.0
                                <= KERNEL_MAP_OFFSET + MEMORY_END_ADDRESS) by {
                                assert(KERNEL_MAP_OFFSET <= DEVICE_START_ADDRESS);
                                assert(DEVICE_END_ADDRESS <= KERNEL_MAP_OFFSET
                                    + MEMORY_END_ADDRESS);
                            }
                            lemma_section_in_window(ks.range.start, ks.range.end, ks);
                            let v = choose|v: int|
                                segment.spec_page_range().spec_contains(v)
                                    && ks.spec_page_range().spec_contains(v);
                            assert(v < 0x10_0000 && KERNEL_MAP_OFFSET_VPN <= v);
                            assert(false);
                        } else {
                            let j2 = j - 8;
                            assert(ms.segments@[8 + j2] == pre_segments[j]);
                            assert(ms.segments@[8 + j2].spec_page_range() == load_pages(
                                elf_loads(data@)[j2],
                            ));
                            assert(segment.spec_page_range() == load_pages(
                                elf_loads(data@)[i as int],
                            ));
                            assert(ranges_overlap(
                                load_pages(elf_loads(data@)[i as int]),
                                load_pages(elf_loads(data@)[j2]),
                            ));
                        }
                    }
                }
                return Err(msg);
            }
            proof {
                let li = loads@[i as int];
                let base = load_pair_base(loads@, i as int);
                let n = load_page_count(li);
                assert(load_pair_base(loads@, i as int + 1) == base + n);
                let padi = li.vaddr as int % PAGE_SIZE as int;
                assert(li.vaddr == (li.vaddr / PAGE_SIZE) * PAGE_SIZE + li.vaddr % PAGE_SIZE)
                    by (nonlinear_arith)
                ;
                assert(init@.len() == padi + li.file_size);
                assert(segment.spec_page_range() == load_pages(li));
                assert forall|j: int| 0 <= j <= i implies load_page_count(
                    #[trigger] loads@[j],
                ) >= 0 by {}
                assert forall|j: int, k: int|
                    #![trigger ms.allocated_pairs@[load_pair_base(elf_loads(data@), j) + k]]
                    0 <= j < i + 1 && 0 <= k < load_page_count(elf_loads(data@)[j]) implies ({
                    let l = elf_loads(data@)[j];
                    let pair = ms.allocated_pairs@[load_pair_base(elf_loads(data@), j) + k];
                    &&& pair.0.0 == load_pages(l).start.0 + k
                    &&& pair.1.spec_data().len() == PAGE_SIZE
                    &&& forall|b: int|
                        0 <= b < PAGE_SIZE ==> (#[trigger] pair.1.spec_data()[b]) == ({
                            let pos = (load_pages(l).start.0 + k) * PAGE_SIZE + b - l.vaddr;
                            if 0 <= pos < l.file_size {
                                data@[l.offset + pos]
                            } else {
                                0u8
                            }
                        })
                }) by {
                    if j < i {
                        lemma_load_pair_base_monotone(loads@, j, i as int);
                        let idx = load_pair_base(loads@, j) + k;
                        assert(idx < base);
                        assert(ms.allocated_pairs@[idx] == pre_pairs[idx]);
                    } else {
                        assert(pre_pairs.len() == base);
                        assert(segment.spec_page_range().start.0 == load_pages(li).start.0);
                        assert(segment.spec_page_range().end.0
                            - segment.spec_page_range().start.0 == n);
                        assert((ms.allocated_pairs@[pre_pairs.len() as int + k]).0.0
                            == segment.spec_page_range().start.0 + k);
                        let pair = ms.allocated_pairs@[base + k];
                        assert(pair.0.0 == load_pages(li).start.0 + k);
                        assert(pair.1.spec_data().len() == PAGE_SIZE);
                        assert forall|b: int|
                            0 <= b < PAGE_SIZE implies (#[trigger] pair.1.spec_data()[b]) == ({
                            let pos = (load_pages(li).start.0 + k) * PAGE_SIZE + b - li.vaddr;
                            if 0 <= pos < li.file_size {
                                data@[li.offset + pos]
                            } else {
                                0u8
                            }
                        }) by {
                            let s0 = load_pages(li).start.0 as int;
                            let pos = (s0 + k) * PAGE_SIZE + b - li.vaddr;
                            assert((s0 + k) * PAGE_SIZE == s0 * PAGE_SIZE + k * PAGE_SIZE)
                                by (nonlinear_arith)
                            ;
                            assert(pos == k * PAGE_SIZE + b - padi);
                            assert(pair.1.spec_data()[b] == (if k * PAGE_SIZE + b
                                < init@.len() {
                                init@[k * PAGE_SIZE + b]
                            } else {
                                0u8
                            }));
                            if k * PAGE_SIZE + b < init@.len() {
                                if k * PAGE_SIZE + b < padi {
                                    assert(init@[k * PAGE_SIZE + b] == 0u8);
                                } else {
                                    assert(init@[k * PAGE_SIZE + b] == data@[li.offset as int
                                        + (k * PAGE_SIZE + b) - padi]);
                                }
                            }
                        }
                    }
                }
            }
            i = i + 1;
        }
        Ok(ms)
    }
}

/// Translation law: for every page of a mapped segment, the hardware
/// walk from the root frame reaches a valid leaf entry carrying exactly
/// the segment's flags plus V, and for a `Linear` segment the frame the
/// kernel offset names.
pub proof fn lemma_segment_translation(ms: MemorySet, i: int, v: int)
    requires
        ms.wf(),
        0 <= i < ms.segments@.len(),
        ms.segments@[i].spec_page_range().spec_contains(v),
    ensures
        ms.mapping.walk(VirtualPageNumber(v as u64)) matches Some(e) && {
            &&& e.spec_is_valid()
            &&& e.spec_flags() == (ms.segments@[i].flags.0 | FLAG_VALID)
            &&& (ms.segments@[i].map_type == MapType::Linear ==> e.spec_ppn() == v
                - KERNEL_MAP_OFFSET_VPN)
        },
{
    let seg = ms.segments@[i];
    assert(ms.seg_mapped(seg));
    assert(seg.spec_page_range().spec_contains(v));
    let vpn = VirtualPageNumber(v as u64);
    assert(seg_in_window(seg));
    assert(vpn_in_window(v)) by {
        if !seg_in_low(seg) {
            assert(seg_in_kernel_window(seg));
        }
    }
    assert(0 <= v);
    assert(vpn.spec_index27() == vpn27(v)) by {
        assert(vpn.0 == v);
    }
    crate::mapping::lemma_walk_is_leaf_entry(ms.mapping, vpn);
    let e = ms.mapping.leaf_entry(vpn27(v))->0;
    let fb = seg.flags.0;
    assert((fb | FLAG_VALID) & FLAG_VALID == FLAG_VALID) by (bit_vector);
    assert(e.spec_is_valid()) by {
        assert(e.spec_flags() == (fb | FLAG_VALID));
        assert(e.wf() ==> e.spec_is_valid() == (e.spec_flags() & FLAG_VALID == FLAG_VALID));
    }
}

/// Two half-open page ranges overlap — share a page — exactly when the
/// larger of the starts lies below the smaller of the ends.
pub proof fn lemma_ranges_overlap_iff(a: VpnRange, b: VpnRange)
    ensures
        ranges_overlap(a, b) <==> (if a.start.0 > b.start.0 {
            a.start.0 as int
        } else {
            b.start.0 as int
        }) < (if a.end.0 < b.end.0 {
            a.end.0 as int
        } else {
            b.end.0 as int
        }),
{
    let lo: int = if a.start.0 > b.start.0 { a.start.0 as int } else { b.start.0 as int };
    let hi: int = if a.end.0 < b.end.0 { a.end.0 as int } else { b.end.0 as int };
    if lo < hi {
        assert(a.spec_contains(lo) && b.spec_contains(lo));
    }
    if ranges_overlap(a, b) {
        let v = choose|v: int| a.spec_contains(v) && b.spec_contains(v);
        assert(lo <= v < hi);
    }
}

} // verus!
