//! Address arithmetic, the frame allocator, the Sv39 mapping, and the
//! address-space constructors, exercised on concrete values.

use spicy_os::addr::{PhysicalAddress, PhysicalPageNumber, VirtualAddress, VirtualPageNumber};
use spicy_os::addr::{KERNEL_MAP_OFFSET, KERNEL_MAP_OFFSET_VPN, MEMORY_END_ADDRESS, PAGE_SIZE};
use spicy_os::frame::FrameAllocator;
use spicy_os::mapping::{page_slice, Mapping};
use spicy_os::memory_set::{KernelLayout, MemorySet};
use spicy_os::page_table_entry::{
    Flags, PageTableEntry, FLAG_EXECUTABLE, FLAG_READABLE, FLAG_USER, FLAG_VALID, FLAG_WRITABLE,
};
use spicy_os::process::{Process, ALLOC_BASE, STACK_SIZE};
use spicy_os::segment::{MapType, Segment, VaRange, VpnRange};

fn small_allocator() -> FrameAllocator {
    FrameAllocator::new(PhysicalPageNumber(0x80000), PhysicalPageNumber(0x80400))
}

fn kernel_layout() -> KernelLayout {
    let s = |pa: u64| VirtualAddress(KERNEL_MAP_OFFSET + pa);
    KernelLayout {
        text_start: s(0x8020_0000),
        text_end: s(0x8020_4000),
        rodata_start: s(0x8020_4000),
        rodata_end: s(0x8020_6000),
        data_start: s(0x8020_6000),
        data_end: s(0x8020_8000),
        bss_start: s(0x8020_8000),
        bss_end: s(0x8020_a000),
        heap_start: s(0x8020_a000),
        heap_end: s(0x8120_a000),
        stack_start: s(0x8120_a000),
        stack_end: s(0x8128_a000),
    }
}

#[test]
fn page_number_floor_and_ceil() {
    assert_eq!(PhysicalPageNumber::floor(PhysicalAddress(0)).0, 0);
    assert_eq!(PhysicalPageNumber::ceil(PhysicalAddress(0)).0, 0);
    assert_eq!(PhysicalPageNumber::floor(PhysicalAddress(4095)).0, 0);
    assert_eq!(PhysicalPageNumber::ceil(PhysicalAddress(4095)).0, 1);
    assert_eq!(PhysicalPageNumber::floor(PhysicalAddress(4096)).0, 1);
    assert_eq!(PhysicalPageNumber::ceil(PhysicalAddress(4096)).0, 1);
    let a = 0x8020_1234u64;
    let floor = PhysicalPageNumber::floor(PhysicalAddress(a)).0;
    let ceil = PhysicalPageNumber::ceil(PhysicalAddress(a)).0;
    assert!(floor * PAGE_SIZE <= a && a <= ceil * PAGE_SIZE);
    assert_eq!(ceil - floor, 1);
}

#[test]
fn page_table_entry_round_trip() {
    let ppn = PhysicalPageNumber(0x80123);
    let flags = Flags(FLAG_READABLE | FLAG_WRITABLE | FLAG_VALID);
    let e = PageTableEntry::new(ppn, flags);
    assert_eq!(e.ppn().0, 0x80123);
    assert_eq!(e.flags().0, FLAG_READABLE | FLAG_WRITABLE | FLAG_VALID);
    assert!(e.is_valid());
    assert!(e.is_leaf());
    let empty = PageTableEntry::empty();
    assert!(!empty.is_valid());
}

#[test]
fn flag_builders() {
    assert_eq!(Flags::user(true).0, FLAG_USER);
    assert_eq!(Flags::user(false).0, 0);
    let f = Flags::readable(true).or(Flags::writable(true)).or(Flags::executable(false));
    assert_eq!(f.0, FLAG_READABLE | FLAG_WRITABLE);
    assert!(f.has(FLAG_READABLE));
    assert!(!f.has(FLAG_EXECUTABLE));
}

#[test]
fn frame_allocator_alloc_dealloc() {
    let mut fa = FrameAllocator::new(PhysicalPageNumber(0x80000), PhysicalPageNumber(0x80004));
    let f0 = fa.allocate().unwrap();
    let f1 = fa.allocate().unwrap();
    assert!(f0.ppn().0 != f1.ppn().0);
    assert!(f0.ppn().0 >= 0x80000 && f0.ppn().0 < 0x80004);
    assert!(f1.ppn().0 >= 0x80000 && f1.ppn().0 < 0x80004);
    assert_eq!(f0.address().0, f0.ppn().0 * PAGE_SIZE);
    let p0 = f0.ppn().0;
    fa.deallocate(f0);
    let f2 = fa.allocate().unwrap();
    assert_eq!(f2.ppn().0, p0);
    let _f3 = fa.allocate().unwrap();
    let _f4 = fa.allocate().unwrap();
    assert!(fa.allocate().is_err());
}

#[test]
fn frame_allocator_capacity_restored() {
    let mut fa = FrameAllocator::new(PhysicalPageNumber(10), PhysicalPageNumber(14));
    let a = fa.allocate().unwrap();
    let b = fa.allocate().unwrap();
    let c = fa.allocate().unwrap();
    let d = fa.allocate().unwrap();
    assert!(fa.allocate().is_err());
    fa.deallocate(a);
    fa.deallocate(b);
    fa.deallocate(c);
    fa.deallocate(d);
    let mut again = Vec::new();
    for _ in 0..4 {
        again.push(fa.allocate().unwrap());
    }
    assert!(fa.allocate().is_err());
}

#[test]
fn page_slice_zero_fills_tail() {
    let data = vec![7u8; 10];
    let first = page_slice(&data, 0);
    assert_eq!(first.len(), PAGE_SIZE as usize);
    assert_eq!(first[9], 7);
    assert_eq!(first[10], 0);
    let second = page_slice(&data, 1);
    assert!(second.iter().all(|b| *b == 0));
}

#[test]
fn mapping_maps_and_translates() {
    let mut fa = small_allocator();
    let mut m = Mapping::new(&mut fa).unwrap();
    let vpn = VirtualPageNumber(0x1234);
    assert!(m.translate(vpn).is_none());
    let target = PhysicalPageNumber(0x83210);
    m.map_one(vpn, target, Flags(FLAG_READABLE | FLAG_WRITABLE), &mut fa).unwrap();
    let (ppn, flags) = m.translate(vpn).unwrap();
    assert_eq!(ppn.0, 0x83210);
    assert_eq!(flags.0, FLAG_READABLE | FLAG_WRITABLE | FLAG_VALID);
    assert!(m.translate(VirtualPageNumber(0x1235)).is_none());
    let satp = m.satp_value();
    assert_eq!(satp, 0x8000_0000_0000_0000 + m.root_ppn().0);
}

#[test]
fn mapping_find_entry_is_idempotent() {
    let mut fa = small_allocator();
    let mut m = Mapping::new(&mut fa).unwrap();
    let vpn = VirtualPageNumber(0x4321);
    m.find_entry(vpn, &mut fa).unwrap();
    // Root plus two intermediate tables were allocated, in order.
    let f0 = fa.allocate().unwrap();
    assert_eq!(f0.ppn().0, 0x80003);
    fa.deallocate(f0);
    // A second walk for the same page allocates nothing.
    m.find_entry(vpn, &mut fa).unwrap();
    let f1 = fa.allocate().unwrap();
    assert_eq!(f1.ppn().0, 0x80003);
}

#[test]
fn overlap_with_is_exact() {
    let mut fa = small_allocator();
    let mut ms = MemorySet::new_empty(&mut fa).unwrap();
    let seg = Segment {
        map_type: MapType::Framed,
        range: VaRange { start: VirtualAddress(0x10000), end: VirtualAddress(0x13000) },
        flags: Flags(FLAG_READABLE),
    };
    ms.add_segment(seg, None, &mut fa).unwrap();
    // Overlap iff max(start) < min(end), on page numbers.
    let touching = VpnRange { start: VirtualPageNumber(0x13), end: VirtualPageNumber(0x20) };
    assert!(!ms.overlap_with(touching));
    let inside = VpnRange { start: VirtualPageNumber(0x11), end: VirtualPageNumber(0x12) };
    assert!(ms.overlap_with(inside));
    let across = VpnRange { start: VirtualPageNumber(0x0), end: VirtualPageNumber(0x11) };
    assert!(ms.overlap_with(across));
    let below = VpnRange { start: VirtualPageNumber(0x0), end: VirtualPageNumber(0x10) };
    assert!(!ms.overlap_with(below));
}

#[test]
fn add_segment_rejects_overlap() {
    let mut fa = small_allocator();
    let mut ms = MemorySet::new_empty(&mut fa).unwrap();
    let seg = Segment {
        map_type: MapType::Framed,
        range: VaRange { start: VirtualAddress(0x10000), end: VirtualAddress(0x12000) },
        flags: Flags(FLAG_READABLE),
    };
    ms.add_segment(seg, None, &mut fa).unwrap();
    let clash = Segment {
        map_type: MapType::Framed,
        range: VaRange { start: VirtualAddress(0x11000), end: VirtualAddress(0x14000) },
        flags: Flags(FLAG_READABLE),
    };
    assert!(ms.add_segment(clash, None, &mut fa).is_err());
    assert_eq!(ms.segments.len(), 1);
}

#[test]
fn new_kernel_builds_eight_linear_segments() {
    let mut fa = small_allocator();
    let layout = kernel_layout();
    let ms = MemorySet::new_kernel(&layout, &mut fa).unwrap();
    assert_eq!(ms.segments.len(), 8);
    for seg in ms.segments.iter() {
        assert_eq!(seg.map_type, MapType::Linear);
        assert_eq!(seg.flags.0 & FLAG_USER, 0);
    }
    assert_eq!(ms.segments[1].flags.0, FLAG_READABLE | FLAG_EXECUTABLE);
    assert_eq!(ms.segments[2].flags.0, FLAG_READABLE);
    assert_eq!(ms.segments[3].flags.0, FLAG_READABLE | FLAG_WRITABLE);
    assert_eq!(ms.segments[7].range.end.0, KERNEL_MAP_OFFSET + MEMORY_END_ADDRESS);
    assert!(ms.allocated_pairs.is_empty());
    // A kernel text page translates linearly.
    let vpn = VirtualPageNumber((KERNEL_MAP_OFFSET + 0x8020_0000) / PAGE_SIZE);
    let (ppn, flags) = ms.mapping.translate(vpn).unwrap();
    assert_eq!(ppn.0, vpn.0 - KERNEL_MAP_OFFSET_VPN);
    assert_eq!(flags.0, FLAG_READABLE | FLAG_EXECUTABLE | FLAG_VALID);
}

#[test]
fn alloc_page_range_steps_over_taken_windows() {
    let mut fa = small_allocator();
    let layout = kernel_layout();
    let mut counter: u32 = 0;
    let mut p = Process::new_kernel(&layout, &mut fa, &mut counter).unwrap();
    assert_eq!(p.process_id().0, 0);
    assert_eq!(counter, 1);
    let r1 = p.alloc_page_range(STACK_SIZE, Flags(FLAG_READABLE | FLAG_WRITABLE), &mut fa)
        .unwrap();
    assert_eq!(r1.start.0, ALLOC_BASE);
    assert_eq!(r1.end.0, ALLOC_BASE + STACK_SIZE);
    let r2 = p.alloc_page_range(STACK_SIZE, Flags(FLAG_READABLE | FLAG_WRITABLE), &mut fa)
        .unwrap();
    assert_eq!(r2.start.0, ALLOC_BASE + STACK_SIZE);
    // Kernel process stacks carry no user bit.
    let seg = ms_last(&p);
    assert_eq!(seg.flags.0, FLAG_READABLE | FLAG_WRITABLE);
}

fn ms_last(p: &Process) -> Segment {
    p.memory_set.segments[p.memory_set.segments.len() - 1]
}
