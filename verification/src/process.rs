//! Processes: identity plus an address space shared by the process's
//! threads.

use vstd::prelude::*;
use crate::addr::{VirtualAddress, PAGE_SIZE};
use crate::elf::elf_loads;
use crate::frame::{FrameAllocator, MemoryResult};
use crate::memory_set::{
    elf_load_ok, kernel_segment, load_page_count, load_pair_base, load_pages, seg_in_low,
    seg_in_window, spec_elf_flags, KernelLayout, MemorySet, LOW_VPN_LIMIT,
};
use crate::page_table_entry::{Flags, FLAG_USER};
use crate::segment::{ranges_overlap, MapType, Segment, VaRange, VpnRange};
use crate::addr::VirtualPageNumber;

verus! {

/// Stack size of every thread: 512 KiB.
pub const STACK_SIZE: u64 = 0x8_0000;

/// Size of the shared kernel stack: 512 KiB.
pub const KERNEL_STACK_SIZE: u64 = 0x8_0000;

/// First virtual address tried when a process allocates a page range.
pub const ALLOC_BASE: u64 = 0x100_0000;

/// Last virtual address usable for allocated page ranges: the pages must
/// stay below the wrap-around window.
pub const ALLOC_LIMIT: u64 = 0x7F0_0000 * 4096;

/// The page-rounded length that a request of `size` bytes occupies.
pub open spec fn rounded_alloc_size(size: int) -> int {
    (size + 4095) / 4096 * 4096
}

/// The pages of a candidate allocation window of `a` bytes at `base`.
pub open spec fn window_pages(base: int, a: int) -> VpnRange {
    VpnRange {
        start: VirtualPageNumber((base / 4096) as u64),
        end: VirtualPageNumber(
            ((base + a) / 4096 + if (base + a) % 4096 == 0 { 0int } else { 1int }) as u64,
        ),
    }
}

/// Whether the window of `a` bytes at `base` overlaps a mapped segment.
pub open spec fn window_overlaps(ms: MemorySet, base: int, a: int) -> bool {
    exists|i: int|
        0 <= i < ms.segments@.len() && ranges_overlap(
            window_pages(base, a),
            (#[trigger] ms.segments@[i]).spec_page_range(),
        )
}

/// A process identifier; assigned from zero, monotonically.
#[derive(Clone, Copy, Debug, PartialEq, Eq, Structural)]
pub struct ProcessId(pub u32);

/// Draw the next process identifier from the counter.
pub fn next_process_id(counter: &mut u32) -> (r: ProcessId)
    requires
        *old(counter) < u32::MAX,
    ensures
        r.0 == *old(counter),
        *final(counter) == *old(counter) + 1,
{
    let id = ProcessId(*counter);
    *counter = *counter + 1;
    id
}

/// A process: whether its threads run in user mode, its address space,
/// and its identifier.
pub struct Process {
    /// Whether the process's threads run in user mode.
    pub is_user: bool,
    /// The address space shared by the process's threads.
    pub memory_set: MemorySet,
    /// The process identifier.
    pub id: ProcessId,
}

impl Process {
    /// The process identifier.
    pub open spec fn spec_id(&self) -> ProcessId {
        self.id
    }

    /// The process identifier.
    pub fn process_id(&self) -> (r: ProcessId)
        ensures
            r == self.spec_id(),
    {
        self.id
    }

    /// A kernel process: supervisor mode, over the kernel address space.
    /// Failure means the frames ran out.
    pub fn new_kernel(layout: &KernelLayout, fa: &mut FrameAllocator, counter: &mut u32) -> (r:
        MemoryResult<Process>)
        requires
            old(fa).wf(),
            layout.wf(),
            *old(counter) < u32::MAX,
        ensures
            final(fa).wf(),
            final(fa).spec_start() == old(fa).spec_start(),
            final(fa).spec_end() == old(fa).spec_end(),
            forall|p: int| final(fa).is_free(p) ==> old(fa).is_free(p),
            match r {
                Ok(p) => {
                    &&& !p.is_user
                    &&& p.memory_set.wf()
                    &&& p.memory_set.mapping.frames_outside(*final(fa))
                    &&& p.memory_set.segments@.len() == 8
                    &&& forall|i: int|
                        0 <= i < 8 ==> #[trigger] p.memory_set.segments@[i]
                            == kernel_segment(*layout, i)
                    &&& p.memory_set.allocated_pairs@.len() == 0
                    &&& p.spec_id().0 == *old(counter)
                    &&& *final(counter) == *old(counter) + 1
                },
                Err(_) => *final(counter) == *old(counter) && final(fa).free_size() == 0,
            },
    {
        let memory_set = match MemorySet::new_kernel(layout, fa) {
            Ok(ms) => ms,
            Err(msg) => {
                return Err(msg);
            },
        };
        let id = next_process_id(counter);
        Ok(Process { is_user: false, memory_set, id })
    }

    /// A process loaded from an ELF image, over the address space
    /// `MemorySet::from_elf` builds: the kernel half, then one `Framed`
    /// segment per loadable program header, its frames holding the
    /// header's bytes zero-filled past `file_size`. Failure means the
    /// frames ran out, the image is wild or does not parse, a load
    /// leaves the user window or the image, or two loads collide.
    pub fn from_elf(
        data: &Vec<u8>,
        is_user: bool,
        layout: &KernelLayout,
        fa: &mut FrameAllocator,
        counter: &mut u32,
    ) -> (r: MemoryResult<Process>)
        requires
            old(fa).wf(),
            layout.wf(),
            *old(counter) < u32::MAX,
        ensures
            final(fa).wf(),
            final(fa).spec_start() == old(fa).spec_start(),
            final(fa).spec_end() == old(fa).spec_end(),
            forall|p: int| final(fa).is_free(p) ==> old(fa).is_free(p),
            r is Err ==> *final(counter) == *old(counter) && {
                ||| final(fa).free_size() == 0
                ||| !crate::elf::elf_image_tame(data@)
                ||| !crate::elf::elf_parses(data@)
                ||| exists|i: int|
                    0 <= i < elf_loads(data@).len() && !elf_load_ok(
                        #[trigger] elf_loads(data@)[i],
                        data@.len() as int,
                    )
                ||| exists|i: int, j: int|
                    #![trigger elf_loads(data@)[i], elf_loads(data@)[j]]
                    0 <= j < i < elf_loads(data@).len() && ranges_overlap(
                        load_pages(elf_loads(data@)[i]),
                        load_pages(elf_loads(data@)[j]),
                    )
            },
            r matches Ok(p) ==> {
                &&& p.is_user == is_user
                &&& p.memory_set.wf()
                &&& p.memory_set.mapping.frames_outside(*final(fa))
                &&& p.memory_set.segments@.len() == 8 + elf_loads(data@).len()
                &&& forall|i: int|
                    0 <= i < 8 ==> #[trigger] p.memory_set.segments@[i] == kernel_segment(
                        *layout,
                        i,
                    )
                &&& forall|i: int|
                    0 <= i < elf_loads(data@).len() ==> {
                        let l = elf_loads(data@)[i];
                        let seg = #[trigger] p.memory_set.segments@[8 + i];
                        &&& seg.map_type == MapType::Framed
                        &&& seg.range.start.0 == l.vaddr
                        &&& seg.range.end.0 == l.vaddr + l.mem_size
                        &&& seg.flags.0 == spec_elf_flags(l, is_user)
                    }
                &&& p.memory_set.allocated_pairs@.len() == load_pair_base(
                    elf_loads(data@),
                    elf_loads(data@).len() as int,
                )
                &&& forall|i: int, k: int|
                    #![trigger p.memory_set.allocated_pairs@[load_pair_base(elf_loads(data@), i) + k]]
                    0 <= i < elf_loads(data@).len() && 0 <= k < load_page_count(
                        elf_loads(data@)[i],
                    ) ==> {
                        let l = elf_loads(data@)[i];
                        let pair = p.memory_set.allocated_pairs@[load_pair_base(
                            elf_loads(data@),
                            i,
                        ) + k];
                        &&& pair.0.0 == load_pages(l).start.0 + k
                        &&& pair.1.spec_data().len() == crate::addr::PAGE_SIZE
                        &&& forall|b: int|
                            0 <= b < crate::addr::PAGE_SIZE ==> (#[trigger] pair.1.spec_data()[
                                b
                            ]) == ({
                                let pos = (load_pages(l).start.0 + k) * crate::addr::PAGE_SIZE
                                    + b - l.vaddr;
                                if 0 <= pos < l.file_size {
                                    data@[l.offset + pos]
                                } else {
                                    0u8
                                }
                            })
                    }
                &&& p.spec_id().0 == *old(counter)
                &&& *final(counter) == *old(counter) + 1
            },
    {
        let memory_set = match MemorySet::from_elf(data, is_user, layout, fa) {
            Ok(ms) => ms,
            Err(msg) => {
                return Err(msg);
            },
        };
        let id = next_process_id(counter);
        Ok(Process { is_user, memory_set, id })
    }

    /// Allocate a fresh range of virtual memory, `size` bytes long.
    ///
    /// The size is rounded up to pages; candidate windows start at
    /// `ALLOC_BASE` and step by the rounded size until one does not
    /// overlap the mapped segments. The window is mapped as a `Framed`
    /// segment with the given flags plus U for a user process, and the
    /// range returned covers exactly the `size` bytes asked for. A
    /// zero-byte request degenerates to an empty segment at the base
    /// address, covering no page.
    #[verifier::loop_isolation(false)]
    pub fn alloc_page_range(&mut self, size: u64, flags: Flags, fa: &mut FrameAllocator) -> (r:
        MemoryResult<VaRange>)
        requires
            old(self).memory_set.wf(),
            old(fa).wf(),
            old(self).memory_set.mapping.frames_outside(*old(fa)),
            size <= ALLOC_LIMIT,
        ensures
            final(fa).wf(),
            final(fa).spec_start() == old(fa).spec_start(),
            final(fa).spec_end() == old(fa).spec_end(),
            forall|p: int| final(fa).is_free(p) ==> old(fa).is_free(p),
            final(self).is_user == old(self).is_user,
            final(self).spec_id() == old(self).spec_id(),
            match r {
                Ok(range) => {
                    &&& final(self).memory_set.wf()
                    &&& final(self).memory_set.mapping.frames_outside(*final(fa))
                    &&& range.end.0 == range.start.0 + size
                    &&& ALLOC_BASE <= range.start.0
                    &&& final(self).memory_set.segments@.len() == old(
                        self,
                    ).memory_set.segments@.len() + 1
                    &&& ({
                        let seg = final(self).memory_set.segments@.last();
                        &&& seg.map_type == MapType::Framed
                        &&& seg.range.start == range.start
                        &&& seg.range.end.0 == range.start.0 + rounded_alloc_size(size as int)
                        &&& seg.flags.0 == (flags.0 | (if old(self).is_user {
                            FLAG_USER
                        } else {
                            0u8
                        }))
                    })
                    &&& range.start.0 % PAGE_SIZE == 0
                    &&& (size > 0 ==> (range.start.0 - ALLOC_BASE) % rounded_alloc_size(
                        size as int,
                    ) == 0)
                    &&& (size == 0 ==> range.start.0 == ALLOC_BASE)
                    &&& !window_overlaps(
                        old(self).memory_set,
                        range.start.0 as int,
                        rounded_alloc_size(size as int),
                    )
                    &&& forall|k: int|
                        0 <= k && ALLOC_BASE + k * rounded_alloc_size(size as int)
                            < range.start.0 ==> #[trigger] window_overlaps(
                            old(self).memory_set,
                            ALLOC_BASE + k * rounded_alloc_size(size as int),
                            rounded_alloc_size(size as int),
                        )
                },
                Err(_) => final(fa).free_size() == 0 || forall|k: int|
                    0 <= k && ALLOC_BASE + k * rounded_alloc_size(size as int)
                        + rounded_alloc_size(size as int) <= ALLOC_LIMIT
                        ==> #[trigger] window_overlaps(
                        old(self).memory_set,
                        ALLOC_BASE + k * rounded_alloc_size(size as int),
                        rounded_alloc_size(size as int),
                    ),
            },
    {
        if size == 0 {
            let segment = Segment {
                map_type: MapType::Framed,
                range: VaRange {
                    start: VirtualAddress(ALLOC_BASE),
                    end: VirtualAddress(ALLOC_BASE),
                },
                flags: flags.or(Flags::user(self.is_user)),
            };
            proof {
                assert(seg_in_low(segment));
                assert(seg_in_window(segment));
                assert(rounded_alloc_size(0) == 0);
            }
            let res = self.memory_set.add_segment(segment, None, fa);
            match res {
                Ok(_) => {
                    proof {
                        let pr = segment.spec_page_range();
                        assert(pr.start.0 == pr.end.0);
                        assert(window_pages(ALLOC_BASE as int, 0) == pr);
                        assert(!window_overlaps(old(self).memory_set, ALLOC_BASE as int, 0))
                            by {
                            if window_overlaps(old(self).memory_set, ALLOC_BASE as int, 0) {
                                let i = choose|i: int|
                                    0 <= i < old(self).memory_set.segments@.len()
                                        && ranges_overlap(
                                        window_pages(ALLOC_BASE as int, 0),
                                        (#[trigger] old(self).memory_set.segments@[
                                            i
                                        ]).spec_page_range(),
                                    );
                                let v = choose|v: int|
                                    window_pages(ALLOC_BASE as int, 0).spec_contains(v) && old(
                                        self,
                                    ).memory_set.segments@[i].spec_page_range().spec_contains(
                                        v,
                                    );
                            }
                        }
                    }
                    return Ok(
                        VaRange {
                            start: VirtualAddress(ALLOC_BASE),
                            end: VirtualAddress(ALLOC_BASE),
                        },
                    );
                },
                Err(msg) => {
                    proof {
                        assert forall|i: int|
                            0 <= i < old(self).memory_set.segments@.len() implies !ranges_overlap(
                            segment.spec_page_range(),
                            (#[trigger] old(self).memory_set.segments@[i]).spec_page_range(),
                        ) by {
                            if ranges_overlap(
                                segment.spec_page_range(),
                                old(self).memory_set.segments@[i].spec_page_range(),
                            ) {
                                let v = choose|v: int|
                                    segment.spec_page_range().spec_contains(v) && old(
                                        self,
                                    ).memory_set.segments@[i].spec_page_range().spec_contains(
                                        v,
                                    );
                            }
                        }
                    }
                    return Err(msg);
                },
            }
        }
        let alloc_size = (size + PAGE_SIZE - 1) / PAGE_SIZE * PAGE_SIZE;
        proof {
            let sz = size as int;
            let a = alloc_size as int;
            assert(sz <= a < sz + 4096 && a % 4096 == 0 && a <= 0x7F0_0000 * 4096)
                by (nonlinear_arith)
                requires
                    a == (sz + 4095) / 4096 * 4096,
                    0 < sz <= 0x7F0_0000 * 4096,
            ;
        }
        let mut start: u64 = ALLOC_BASE;
        let ghost mut tried: int = 0;
        loop
            invariant
                self.memory_set.wf(),
                fa.wf(),
                self.memory_set.mapping.frames_outside(*fa),
                fa.spec_start() == old(fa).spec_start(),
                fa.spec_end() == old(fa).spec_end(),
                forall|p: int| fa.is_free(p) ==> old(fa).is_free(p),
                *self == *old(self),
                ALLOC_BASE <= start <= ALLOC_LIMIT,
                size <= alloc_size < size + PAGE_SIZE,
                alloc_size % PAGE_SIZE == 0,
                alloc_size <= ALLOC_LIMIT,
                alloc_size == rounded_alloc_size(size as int),
                tried >= 0,
                start == ALLOC_BASE + tried * alloc_size,
                forall|k: int|
                    0 <= k < tried ==> #[trigger] window_overlaps(
                        old(self).memory_set,
                        ALLOC_BASE + k * alloc_size,
                        alloc_size as int,
                    ),
            decreases ALLOC_LIMIT - start,
        {
            if start > ALLOC_LIMIT - alloc_size {
                proof {
                    assert forall|k: int|
                        0 <= k && ALLOC_BASE + k * rounded_alloc_size(size as int)
                            + rounded_alloc_size(size as int)
                            <= ALLOC_LIMIT implies #[trigger] window_overlaps(
                        old(self).memory_set,
                        ALLOC_BASE + k * rounded_alloc_size(size as int),
                        rounded_alloc_size(size as int),
                    ) by {
                        let a = alloc_size as int;
                        if k >= tried {
                            assert(k * a >= tried * a) by (nonlinear_arith)
                                requires k >= tried, a > 0,
                            ;
                            assert(false);
                        }
                    }
                }
                return Err("out of virtual space");
            }
            let range = VaRange {
                start: VirtualAddress(start),
                end: VirtualAddress(start + alloc_size),
            };
            let user_flag = Flags::user(self.is_user);
            let segment = Segment { map_type: MapType::Framed, range, flags: flags.or(user_flag) };
            let pr = segment.page_range();
            proof {
                assert(pr == window_pages(start as int, alloc_size as int));
            }
            if !self.memory_set.overlap_with(pr) {
                proof {
                    assert forall|k: int|
                        0 <= k && ALLOC_BASE + k * rounded_alloc_size(size as int)
                            < start implies #[trigger] window_overlaps(
                        old(self).memory_set,
                        ALLOC_BASE + k * rounded_alloc_size(size as int),
                        rounded_alloc_size(size as int),
                    ) by {
                        let a = alloc_size as int;
                        if k >= tried {
                            assert(k * a >= tried * a) by (nonlinear_arith)
                                requires k >= tried, a > 0,
                            ;
                            assert(false);
                        }
                    }
                    assert(pr.end.0 <= LOW_VPN_LIMIT) by (nonlinear_arith)
                        requires
                            pr.end.0 as int == (start + alloc_size) / (PAGE_SIZE as int) + (
                            if (start + alloc_size) % (PAGE_SIZE as int) == 0 {
                                0int
                            } else {
                                1int
                            }),
                            start + alloc_size <= ALLOC_LIMIT,
                            ALLOC_LIMIT == LOW_VPN_LIMIT * 4096,
                            PAGE_SIZE == 4096,
                    ;
                    assert(seg_in_low(segment));
                    assert(seg_in_window(segment));
                }
                let res = self.memory_set.add_segment(segment, None, fa);
                match res {
                    Ok(_) => {
                        proof {
                            let a = alloc_size as int;
                            let q = a / 4096;
                            assert(a == q * 4096 && q >= 0) by (nonlinear_arith)
                                requires a % 4096 == 0, q == a / 4096, a > 0,
                            ;
                            assert(start as int == (0x1000 + tried * q) * 4096)
                                by (nonlinear_arith)
                                requires
                                    start == 0x1000 * 4096 + tried * a,
                                    a == q * 4096,
                            ;
                            assert(start % PAGE_SIZE == 0) by (nonlinear_arith)
                                requires
                                    start as int == (0x1000 + tried * q) * 4096,
                                    0 <= start,
                                    PAGE_SIZE == 4096,
                            ;
                            assert((start - ALLOC_BASE) % a == 0) by (nonlinear_arith)
                                requires
                                    start == ALLOC_BASE + tried * a,
                                    a > 0,
                                    tried >= 0,
                            ;
                        }
                        return Ok(
                            VaRange {
                                start: VirtualAddress(start),
                                end: VirtualAddress(start + size),
                            },
                        );
                    },
                    Err(msg) => {
                        return Err(msg);
                    },
                }
            }
            proof {
                assert(window_overlaps(self.memory_set, start as int, alloc_size as int));
                assert((tried + 1) * alloc_size == tried * alloc_size + alloc_size)
                    by (nonlinear_arith)
                ;
                tried = tried + 1;
            }
            start = start + alloc_size;
        }
    }
}

} // verus!
