//! Threads: identity, the saved register frame, a per-thread stack, and
//! the file-descriptor table.

use vstd::prelude::*;
use crate::frame::{FrameAllocator, MemoryResult};
use crate::page_table_entry::{Flags, FLAG_READABLE, FLAG_WRITABLE};
use crate::process::{
    rounded_alloc_size, window_overlaps, Process, ProcessId, ALLOC_BASE, ALLOC_LIMIT,
    STACK_SIZE,
};
use crate::segment::{MapType, Segment, VaRange};

verus! {

/// Index of `ra` in the integer register file.
pub const REG_RA: usize = 1;

/// Index of `sp` in the integer register file.
pub const REG_SP: usize = 2;

/// Index of `a0` in the integer register file.
pub const REG_A0: usize = 10;

/// Index of `a1` in the integer register file.
pub const REG_A1: usize = 11;

/// `sstatus` bit: privilege level to return to on `sret` (SPP).
pub const SSTATUS_SPP: u64 = 0x100;

/// `sstatus` bit: interrupt-enable state restored on `sret` (SPIE).
pub const SSTATUS_SPIE: u64 = 0x20;

/// The register frame saved at a trap boundary: the integer registers
/// (index 0, `x0`, is hardwired zero and kept for layout), `sstatus`,
/// and `sepc`. The low-level trap stubs write and read this layout.
#[derive(Clone, Copy, Debug)]
pub struct Context {
    /// The integer registers `x0` to `x31`.
    pub registers: [u64; 32],
    /// The saved `sstatus`.
    pub sstatus: u64,
    /// The saved `sepc`: where `sret` continues.
    pub sepc: u64,
}

/// Build the initial register frame of a thread.
///
/// The stack pointer starts at the top of the stack range; `sepc` is
/// the entry point; `ra` points at `return_sentinel` — the kernel stub
/// that reports and exits if the thread ever returns; up to eight
/// arguments go to `a0` to `a7`; every other register starts at zero.
/// `sstatus` is the current value with SPP cleared for a user thread
/// and set for a kernel thread, and SPIE set so that `sret` into the
/// thread enables interrupts.
pub fn new_context(
    stack_top: u64,
    entry_point: u64,
    arguments: Option<&Vec<u64>>,
    is_user: bool,
    current_sstatus: u64,
    return_sentinel: u64,
) -> (r: Context)
    requires
        arguments matches Some(args) ==> args@.len() <= 8,
    ensures
        r.registers@.len() == 32,
        r.registers@[REG_SP as int] == stack_top,
        r.registers@[REG_RA as int] == return_sentinel,
        r.sepc == entry_point,
        r.sstatus == (if is_user {
            (current_sstatus & !SSTATUS_SPP) | SSTATUS_SPIE
        } else {
            (current_sstatus | SSTATUS_SPP) | SSTATUS_SPIE
        }),
        arguments matches Some(args) ==> forall|i: int|
            0 <= i < args@.len() ==> r.registers@[REG_A0 + i] == args@[i],
        forall|i: int|
            0 <= i < 32 && i != REG_SP && i != REG_RA && !(arguments matches Some(args)
                && REG_A0 <= i < REG_A0 + args@.len()) ==> r.registers@[i] == 0,
{
    let mut registers: [u64; 32] = [0; 32];
    registers[REG_SP] = stack_top;
    registers[REG_RA] = return_sentinel;
    if let Some(args) = arguments {
        let mut i: usize = 0;
        while i < args.len()
            invariant
                i <= args@.len() <= 8,
                registers@.len() == 32,
                registers@[REG_SP as int] == stack_top,
                registers@[REG_RA as int] == return_sentinel,
                forall|j: int| 0 <= j < i ==> registers@[REG_A0 + j] == args@[j],
                forall|j: int|
                    0 <= j < 32 && j != REG_SP && j != REG_RA && !(REG_A0 <= j < REG_A0 + i)
                        ==> registers@[j] == 0,
            decreases args@.len() - i,
        {
            registers[REG_A0 + i] = args[i];
            i = i + 1;
        }
    }
    let sstatus = if is_user {
        (current_sstatus & !SSTATUS_SPP) | SSTATUS_SPIE
    } else {
        (current_sstatus | SSTATUS_SPP) | SSTATUS_SPIE
    };
    Context { registers, sstatus, sepc: entry_point }
}

/// A thread identifier; assigned from one, monotonically.
#[derive(Clone, Copy, Debug, PartialEq, Eq, Structural)]
pub struct ThreadId(pub u64);

/// One open file of a thread; the index in the descriptor table is the
/// file descriptor. The console backs the standard streams; the I/O
/// itself is the filesystem collaborator's business.
#[derive(Clone, Copy, Debug, PartialEq, Eq, Structural)]
pub enum FileHandle {
    /// Standard input, preopened as descriptor 0.
    Stdin,
    /// Standard output, preopened as descriptor 1.
    Stdout,
}

/// A thread: identity, its stack range, its saved register frame, its
/// descriptors, and the process it belongs to.
pub struct Thread {
    /// The thread identifier.
    pub id: ThreadId,
    /// The virtual-address range of the thread's stack.
    pub stack: VaRange,
    /// The saved register frame; `Some` exactly while the thread is not
    /// executing on the CPU.
    pub context: Option<Context>,
    /// The open files, indexed by file descriptor.
    pub descriptors: Vec<FileHandle>,
    /// The identifier of the owning process.
    pub process_id: ProcessId,
    /// Whether the thread runs in user mode.
    pub is_user: bool,
    /// The `satp` value of the owning process's address space.
    pub satp: u64,
}

impl Thread {
    /// The thread identifier.
    pub fn thread_id(&self) -> (r: ThreadId)
        ensures
            r == self.id,
    {
        self.id
    }

    /// Create a thread of `process`.
    ///
    /// The process allocates and maps a stack; the initial frame points
    /// `sp` at the top of that stack and `sepc` at the entry point; the
    /// thread gets a fresh identifier and descriptors 0 and 1 preopened
    /// to the standard streams. The frame sits in the saved slot: the
    /// thread is not yet scheduled.
    pub fn new(
        process: &mut Process,
        entry_point: u64,
        arguments: Option<&Vec<u64>>,
        current_sstatus: u64,
        return_sentinel: u64,
        fa: &mut FrameAllocator,
        counter: &mut u64,
    ) -> (r: MemoryResult<Thread>)
        requires
            old(process).memory_set.wf(),
            old(fa).wf(),
            old(process).memory_set.mapping.frames_outside(*old(fa)),
            *old(counter) < u64::MAX,
            arguments matches Some(args) ==> args@.len() <= 8,
        ensures
            final(fa).wf(),
            final(process).is_user == old(process).is_user,
            final(process).spec_id() == old(process).spec_id(),
            r is Err ==> *final(counter) == *old(counter) && (final(fa).free_size() == 0
                || forall|k: int|
                0 <= k && ALLOC_BASE + k * STACK_SIZE + STACK_SIZE <= ALLOC_LIMIT
                    ==> #[trigger] window_overlaps(
                    old(process).memory_set,
                    ALLOC_BASE + k * STACK_SIZE,
                    STACK_SIZE as int,
                )),
            match r {
                Ok(t) => {
                    &&& final(process).memory_set.wf()
                    &&& final(process).memory_set.mapping.frames_outside(*final(fa))
                    &&& t.id.0 == *old(counter) + 1
                    &&& *final(counter) == *old(counter) + 1
                    &&& t.process_id == old(process).spec_id()
                    &&& t.is_user == old(process).is_user
                    &&& t.stack.end.0 == t.stack.start.0 + STACK_SIZE
                    &&& final(process).memory_set.segments@.len() == old(
                        process,
                    ).memory_set.segments@.len() + 1
                    &&& final(process).memory_set.segments@.last() == (Segment {
                        map_type: MapType::Framed,
                        range: VaRange { start: t.stack.start, end: t.stack.end },
                        flags: Flags(
                            (FLAG_READABLE | FLAG_WRITABLE) | (if old(process).is_user {
                                crate::page_table_entry::FLAG_USER
                            } else {
                                0u8
                            }),
                        ),
                    })
                    &&& t.context matches Some(c) && {
                        &&& c.registers@[REG_SP as int] == t.stack.end.0
                        &&& c.registers@[REG_RA as int] == return_sentinel
                        &&& c.sepc == entry_point
                        &&& c.sstatus == (if old(process).is_user {
                            (current_sstatus & !SSTATUS_SPP) | SSTATUS_SPIE
                        } else {
                            (current_sstatus | SSTATUS_SPP) | SSTATUS_SPIE
                        })
                        &&& (arguments matches Some(args) ==> forall|i: int|
                            0 <= i < args@.len() ==> c.registers@[REG_A0 + i] == args@[i])
                        &&& forall|i: int|
                            0 <= i < 32 && i != REG_SP && i != REG_RA && !(arguments
                                matches Some(args) && REG_A0 <= i < REG_A0 + args@.len())
                                ==> c.registers@[i] == 0
                    }
                    &&& t.descriptors@ == seq![FileHandle::Stdin, FileHandle::Stdout]
                    &&& t.satp == 0x8000_0000_0000_0000u64
                        + final(process).memory_set.mapping.spec_root_ppn()
                },
                Err(_) => *final(counter) == *old(counter),
            },
    {
        proof {
            assert(rounded_alloc_size(STACK_SIZE as int) == STACK_SIZE);
        }
        let stack = match process.alloc_page_range(
            STACK_SIZE,
            Flags(FLAG_READABLE | FLAG_WRITABLE),
            fa,
        ) {
            Ok(range) => range,
            Err(msg) => {
                return Err(msg);
            },
        };
        let context = new_context(
            stack.end.0,
            entry_point,
            arguments,
            process.is_user,
            current_sstatus,
            return_sentinel,
        );
        *counter = *counter + 1;
        let id = ThreadId(*counter);
        let mut descriptors: Vec<FileHandle> = Vec::new();
        descriptors.push(FileHandle::Stdin);
        descriptors.push(FileHandle::Stdout);
        let satp = process.memory_set.activate();
        let t = Thread {
            id,
            stack,
            context: Some(context),
            descriptors,
            process_id: process.process_id(),
            is_user: process.is_user,
            satp,
        };
        proof {
            assert(t.descriptors@ =~= seq![FileHandle::Stdin, FileHandle::Stdout]);
        }
        Ok(t)
    }

    /// Take the saved frame out to run the thread; the slot is empty
    /// exactly while it executes.
    pub fn prepare(&mut self) -> (r: Context)
        requires
            old(self).context is Some,
        ensures
            Some(r) == old(self).context,
            final(self).context is None,
            final(self).id == old(self).id,
            final(self).stack == old(self).stack,
            final(self).descriptors == old(self).descriptors,
            final(self).process_id == old(self).process_id,
            final(self).is_user == old(self).is_user,
            final(self).satp == old(self).satp,
    {
        let c = self.context.unwrap();
        self.context = None;
        c
    }

    /// Put the frame of a paused thread back into the slot, which must
    /// be empty.
    pub fn park(&mut self, context: Context)
        requires
            old(self).context is None,
        ensures
            final(self).context == Some(context),
            final(self).id == old(self).id,
            final(self).stack == old(self).stack,
            final(self).descriptors == old(self).descriptors,
            final(self).process_id == old(self).process_id,
            final(self).is_user == old(self).is_user,
            final(self).satp == old(self).satp,
    {
        self.context = Some(context);
    }
}

} // verus!
