//! The supervisor-call surface: stable numbering, decode, the
//! per-function semantics, and how a result lands back in the caller's
//! registers and in the processor.
//!
//! The filesystem collaborator performs the actual I/O; the boot code
//! hands its outcome in as a plain value and every decision made of it
//! is verified here.

use vstd::prelude::*;
use crate::processor::{NextThread, Processor};
use crate::thread::{Context, Thread, REG_A0, REG_A1};

verus! {

/// Module number of the process syscalls.
pub const MODULE_PROCESS: u64 = 0x2333_6666;

/// Module number of the filesystem syscalls.
pub const MODULE_FS: u64 = 0xF011_4514;

/// Function number of `process_exit`.
pub const FUNCTION_PROCESS_EXIT: u64 = 0x9999_8888;

/// Function number of `process_get_id`.
pub const FUNCTION_PROCESS_GET_ID: u64 = 0x7777_6666;

/// Function number of `fs_read`.
pub const FUNCTION_FS_READ: u64 = 0x1000_2000;

/// Function number of `fs_write`.
pub const FUNCTION_FS_WRITE: u64 = 0x3000_4000;

/// What a syscall decided.
#[derive(Clone, Copy, Debug, PartialEq, Eq, Structural)]
pub enum SyscallResult {
    /// Continue the calling thread, with a return value for `a0`.
    Proceed(i64),
    /// Continue the calling thread, with values for `a0` and `a1`.
    ProceedTwo(i64, i64),
    /// Record the return value, save the frame, and run someone else.
    Park(i64),
    /// Record two values, save the frame, and run someone else.
    ParkTwo(i64, i64),
    /// Discard the calling thread and run someone else.
    Kill,
}

/// A decoded syscall request.
#[derive(Clone, Copy, Debug, PartialEq, Eq, Structural)]
pub enum SyscallRequest {
    /// Terminate the calling process, with an exit code.
    ProcessExit(u64),
    /// Ask for the calling process's identifier.
    ProcessGetId,
    /// Read `len` bytes into `buf` from descriptor `fd`.
    FsRead { fd: u64, buf: u64, len: u64 },
    /// Write `len` bytes from `buf` to descriptor `fd`.
    FsWrite { fd: u64, buf: u64, len: u64 },
}

/// Whether the registers of `ctx` carry a syscall this kernel knows.
pub open spec fn known_syscall(ctx: Context) -> bool {
    ||| (ctx.registers@[REG_A0 as int] == MODULE_PROCESS && (ctx.registers@[REG_A1 as int]
        == FUNCTION_PROCESS_EXIT || ctx.registers@[REG_A1 as int] == FUNCTION_PROCESS_GET_ID))
    ||| (ctx.registers@[REG_A0 as int] == MODULE_FS && (ctx.registers@[REG_A1 as int]
        == FUNCTION_FS_READ || ctx.registers@[REG_A1 as int] == FUNCTION_FS_WRITE))
}

/// Decode the syscall in the caller's registers: `a0` carries the
/// module, `a1` the function, `a2` to `a6` the arguments. An unknown
/// number halts the kernel, so it is excluded here.
pub fn syscall_decode(ctx: &Context) -> (r: SyscallRequest)
    requires
        known_syscall(*ctx),
    ensures
        ctx.registers@[REG_A1 as int] == FUNCTION_PROCESS_EXIT && ctx.registers@[REG_A0 as int]
            == MODULE_PROCESS ==> r == SyscallRequest::ProcessExit(ctx.registers@[12]),
        ctx.registers@[REG_A1 as int] == FUNCTION_PROCESS_GET_ID && ctx.registers@[
            REG_A0 as int
        ] == MODULE_PROCESS ==> r == SyscallRequest::ProcessGetId,
        ctx.registers@[REG_A0 as int] == MODULE_FS && ctx.registers@[REG_A1 as int]
            == FUNCTION_FS_READ ==> r == (SyscallRequest::FsRead {
            fd: ctx.registers@[12],
            buf: ctx.registers@[13],
            len: ctx.registers@[14],
        }),
        ctx.registers@[REG_A0 as int] == MODULE_FS && ctx.registers@[REG_A1 as int]
            == FUNCTION_FS_WRITE ==> r == (SyscallRequest::FsWrite {
            fd: ctx.registers@[12],
            buf: ctx.registers@[13],
            len: ctx.registers@[14],
        }),
{
    let module = ctx.registers[REG_A0];
    let function = ctx.registers[REG_A1];
    if module == MODULE_PROCESS {
        if function == FUNCTION_PROCESS_EXIT {
            SyscallRequest::ProcessExit(ctx.registers[12])
        } else {
            SyscallRequest::ProcessGetId
        }
    } else {
        if function == FUNCTION_FS_READ {
            SyscallRequest::FsRead {
                fd: ctx.registers[12],
                buf: ctx.registers[13],
                len: ctx.registers[14],
            }
        } else {
            SyscallRequest::FsWrite {
                fd: ctx.registers[12],
                buf: ctx.registers[13],
                len: ctx.registers[14],
            }
        }
    }
}

/// Whether `fd` indexes an open descriptor of the thread.
pub fn fd_valid(thread: &Thread, fd: u64) -> (r: bool)
    ensures
        r == (fd < thread.descriptors@.len()),
{
    fd < thread.descriptors.len() as u64
}

/// The process syscalls: `process_exit` discards the calling thread;
/// `process_get_id` returns the calling process's identifier.
pub fn module_process(function: u64, param0: u64, current_pid: u32) -> (r: SyscallResult)
    requires
        function == FUNCTION_PROCESS_EXIT || function == FUNCTION_PROCESS_GET_ID,
    ensures
        function == FUNCTION_PROCESS_EXIT ==> r == SyscallResult::Kill,
        function == FUNCTION_PROCESS_GET_ID ==> r == SyscallResult::Proceed(
            current_pid as i64,
        ),
{
    if function == FUNCTION_PROCESS_EXIT {
        SyscallResult::Kill
    } else {
        SyscallResult::Proceed(current_pid as i64)
    }
}

/// The filesystem syscalls, given what only the collaborator knows:
/// whether the descriptor was open, and what its `read_at` or
/// `write_at` came back with.
pub fn module_fs(function: u64, fd_ok: bool, outcome: Option<u64>) -> (r: SyscallResult)
    requires
        function == FUNCTION_FS_READ || function == FUNCTION_FS_WRITE,
        outcome matches Some(n) ==> n <= i64::MAX,
    ensures
        function == FUNCTION_FS_READ ==> {
            &&& (!fd_ok || outcome is None) ==> r == SyscallResult::ProceedTwo(0, 1)
            &&& (fd_ok && (outcome matches Some(n) && n > 0)) ==> r
                == SyscallResult::ProceedTwo((outcome->0) as i64, 0)
            &&& (fd_ok && outcome == Some(0u64)) ==> r == SyscallResult::ParkTwo(0, 0)
        },
        function == FUNCTION_FS_WRITE ==> {
            &&& (!fd_ok || outcome is None) ==> r == SyscallResult::ProceedTwo(0, 1)
            &&& (fd_ok && outcome is Some) ==> r == SyscallResult::ProceedTwo(
                (outcome->0) as i64,
                0,
            )
        },
{
    if function == FUNCTION_FS_READ {
        fs_read_result(fd_ok, outcome)
    } else {
        fs_write_result(fd_ok, outcome)
    }
}

/// What `fs_read` returns, given whether the descriptor was open and
/// what the collaborator's `read_at` came back with: a missing
/// descriptor or an error is `(0, 1)`; bytes read are `(n, 0)`; zero
/// bytes without error parks the thread until data arrives.
pub fn fs_read_result(fd_ok: bool, outcome: Option<u64>) -> (r: SyscallResult)
    requires
        outcome matches Some(n) ==> n <= i64::MAX,
    ensures
        !fd_ok ==> r == SyscallResult::ProceedTwo(0, 1),
        fd_ok && outcome is None ==> r == SyscallResult::ProceedTwo(0, 1),
        (fd_ok && (outcome matches Some(n) && n > 0)) ==> r == SyscallResult::ProceedTwo(
            (outcome->0) as i64,
            0,
        ),
        fd_ok && outcome == Some(0u64) ==> r == SyscallResult::ParkTwo(0, 0),
{
    if !fd_ok {
        return SyscallResult::ProceedTwo(0, 1);
    }
    match outcome {
        None => SyscallResult::ProceedTwo(0, 1),
        Some(n) => {
            if n > 0 {
                SyscallResult::ProceedTwo(n as i64, 0)
            } else {
                SyscallResult::ParkTwo(0, 0)
            }
        },
    }
}

/// What `fs_write` returns: a missing descriptor or an error is
/// `(0, 1)`; `n` bytes written are `(n, 0)`.
pub fn fs_write_result(fd_ok: bool, outcome: Option<u64>) -> (r: SyscallResult)
    requires
        outcome matches Some(n) ==> n <= i64::MAX,
    ensures
        !fd_ok ==> r == SyscallResult::ProceedTwo(0, 1),
        fd_ok && outcome is None ==> r == SyscallResult::ProceedTwo(0, 1),
        (fd_ok && outcome is Some) ==> r == SyscallResult::ProceedTwo(
            (outcome->0) as i64,
            0,
        ),
{
    if !fd_ok {
        return SyscallResult::ProceedTwo(0, 1);
    }
    match outcome {
        None => SyscallResult::ProceedTwo(0, 1),
        Some(n) => SyscallResult::ProceedTwo(n as i64, 0),
    }
}

/// Write a return value into `a0` of the frame and step `sepc` over the
/// `ecall` instruction.
pub fn apply_return(ctx: &Context, a0: i64) -> (r: Context)
    requires
        ctx.sepc + 4 <= u64::MAX,
    ensures
        r.registers@ == ctx.registers@.update(REG_A0 as int, a0 as u64),
        r.sepc == ctx.sepc + 4,
        r.sstatus == ctx.sstatus,
{
    let mut out = *ctx;
    out.registers[REG_A0] = a0 as u64;
    out.sepc = ctx.sepc + 4;
    out
}

/// Write two return values into `a0` and `a1` and step `sepc` over the
/// `ecall` instruction.
pub fn apply_return_two(ctx: &Context, a0: i64, a1: i64) -> (r: Context)
    requires
        ctx.sepc + 4 <= u64::MAX,
    ensures
        r.registers@ == ctx.registers@.update(REG_A0 as int, a0 as u64).update(
            REG_A1 as int,
            a1 as u64,
        ),
        r.sepc == ctx.sepc + 4,
        r.sstatus == ctx.sstatus,
{
    let mut out = *ctx;
    out.registers[REG_A0] = a0 as u64;
    out.registers[REG_A1] = a1 as u64;
    out.sepc = ctx.sepc + 4;
    out
}

/// Land a syscall result: fill the caller's registers, park or kill the
/// calling thread as the result asks, and decide what runs next.
///
/// `Proceed` keeps the caller running on the updated frame. `Park`
/// saves the updated frame into the caller's slot and switches; the
/// caller stays in the scheduler and will run again. `Kill` discards
/// the caller and switches.
pub fn apply_syscall_result(processor: &mut Processor, ctx: &Context, result: SyscallResult)
    -> (r: (Context, NextThread))
    requires
        old(processor).wf(),
        ctx.sepc + 4 <= u64::MAX,
        old(processor).spec_current() matches Some(c) && {
            &&& old(processor).thread_of(c).context is None
            &&& old(processor).sched_queue().contains(c)
        },
    ensures
        final(processor).wf(),
        match result {
            SyscallResult::Proceed(v) => {
                &&& r.1 is Same
                &&& *final(processor) == *old(processor)
                &&& r.0.registers@ == ctx.registers@.update(REG_A0 as int, v as u64)
                &&& r.0.sepc == ctx.sepc + 4
            },
            SyscallResult::ProceedTwo(v, e) => {
                &&& r.1 is Same
                &&& *final(processor) == *old(processor)
                &&& r.0.registers@ == ctx.registers@.update(REG_A0 as int, v as u64).update(
                    REG_A1 as int,
                    e as u64,
                )
                &&& r.0.sepc == ctx.sepc + 4
            },
            SyscallResult::Park(v) => {
                &&& r.0.registers@ == ctx.registers@.update(REG_A0 as int, v as u64)
                &&& r.0.sepc == ctx.sepc + 4
                &&& r.0.sstatus == ctx.sstatus
                &&& ({
                    let saved = final(processor).thread_of(
                        old(processor).spec_current()->0,
                    ).context;
                    saved matches Some(f) && f.registers@ == ctx.registers@.update(
                        REG_A0 as int,
                        v as u64,
                    ) && f.sepc == ctx.sepc + 4 && f.sstatus == ctx.sstatus
                })
                &&& !(r.1 is Shutdown)
                &&& !(r.1 is WaitForInterrupt)
                &&& (r.1 matches NextThread::Same ==> final(processor).spec_current() == old(
                    processor,
                ).spec_current() && Some(old(processor).sched_queue()[0]) == old(
                    processor,
                ).spec_current() && final(processor).sched_queue()
                    == crate::algo::fifo_rotate(old(processor).sched_queue()))
                &&& (r.1 matches NextThread::Switch(c2, s2) ==> ({
                    let next = old(processor).sched_queue()[0];
                    &&& Some(next) != old(processor).spec_current()
                    &&& final(processor).spec_current() == Some(next)
                    &&& final(processor).sched_queue() == crate::algo::fifo_rotate(
                        old(processor).sched_queue(),
                    )
                    &&& Some(c2) == old(processor).thread_of(next).context
                    &&& s2 == old(processor).thread_of(next).satp
                    &&& final(processor).thread_of(next).context is None
                }))
            },
            SyscallResult::ParkTwo(v, e) => {
                &&& r.0.registers@ == ctx.registers@.update(REG_A0 as int, v as u64).update(
                    REG_A1 as int,
                    e as u64,
                )
                &&& r.0.sepc == ctx.sepc + 4
                &&& r.0.sstatus == ctx.sstatus
                &&& ({
                    let saved = final(processor).thread_of(
                        old(processor).spec_current()->0,
                    ).context;
                    saved matches Some(f) && f.registers@ == ctx.registers@.update(
                        REG_A0 as int,
                        v as u64,
                    ).update(REG_A1 as int, e as u64) && f.sepc == ctx.sepc + 4 && f.sstatus
                        == ctx.sstatus
                })
                &&& !(r.1 is Shutdown)
                &&& !(r.1 is WaitForInterrupt)
                &&& (r.1 matches NextThread::Same ==> final(processor).spec_current() == old(
                    processor,
                ).spec_current() && Some(old(processor).sched_queue()[0]) == old(
                    processor,
                ).spec_current() && final(processor).sched_queue()
                    == crate::algo::fifo_rotate(old(processor).sched_queue()))
                &&& (r.1 matches NextThread::Switch(c2, s2) ==> ({
                    let next = old(processor).sched_queue()[0];
                    &&& Some(next) != old(processor).spec_current()
                    &&& final(processor).spec_current() == Some(next)
                    &&& final(processor).sched_queue() == crate::algo::fifo_rotate(
                        old(processor).sched_queue(),
                    )
                    &&& Some(c2) == old(processor).thread_of(next).context
                    &&& s2 == old(processor).thread_of(next).satp
                    &&& final(processor).thread_of(next).context is None
                }))
            },
            SyscallResult::Kill => {
                &&& !final(processor).has_thread(old(processor).spec_current()->0)
                &&& !final(processor).sched_queue().contains(
                    old(processor).spec_current()->0,
                )
                &&& !(r.1 is Same)
                &&& (r.1 matches NextThread::Switch(c2, s2)
                    ==> (final(processor).spec_current() matches Some(next) && {
                    &&& next != old(processor).spec_current()->0
                    &&& old(processor).sched_queue().contains(next)
                    &&& Some(c2) == old(processor).thread_of(next).context
                    &&& s2 == old(processor).thread_of(next).satp
                    &&& final(processor).thread_of(next).context is None
                }))
                &&& (r.1 is Shutdown ==> final(processor).spec_current() is None && old(
                    processor,
                ).sleeping() =~= Set::<u64>::empty() && (forall|t: u64|
                    old(processor).sched_queue().contains(t) ==> t == old(
                        processor,
                    ).spec_current()->0))
                &&& (r.1 is WaitForInterrupt ==> final(processor).spec_current() is None
                    && !(old(processor).sleeping() =~= Set::<u64>::empty()) && (forall|t: u64|
                    old(processor).sched_queue().contains(t) ==> t == old(
                        processor,
                    ).spec_current()->0))
            },
        },
{
    match result {
        SyscallResult::Proceed(v) => {
            let out = apply_return(ctx, v);
            (out, NextThread::Same)
        },
        SyscallResult::ProceedTwo(v, e) => {
            let out = apply_return_two(ctx, v, e);
            (out, NextThread::Same)
        },
        SyscallResult::Park(v) => {
            let out = apply_return(ctx, v);
            processor.park_current_thread(&out);
            let ghost mid = *processor;
            let next = processor.prepare_next_thread(&out);
            proof {
                let c = old(processor).spec_current()->0;
                assert(mid.thread_of(c).context is Some);
                assert(mid.sched_queue().contains(c));
                assert(mid.sched_queue().len() > 0);
                match next {
                    NextThread::Switch(c2, s2) => {
                        let nx = mid.sched_queue()[0];
                        assert(mid.sched_queue().contains(nx));
                        assert(old(processor).has_thread(nx));
                        assert(nx != c);
                        assert(mid.thread_of(nx) == old(processor).thread_of(nx));
                    },
                    _ => {},
                }
            }
            (out, next)
        },
        SyscallResult::ParkTwo(v, e) => {
            let out = apply_return_two(ctx, v, e);
            processor.park_current_thread(&out);
            let ghost mid = *processor;
            let next = processor.prepare_next_thread(&out);
            proof {
                let c = old(processor).spec_current()->0;
                assert(mid.thread_of(c).context is Some);
                assert(mid.sched_queue().contains(c));
                assert(mid.sched_queue().len() > 0);
                match next {
                    NextThread::Switch(c2, s2) => {
                        let nx = mid.sched_queue()[0];
                        assert(mid.sched_queue().contains(nx));
                        assert(old(processor).has_thread(nx));
                        assert(nx != c);
                        assert(mid.thread_of(nx) == old(processor).thread_of(nx));
                    },
                    _ => {},
                }
            }
            (out, next)
        },
        SyscallResult::Kill => {
            processor.kill_current_thread();
            let ghost mid = *processor;
            let next = processor.prepare_next_thread(ctx);
            proof {
                let c = old(processor).spec_current()->0;
                assert(!mid.has_thread(c));
                match next {
                    NextThread::Same => {
                        assert(Some(mid.sched_queue()[0]) == mid.spec_current());
                        assert(false);
                    },
                    NextThread::Switch(c2, s2) => {
                        let nx = mid.sched_queue()[0];
                        assert(mid.sched_queue().contains(nx));
                        assert(nx != c);
                        assert(old(processor).sched_queue().contains(nx));
                        assert(old(processor).has_thread(nx));
                        assert(mid.thread_of(nx) == old(processor).thread_of(nx));
                    },
                    NextThread::Shutdown => {
                        assert forall|t: u64|
                            old(processor).sched_queue().contains(t) implies t == c by {
                            if t != c {
                                assert(mid.sched_queue().contains(t));
                            }
                        }
                    },
                    NextThread::WaitForInterrupt => {
                        assert forall|t: u64|
                            old(processor).sched_queue().contains(t) implies t == c by {
                            if t != c {
                                assert(mid.sched_queue().contains(t));
                            }
                        }
                    },
                }
            }
            (*ctx, next)
        },
    }
}

} // verus!
