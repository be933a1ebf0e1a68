//! Trap dispatch: what the supervisor does for each cause the low-level
//! stub reports.
//!
//! The stub saves the registers, reads `scause`, and calls in with the
//! frame; the decision returned tells it which frame to restore. The
//! hardware steps around a trap — rearming the timer, the `sret` — stay
//! with the stub; a supervisor call needs the filesystem collaborator,
//! so the dispatcher hands it back to be decoded and completed through
//! the syscall layer.

use vstd::prelude::*;
use crate::processor::{NextThread, Processor};
use crate::thread::Context;

verus! {

/// The trap causes this kernel handles.
#[derive(Clone, Copy, Debug, PartialEq, Eq, Structural)]
pub enum TrapCause {
    /// The S-mode timer fired: a time slice ended.
    SupervisorTimer,
    /// An `ebreak` instruction.
    Breakpoint,
    /// An `ecall` from user mode.
    UserEnvCall,
    /// A software interrupt; only hart wake-ups during boot.
    SupervisorSoft,
}

/// What the trap exit does with the saved frame.
pub enum TrapOutcome {
    /// Restore this frame on the same thread.
    Continue(Context),
    /// Follow the scheduling decision.
    Scheduled(NextThread),
    /// An `ecall`: decode it, perform any I/O, and land the result
    /// through the syscall layer.
    Syscall,
}

/// Dispatch one trap.
///
/// A timer tick advances the counter and asks the scheduler what runs
/// next. A breakpoint steps `sepc` over the two-byte compressed
/// instruction and continues. A supervisor call is handed back. A
/// software interrupt is acknowledged and the same frame continues.
pub fn handle_trap(
    processor: &mut Processor,
    cause: TrapCause,
    ctx: &Context,
    ticks: &mut u64,
) -> (r: TrapOutcome)
    requires
        old(processor).wf(),
        *old(ticks) < u64::MAX,
        ctx.sepc + 2 <= u64::MAX,
    ensures
        final(processor).wf(),
        cause == TrapCause::SupervisorTimer ==> *final(ticks) == *old(ticks) + 1 && r
            is Scheduled,
        // A timer trap decides exactly as `prepare_next_thread` does.
        cause == TrapCause::SupervisorTimer ==> {
            &&& final(processor).sleeping() == old(processor).sleeping()
            &&& final(processor).spec_threads().len() == old(processor).spec_threads().len()
            &&& forall|t: u64|
                final(processor).sched_queue().contains(t) <==> old(
                    processor,
                ).sched_queue().contains(t)
            &&& forall|t: u64|
                final(processor).has_thread(t) <==> old(processor).has_thread(t)
            &&& (r matches TrapOutcome::Scheduled(d) ==> match d {
                NextThread::Same => {
                    &&& old(processor).sched_queue().len() > 0
                    &&& Some(old(processor).sched_queue()[0]) == old(processor).spec_current()
                    &&& final(processor).spec_threads() == old(processor).spec_threads()
                    &&& final(processor).spec_current() == old(processor).spec_current()
                    &&& final(processor).sched_queue() == crate::algo::fifo_rotate(
                        old(processor).sched_queue(),
                    )
                },
                NextThread::Switch(c, satp) => {
                    let next = old(processor).sched_queue()[0];
                    &&& old(processor).sched_queue().len() > 0
                    &&& Some(next) != old(processor).spec_current()
                    &&& final(processor).spec_current() == Some(next)
                    &&& final(processor).sched_queue() == crate::algo::fifo_rotate(
                        old(processor).sched_queue(),
                    )
                    &&& Some(c) == old(processor).thread_of(next).context
                    &&& final(processor).thread_of(next).context is None
                    &&& satp == old(processor).thread_of(next).satp
                    &&& (old(processor).spec_current() matches Some(cur) ==> {
                        &&& (old(processor).thread_of(cur).context is None
                            ==> final(processor).thread_of(cur).context == Some(*ctx))
                        &&& (old(processor).thread_of(cur).context is Some
                            ==> final(processor).thread_of(cur).context == old(
                            processor,
                        ).thread_of(cur).context)
                    })
                },
                NextThread::Shutdown => {
                    &&& old(processor).sched_queue().len() == 0
                    &&& old(processor).sleeping() =~= Set::<u64>::empty()
                    &&& final(processor).spec_threads() == old(processor).spec_threads()
                    &&& final(processor).spec_current() == old(processor).spec_current()
                    &&& final(processor).sched_queue() == old(processor).sched_queue()
                },
                NextThread::WaitForInterrupt => {
                    &&& old(processor).sched_queue().len() == 0
                    &&& !(old(processor).sleeping() =~= Set::<u64>::empty())
                    &&& final(processor).spec_threads() == old(processor).spec_threads()
                    &&& final(processor).spec_current() == old(processor).spec_current()
                    &&& final(processor).sched_queue() == old(processor).sched_queue()
                },
            })
        },
        cause != TrapCause::SupervisorTimer ==> *final(ticks) == *old(ticks)
            && *final(processor) == *old(processor),
        cause == TrapCause::Breakpoint ==> (r matches TrapOutcome::Continue(c) && c.sepc == ctx.sepc + 2
            && c.registers == ctx.registers && c.sstatus == ctx.sstatus),
        cause == TrapCause::UserEnvCall ==> r is Syscall,
        cause == TrapCause::SupervisorSoft ==> (r matches TrapOutcome::Continue(c) && c == *ctx),
{
    match cause {
        TrapCause::SupervisorTimer => {
            *ticks = *ticks + 1;
            TrapOutcome::Scheduled(processor.prepare_next_thread(ctx))
        },
        TrapCause::Breakpoint => {
            let mut out = *ctx;
            out.sepc = ctx.sepc + 2;
            TrapOutcome::Continue(out)
        },
        TrapCause::UserEnvCall => TrapOutcome::Syscall,
        TrapCause::SupervisorSoft => TrapOutcome::Continue(*ctx),
    }
}

} // verus!
