//! The schedulers and the processor run loop, driven with concrete
//! threads and frames.

use spicy_os::algo::{FifoScheduler, HrrnScheduler, Scheduler};
use spicy_os::process::ProcessId;
use spicy_os::processor::{NextThread, Processor};
use spicy_os::segment::VaRange;
use spicy_os::addr::VirtualAddress;
use spicy_os::thread::{new_context, Context, FileHandle, Thread, ThreadId, REG_SP};
use spicy_os::trap::{handle_trap, TrapCause, TrapOutcome};

fn sample_thread(id: u64) -> Thread {
    let stack = VaRange {
        start: VirtualAddress(0x100_0000 + id * 0x8_0000),
        end: VirtualAddress(0x100_0000 + (id + 1) * 0x8_0000),
    };
    let ctx = new_context(stack.end.0, 0x1000 + id, None, false, 0, 0xDEAD);
    Thread {
        id: ThreadId(id),
        stack,
        context: Some(ctx),
        descriptors: vec![FileHandle::Stdin, FileHandle::Stdout],
        process_id: ProcessId(0),
        is_user: false,
        satp: 0x8000_0000_0000_0000 + id,
    }
}

fn empty_frame() -> Context {
    new_context(0, 0, None, false, 0, 0)
}

#[test]
fn fifo_runs_round_robin() {
    let mut s = FifoScheduler::new();
    s.add_thread(10, 0);
    s.add_thread(11, 0);
    s.add_thread(12, 0);
    let mut seen = Vec::new();
    for _ in 0..7 {
        seen.push(s.get_next().unwrap());
    }
    assert_eq!(seen, vec![10, 11, 12, 10, 11, 12, 10]);
}

#[test]
fn fifo_removed_thread_never_returns() {
    let mut s = FifoScheduler::new();
    s.add_thread(1, 0);
    s.add_thread(2, 0);
    s.add_thread(3, 0);
    s.remove_thread(2);
    for _ in 0..10 {
        assert_ne!(s.get_next().unwrap(), 2);
    }
}

#[test]
fn hrrn_prefers_earlier_and_less_served() {
    let mut s = HrrnScheduler::new();
    s.add_thread(1, 0);
    s.add_thread(2, 0);
    // Equal births, both unserved: a tie, and the first maximum wins.
    assert_eq!(s.get_next().unwrap(), 1);
    // At clock 2 both ratios are 2/1 again — thread 1 waited twice as
    // long but was served once — so the tie still goes first.
    assert_eq!(s.get_next().unwrap(), 1);
    // At clock 3 the ratios are 3/2 against 3/1: thread 2 overtakes.
    assert_eq!(s.get_next().unwrap(), 2);
}

#[test]
fn hrrn_divides_by_max_of_service_and_one() {
    let mut s = HrrnScheduler::new();
    s.add_thread(1, 0);
    assert_eq!(s.get_next().unwrap(), 1);
    s.add_thread(2, 0);
    // At clock 2: thread 1 has ratio (2-0)/max(1,1) = 2, thread 2 has
    // (2-1)/max(0,1) = 1. The served thread keeps the CPU: an unserved
    // thread does not win merely for being unserved.
    assert_eq!(s.get_next().unwrap(), 1);
    // At clock 3: 3/2 against 2/1 — now thread 2 is due.
    assert_eq!(s.get_next().unwrap(), 2);
}

#[test]
fn hrrn_removal_and_emptiness() {
    let mut s = HrrnScheduler::new();
    assert!(s.get_next().is_none());
    s.add_thread(5, 0);
    s.remove_thread(5);
    assert!(s.get_next().is_none());
}

#[test]
fn processor_runs_first_thread() {
    let mut p = Processor::new();
    let t = sample_thread(1);
    p.add_thread(t);
    assert_eq!(p.current_thread(), 1);
    let (ctx, satp) = p.run();
    assert_eq!(ctx.sepc, 0x1001);
    assert_eq!(satp, 0x8000_0000_0000_0001);
    // The frame left the slot: the thread is executing now.
    assert!(p.thread(1).context.is_none());
}

#[test]
fn timer_switch_parks_outgoing_and_empties_incoming_slot() {
    let mut p = Processor::new();
    p.add_thread(sample_thread(1));
    p.add_thread(sample_thread(2));
    let (_running, _satp) = p.run();
    let mut frame = empty_frame();
    frame.sepc = 0xAAAA;
    // The FIFO hands out thread 1 first (it is current), then thread 2.
    match p.prepare_next_thread(&frame) {
        NextThread::Same => {}
        _ => panic!("expected the fast path"),
    }
    match p.prepare_next_thread(&frame) {
        NextThread::Switch(ctx, satp) => {
            assert_eq!(ctx.sepc, 0x1002);
            assert_eq!(satp, 0x8000_0000_0000_0002);
        }
        _ => panic!("expected a switch"),
    }
    // The outgoing thread's slot holds the frame observed at the trap.
    let saved = p.thread(1).context.unwrap();
    assert_eq!(saved.sepc, 0xAAAA);
    // The incoming thread's slot is empty while it runs.
    assert!(p.thread(2).context.is_none());
    assert_eq!(p.current_thread(), 2);
}

#[test]
fn timer_preemption_alternates_two_threads() {
    let mut p = Processor::new();
    p.add_thread(sample_thread(1));
    p.add_thread(sample_thread(2));
    let (mut frame, _satp) = p.run();
    let mut runs_of_1 = 0u32;
    let mut runs_of_2 = 0u32;
    let mut last = 0u64;
    for tick in 0..200 {
        match p.prepare_next_thread(&frame) {
            NextThread::Same => {}
            NextThread::Switch(ctx, _satp) => {
                frame = ctx;
            }
            _ => panic!("both threads stay runnable"),
        }
        let now = p.current_thread();
        if tick > 0 {
            assert_ne!(now, last, "round robin alternates the two threads");
        }
        last = now;
        if now == 1 {
            runs_of_1 += 1;
        } else {
            runs_of_2 += 1;
        }
    }
    assert_eq!(runs_of_1, 100);
    assert_eq!(runs_of_2, 100);
}

#[test]
fn eight_kernel_threads_run_and_shut_down() {
    let mut p = Processor::new();
    for id in 1..=8 {
        p.add_thread(sample_thread(id));
    }
    let (mut frame, _satp) = p.run();
    let mut exited = 0;
    loop {
        // The running thread finishes its work and exits.
        p.kill_current_thread();
        exited += 1;
        match p.prepare_next_thread(&frame) {
            NextThread::Switch(ctx, _satp) => {
                frame = ctx;
            }
            NextThread::Shutdown => break,
            _ => panic!("threads only run or finish here"),
        }
    }
    assert_eq!(exited, 8);
}

#[test]
fn killed_thread_never_reappears() {
    let mut p = Processor::new();
    p.add_thread(sample_thread(1));
    p.add_thread(sample_thread(2));
    p.add_thread(sample_thread(3));
    let (mut frame, _satp) = p.run();
    p.kill_current_thread();
    match p.prepare_next_thread(&frame) {
        NextThread::Switch(ctx, _satp) => frame = ctx,
        _ => panic!("two threads remain"),
    }
    for _ in 0..10 {
        assert_ne!(p.current_thread(), 1);
        if let NextThread::Switch(ctx, _satp) = p.prepare_next_thread(&frame) {
            frame = ctx;
        }
    }
}

#[test]
fn sleeping_thread_defers_shutdown_until_woken() {
    let mut p = Processor::new();
    p.add_thread(sample_thread(1));
    p.add_thread(sample_thread(2));
    let (mut frame, _satp) = p.run();
    // Thread 1 blocks on I/O.
    p.park_current_thread(&frame);
    p.sleep_current_thread();
    match p.prepare_next_thread(&frame) {
        NextThread::Switch(ctx, _satp) => frame = ctx,
        _ => panic!("thread 2 is runnable"),
    }
    // Thread 2 exits; thread 1 still sleeps, so the machine waits
    // instead of shutting down.
    p.kill_current_thread();
    match p.prepare_next_thread(&frame) {
        NextThread::WaitForInterrupt => {}
        _ => panic!("a sleeper must keep the machine up"),
    }
    // The device interrupt arrives and wakes thread 1.
    p.wake_thread(1);
    match p.prepare_next_thread(&frame) {
        NextThread::Switch(ctx, _satp) => {
            // Thread 1 resumes with the frame it was parked with.
            assert_eq!(ctx.sepc, 0x1001);
        }
        _ => panic!("the woken thread runs"),
    }
    assert_eq!(p.current_thread(), 1);
}

#[test]
fn context_carries_stack_entry_and_arguments() {
    let args = vec![7u64, 8, 9];
    let ctx = new_context(0x2000, 0x555, Some(&args), true, 0x100, 0xBEEF);
    assert_eq!(ctx.registers[REG_SP], 0x2000);
    assert_eq!(ctx.registers[1], 0xBEEF, "ra points at the return sentinel");
    assert_eq!(ctx.sepc, 0x555);
    assert_eq!(ctx.registers[10], 7);
    assert_eq!(ctx.registers[11], 8);
    assert_eq!(ctx.registers[12], 9);
    assert_eq!(ctx.registers[13], 0);
    // User thread: SPP cleared, SPIE set.
    assert_eq!(ctx.sstatus, 0x20);
    // Kernel thread: SPP set.
    let kctx = new_context(0x2000, 0x555, None, false, 0, 0);
    assert_eq!(kctx.sstatus, 0x120);
}

#[test]
fn trap_dispatch_by_cause() {
    let mut p = Processor::new();
    p.add_thread(sample_thread(1));
    let (frame, _satp) = p.run();
    let mut ticks = 0u64;
    match handle_trap(&mut p, TrapCause::Breakpoint, &frame, &mut ticks) {
        TrapOutcome::Continue(c) => assert_eq!(c.sepc, frame.sepc + 2),
        _ => panic!("a breakpoint is stepped over"),
    }
    match handle_trap(&mut p, TrapCause::SupervisorSoft, &frame, &mut ticks) {
        TrapOutcome::Continue(c) => assert_eq!(c.sepc, frame.sepc),
        _ => panic!("a software interrupt only continues"),
    }
    assert_eq!(ticks, 0);
    match handle_trap(&mut p, TrapCause::SupervisorTimer, &frame, &mut ticks) {
        TrapOutcome::Scheduled(NextThread::Same) => {}
        _ => panic!("the only thread keeps running"),
    }
    assert_eq!(ticks, 1);
    assert!(matches!(
        handle_trap(&mut p, TrapCause::UserEnvCall, &frame, &mut ticks),
        TrapOutcome::Syscall
    ));
}

#[test]
fn boot_without_threads_shuts_down() {
    let mut p = Processor::new();
    assert!(p.try_run().is_none());
}
