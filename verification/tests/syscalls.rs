//! The syscall surface: decode, per-function semantics, landing results
//! in registers, and the exit path, plus loading a process from an ELF
//! image.

use spicy_os::addr::{VirtualAddress, KERNEL_MAP_OFFSET};
use spicy_os::frame::FrameAllocator;
use spicy_os::addr::PhysicalPageNumber;
use spicy_os::elf::{parse_entry_point, parse_load_segments};
use spicy_os::memory_set::KernelLayout;
use spicy_os::page_table_entry::{
    FLAG_EXECUTABLE, FLAG_READABLE, FLAG_USER, FLAG_VALID,
};
use spicy_os::process::{Process, ProcessId};
use spicy_os::processor::{NextThread, Processor};
use spicy_os::segment::{MapType, VaRange};
use spicy_os::syscall::{
    apply_syscall_result, fd_valid, fs_read_result, fs_write_result, module_fs,
    module_process, syscall_decode, SyscallRequest, SyscallResult, FUNCTION_FS_READ,
    FUNCTION_FS_WRITE, FUNCTION_PROCESS_EXIT, FUNCTION_PROCESS_GET_ID, MODULE_FS,
    MODULE_PROCESS,
};
use spicy_os::thread::{new_context, Context, FileHandle, Thread, ThreadId};

fn kernel_layout() -> KernelLayout {
    let s = |pa: u64| VirtualAddress(KERNEL_MAP_OFFSET + pa);
    KernelLayout {
        text_start: s(0x8020_0000),
        text_end: s(0x8020_4000),
        rodata_start: s(0x8020_4000),
        rodata_end: s(0x8020_6000),
        data_start: s(0x8020_6000),
        data_end: s(0x8020_8000),
        bss_start: s(0x8020_8000),
        bss_end: s(0x8020_a000),
        heap_start: s(0x8020_a000),
        heap_end: s(0x8120_a000),
        stack_start: s(0x8120_a000),
        stack_end: s(0x8128_a000),
    }
}

fn push_u16(v: &mut Vec<u8>, x: u16) {
    v.extend_from_slice(&x.to_le_bytes());
}

fn push_u32(v: &mut Vec<u8>, x: u32) {
    v.extend_from_slice(&x.to_le_bytes());
}

fn push_u64(v: &mut Vec<u8>, x: u64) {
    v.extend_from_slice(&x.to_le_bytes());
}

/// A minimal 64-bit little-endian ELF image with one loadable segment:
/// eight payload bytes at virtual address 0x10000, sixteen bytes in
/// memory, entry at 0x10000, readable and executable.
fn tiny_elf() -> Vec<u8> {
    let mut v = Vec::new();
    v.extend_from_slice(&[0x7F, b'E', b'L', b'F', 2, 1, 1, 0]);
    v.extend_from_slice(&[0u8; 8]);
    push_u16(&mut v, 2); // executable
    push_u16(&mut v, 0xF3); // RISC-V
    push_u32(&mut v, 1);
    push_u64(&mut v, 0x10000); // entry point
    push_u64(&mut v, 64); // program header table offset
    push_u64(&mut v, 0); // no section headers
    push_u32(&mut v, 0);
    push_u16(&mut v, 64);
    push_u16(&mut v, 56); // program header entry size
    push_u16(&mut v, 1); // one program header
    push_u16(&mut v, 0);
    push_u16(&mut v, 0);
    push_u16(&mut v, 0);
    assert_eq!(v.len(), 64);
    push_u32(&mut v, 1); // PT_LOAD
    push_u32(&mut v, 5); // readable | executable
    push_u64(&mut v, 120); // file offset of the payload
    push_u64(&mut v, 0x10000); // virtual address
    push_u64(&mut v, 0x10000);
    push_u64(&mut v, 8); // bytes in the file
    push_u64(&mut v, 16); // bytes in memory
    push_u64(&mut v, 0x1000);
    assert_eq!(v.len(), 120);
    v.extend_from_slice(&[1, 2, 3, 4, 5, 6, 7, 8]);
    v
}

fn syscall_frame(module: u64, function: u64, args: [u64; 3]) -> Context {
    let mut ctx = new_context(0x8000, 0x4000, None, true, 0, 0);
    ctx.registers[10] = module;
    ctx.registers[11] = function;
    ctx.registers[12] = args[0];
    ctx.registers[13] = args[1];
    ctx.registers[14] = args[2];
    ctx
}

fn user_thread(id: u64) -> Thread {
    let stack = VaRange { start: VirtualAddress(0x100_0000), end: VirtualAddress(0x108_0000) };
    let ctx = new_context(stack.end.0, 0x10000, None, true, 0, 0);
    Thread {
        id: ThreadId(id),
        stack,
        context: Some(ctx),
        descriptors: vec![FileHandle::Stdin, FileHandle::Stdout],
        process_id: ProcessId(0),
        is_user: true,
        satp: 0x8000_0000_0000_0000,
    }
}

#[test]
fn decode_covers_the_four_calls() {
    let exit = syscall_frame(MODULE_PROCESS, FUNCTION_PROCESS_EXIT, [0, 0, 0]);
    assert_eq!(syscall_decode(&exit), SyscallRequest::ProcessExit(0));
    let getid = syscall_frame(MODULE_PROCESS, FUNCTION_PROCESS_GET_ID, [0, 0, 0]);
    assert_eq!(syscall_decode(&getid), SyscallRequest::ProcessGetId);
    let read = syscall_frame(MODULE_FS, FUNCTION_FS_READ, [0, 0x9000, 16]);
    assert_eq!(
        syscall_decode(&read),
        SyscallRequest::FsRead { fd: 0, buf: 0x9000, len: 16 }
    );
    let write = syscall_frame(MODULE_FS, FUNCTION_FS_WRITE, [1, 0x9000, 6]);
    assert_eq!(
        syscall_decode(&write),
        SyscallRequest::FsWrite { fd: 1, buf: 0x9000, len: 6 }
    );
}

#[test]
fn getpid_returns_the_assigned_id() {
    assert_eq!(
        module_process(FUNCTION_PROCESS_GET_ID, 0, 7),
        SyscallResult::Proceed(7)
    );
    assert_eq!(module_process(FUNCTION_PROCESS_EXIT, 0, 7), SyscallResult::Kill);
}

#[test]
fn write_then_read_round_trip() {
    // Six bytes go to the console; the collaborator reports six written.
    let t = user_thread(1);
    assert!(fd_valid(&t, 1));
    assert_eq!(fs_write_result(true, Some(6)), SyscallResult::ProceedTwo(6, 0));
    // A read of the same length comes back with six bytes and no error.
    assert_eq!(fs_read_result(true, Some(6)), SyscallResult::ProceedTwo(6, 0));
}

#[test]
fn write_to_missing_descriptor_fails() {
    let t = user_thread(1);
    assert!(!fd_valid(&t, 5));
    assert_eq!(fs_write_result(false, None), SyscallResult::ProceedTwo(0, 1));
    assert_eq!(fs_write_result(false, Some(6)), SyscallResult::ProceedTwo(0, 1));
}

#[test]
fn read_without_data_parks() {
    assert_eq!(fs_read_result(true, Some(0)), SyscallResult::ParkTwo(0, 0));
    assert_eq!(fs_read_result(true, None), SyscallResult::ProceedTwo(0, 1));
}

#[test]
fn module_fs_dispatches_read_and_write() {
    assert_eq!(module_fs(FUNCTION_FS_READ, true, Some(4)), SyscallResult::ProceedTwo(4, 0));
    assert_eq!(module_fs(FUNCTION_FS_READ, true, Some(0)), SyscallResult::ParkTwo(0, 0));
    assert_eq!(module_fs(FUNCTION_FS_WRITE, true, Some(6)), SyscallResult::ProceedTwo(6, 0));
    assert_eq!(module_fs(FUNCTION_FS_WRITE, false, None), SyscallResult::ProceedTwo(0, 1));
}

#[test]
fn proceed_lands_in_a0_and_steps_sepc() {
    let mut p = Processor::new();
    p.add_thread(user_thread(1));
    let (frame, _satp) = p.run();
    let (out, next) = apply_syscall_result(&mut p, &frame, SyscallResult::Proceed(7));
    assert!(matches!(next, NextThread::Same));
    assert_eq!(out.registers[10], 7);
    assert_eq!(out.sepc, frame.sepc + 4);
    let (out2, _next2) = apply_syscall_result(&mut p, &frame, SyscallResult::ProceedTwo(6, 0));
    assert_eq!(out2.registers[10], 6);
    assert_eq!(out2.registers[11], 0);
}

#[test]
fn exit_kills_the_thread_and_shuts_down() {
    let mut p = Processor::new();
    p.add_thread(user_thread(1));
    let (frame, _satp) = p.run();
    let request = syscall_decode(&syscall_frame(MODULE_PROCESS, FUNCTION_PROCESS_EXIT, [0, 0, 0]));
    assert_eq!(request, SyscallRequest::ProcessExit(0));
    let (_out, next) = apply_syscall_result(&mut p, &frame, SyscallResult::Kill);
    assert!(matches!(next, NextThread::Shutdown));
}

#[test]
fn parked_reader_waits_for_the_device() {
    let mut p = Processor::new();
    p.add_thread(user_thread(1));
    p.add_thread(user_thread(2));
    let (frame, _satp) = p.run();
    // One uneventful tick rotates the queue behind the running thread.
    assert!(matches!(p.prepare_next_thread(&frame), NextThread::Same));
    // Nothing to read yet: the caller parks, the other thread runs.
    let (out, next) = apply_syscall_result(&mut p, &frame, SyscallResult::ParkTwo(0, 0));
    assert_eq!(out.registers[10], 0);
    match next {
        NextThread::Switch(ctx, _satp) => assert_eq!(ctx.sepc, 0x10000),
        _ => panic!("the second thread takes over"),
    }
    // The parked caller kept its place in the scheduler and resumes
    // with the frame holding its return values.
    let saved = p.thread(1).context.unwrap();
    assert_eq!(saved.sepc, frame.sepc + 4);
}

#[test]
fn elf_image_parses_to_one_load_segment() {
    let data = tiny_elf();
    assert_eq!(parse_entry_point(&data).unwrap(), 0x10000);
    let loads = parse_load_segments(&data).unwrap();
    assert_eq!(loads.len(), 1);
    assert_eq!(loads[0].vaddr, 0x10000);
    assert_eq!(loads[0].mem_size, 16);
    assert_eq!(loads[0].offset, 120);
    assert_eq!(loads[0].file_size, 8);
    assert!(loads[0].readable && loads[0].executable && !loads[0].writable);
    assert!(parse_load_segments(&vec![0u8; 16]).is_err());
}

#[test]
fn process_from_elf_maps_and_fills_the_segment() {
    let data = tiny_elf();
    let mut fa = FrameAllocator::new(PhysicalPageNumber(0x80000), PhysicalPageNumber(0x80400));
    let layout = kernel_layout();
    let mut counter: u32 = 0;
    let p = Process::from_elf(&data, true, &layout, &mut fa, &mut counter).unwrap();
    assert!(p.is_user);
    assert_eq!(p.process_id().0, 0);
    let ms = &p.memory_set;
    assert_eq!(ms.segments.len(), 9);
    let seg = ms.segments[8];
    assert_eq!(seg.map_type, MapType::Framed);
    assert_eq!(seg.range.start.0, 0x10000);
    assert_eq!(seg.range.end.0, 0x10010);
    assert_eq!(seg.flags.0, FLAG_USER | FLAG_READABLE | FLAG_EXECUTABLE);
    // The one page of the segment is mapped with those flags plus V.
    let vpn = spicy_os::addr::VirtualPageNumber(0x10);
    let (ppn, flags) = ms.mapping.translate(vpn).unwrap();
    assert_eq!(flags.0, FLAG_USER | FLAG_READABLE | FLAG_EXECUTABLE | FLAG_VALID);
    // The backing frame holds the payload and a zero tail.
    assert_eq!(ms.allocated_pairs.len(), 1);
    let (pair_vpn, frame) = &ms.allocated_pairs[0];
    assert_eq!(pair_vpn.0, 0x10);
    assert_eq!(frame.ppn().0, ppn.0);
    let bytes = frame.data();
    assert_eq!(&bytes[0..8], &[1, 2, 3, 4, 5, 6, 7, 8]);
    assert!(bytes[8..].iter().all(|b| *b == 0));
}
