//! Core of a small supervisor-mode operating system for 64-bit RISC-V:
//! address and page-number arithmetic, a frame allocator, Sv39 page
//! tables and address spaces, thread scheduling, and the syscall layer.
//!
//! Hardware effects (CSR writes, firmware calls, the trap stubs) are kept
//! outside: every function here is a pure transition on plain data, with
//! its behaviour stated in its contract.

pub mod addr;
pub mod page_table_entry;
pub mod frame;
pub mod algo;
pub mod mapping;
pub mod segment;
pub mod memory_set;
pub mod elf;
pub mod process;
pub mod thread;
pub mod processor;
pub mod syscall;
pub mod trap;
