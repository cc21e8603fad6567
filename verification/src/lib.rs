//! Syscall-facing layer of a small teaching kernel.
//!
//! User processes hand the kernel raw virtual addresses; before the kernel
//! may write a structured value (a timestamp, an accounting record) through
//! such a pointer it must translate the address page by page against the
//! process's page table.  This crate models the current task's address
//! space, clock and accounting record explicitly and verifies the
//! translation and the mmap/munmap validation logic on top of that model.

pub mod space;
pub mod bytes;
pub mod task;
pub mod time;
pub mod syscall;
