//! Process-control system calls of a small paged kernel: time and task
//! introspection written through the caller's page table, memory-region
//! mapping and unmapping, program-break adjustment, yield and exit.
pub mod config;
pub mod codec;
pub mod mm;
pub mod task;
pub mod process;
