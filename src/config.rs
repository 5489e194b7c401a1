//! Constants shared by the memory model and the system calls.
use vstd::prelude::*;

verus! {

/// Size of a page and of a physical frame, in bytes.
pub const PAGE_SIZE: usize = 4096;

/// Number of distinct system-call numbers whose invocations are counted.
pub const MAX_SYSCALL_NUM: usize = 500;

/// Permission bit: the page may be read.
pub const PERM_R: u8 = 1;

/// Permission bit: the page may be written.
pub const PERM_W: u8 = 2;

/// Permission bit: instructions may be fetched from the page.
pub const PERM_X: u8 = 4;

} // verus!
