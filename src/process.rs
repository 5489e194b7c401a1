//! Process-control system calls. Each takes the calling task (and, where a
//! record is handed back, physical memory) as an argument and returns the
//! status the caller sees: 0 or a value on success, -1 on failure.
use vstd::prelude::*;
use crate::codec::{le_bytes, push_le};
use crate::config::{MAX_SYSCALL_NUM, PERM_W};
use crate::mm::PhysMemory;
use crate::task::{status_code, Task, TaskStatus};

verus! {

/// Size in bytes of a `TimeVal` in user memory.
pub const TIME_VAL_SIZE: usize = 16;

/// Size in bytes of a `TaskInfo` in user memory.
pub const TASK_INFO_SIZE: usize = 2016;

/// A clock reading split into seconds and microseconds.
#[derive(Clone, Copy, Debug, PartialEq, Eq, Structural)]
pub struct TimeVal {
    pub sec: usize,
    pub usec: usize,
}

/// Bytes of a `TimeVal` in user memory: `sec`, then `usec`, each as eight
/// little-endian bytes.
pub open spec fn time_val_bytes(sec: nat, usec: nat) -> Seq<u8> {
    le_bytes(sec, 8) + le_bytes(usec, 8)
}

/// The call counts, four little-endian bytes each, in call-number order.
pub open spec fn counts_bytes(times: Seq<u32>) -> Seq<u8>
    decreases times.len(),
{
    if times.len() == 0 {
        Seq::empty()
    } else {
        counts_bytes(times.drop_last()) + le_bytes(times.last() as nat, 4)
    }
}

/// Bytes of a `TaskInfo` in user memory: the status code in four bytes, the
/// call counts, four bytes of padding, then the running time in eight bytes.
pub open spec fn task_info_bytes(status: TaskStatus, times: Seq<u32>, time: nat) -> Seq<u8> {
    le_bytes(status_code(status) as nat, 4) + counts_bytes(times) + seq![0u8, 0u8, 0u8, 0u8]
        + le_bytes(time, 8)
}

impl TimeVal {
    /// Splits a reading in microseconds.
    pub fn from_us(us: usize) -> (r: TimeVal)
        ensures
            r.sec == us / 1_000_000,
            r.usec == us % 1_000_000,
    {
        TimeVal { sec: us / 1_000_000, usec: us % 1_000_000 }
    }

    /// The record as user memory holds it.
    pub fn to_bytes(&self) -> (r: Vec<u8>)
        ensures
            r@ == time_val_bytes(self.sec as nat, self.usec as nat),
            r@.len() == TIME_VAL_SIZE,
    {
        let mut out: Vec<u8> = Vec::new();
        push_le(&mut out, self.sec as u64, 8);
        push_le(&mut out, self.usec as u64, 8);
        proof {
            lemma_le_bytes_len(self.sec as nat, 8);
            lemma_le_bytes_len(self.usec as nat, 8);
        }
        out
    }
}

/// A snapshot of the calling task.
#[derive(Debug)]
pub struct TaskInfo {
    /// Task status in its life cycle.
    pub status: TaskStatus,
    /// How often the task has made each system call.
    pub syscall_times: Vec<u32>,
    /// Milliseconds since the task first ran.
    pub time: usize,
}

impl TaskInfo {
    /// The record as user memory holds it.
    pub fn to_bytes(&self) -> (r: Vec<u8>)
        requires
            self.syscall_times@.len() == MAX_SYSCALL_NUM,
        ensures
            r@ == task_info_bytes(self.status, self.syscall_times@, self.time as nat),
            r@.len() == TASK_INFO_SIZE,
    {
        let mut out: Vec<u8> = Vec::new();
        push_le(&mut out, self.status.code() as u64, 4);
        let ghost head = out@;
        let times = &self.syscall_times;
        let mut i: usize = 0;
        while i < times.len()
            invariant
                i <= times@.len(),
                out@ == head + counts_bytes(times@.take(i as int)),
            decreases times@.len() - i,
        {
            push_le(&mut out, times[i] as u64, 4);
            proof {
                let t = times@.take(i + 1);
                assert(t.drop_last() =~= times@.take(i as int));
                assert(t.last() == times@[i as int]);
                assert(out@ =~= head + counts_bytes(t));
            }
            i = i + 1;
        }
        assert(times@.take(times@.len() as int) =~= times@);
        out.push(0u8);
        out.push(0u8);
        out.push(0u8);
        out.push(0u8);
        push_le(&mut out, self.time as u64, 8);
        proof {
            lemma_le_bytes_len(status_code(self.status) as nat, 4);
            lemma_counts_bytes_len(times@);
            lemma_le_bytes_len(self.time as nat, 8);
            assert(out@ =~= task_info_bytes(self.status, self.syscall_times@, self.time as nat));
        }
        out
    }
}

/// The task stops with `exit_code`: it is marked exited and is never run
/// again. Tearing it down and choosing the next task is the scheduler's part.
pub fn sys_exit(task: &mut Task, exit_code: i32)
    ensures
        *final(task) == (Task { status: TaskStatus::Exited, exit_code: Some(exit_code), ..*old(task) }),
{
    task.status = TaskStatus::Exited;
    task.exit_code = Some(exit_code);
}

/// The task gives up the rest of its time slice: it goes back to ready, and
/// the call returns 0 once the scheduler runs it again.
pub fn sys_yield(task: &mut Task) -> (r: isize)
    ensures
        r == 0,
        *final(task) == (Task { status: TaskStatus::Ready, ..*old(task) }),
{
    task.status = TaskStatus::Ready;
    0
}

/// Writes the clock reading `now_us` as a `TimeVal` at user address `ts`.
/// Returns 0, or -1 with memory unchanged when the record's bytes are not all
/// mapped writable. `_tz` is ignored.
pub fn sys_get_time(task: &Task, mem: &mut PhysMemory, ts: usize, _tz: usize, now_us: usize) -> (r: isize)
    requires
        task.wf(),
    ensures
        ({
            let space = task.memory_set;
            let data = time_val_bytes((now_us / 1_000_000) as nat, (now_us % 1_000_000) as nat);
            &&& r == 0 || r == -1
            &&& r == 0 <==> space.reaches(ts as int, TIME_VAL_SIZE as int, PERM_W, old(mem)@.len() as int)
            &&& r == 0 ==> final(mem)@ == space.written(old(mem)@, ts as int, data, TIME_VAL_SIZE as nat)
            &&& r == 0 ==> space.user_bytes(final(mem)@, ts as int, TIME_VAL_SIZE as nat) == data
            &&& r == -1 ==> final(mem)@ == old(mem)@
        }),
{
    let tv = TimeVal::from_us(now_us);
    let bytes = tv.to_bytes();
    match task.memory_set.copy_out(mem, ts, &bytes) {
        Ok(()) => 0,
        Err(_) => -1,
    }
}

/// Writes a `TaskInfo` snapshot of the calling task at user address `ti`:
/// running, its call counts, and the milliseconds since it started, given the
/// clock reading `now_us`. Returns 0, or -1 with memory unchanged when the
/// record's bytes are not all mapped writable.
pub fn sys_task_info(task: &Task, mem: &mut PhysMemory, ti: usize, now_us: usize) -> (r: isize)
    requires
        task.wf(),
        task.start_time_us <= now_us,
    ensures
        ({
            let space = task.memory_set;
            let data = task_info_bytes(
                TaskStatus::Running,
                task.syscall_times@,
                ((now_us - task.start_time_us) / 1000) as nat,
            );
            &&& r == 0 || r == -1
            &&& r == 0 <==> space.reaches(ti as int, TASK_INFO_SIZE as int, PERM_W, old(mem)@.len() as int)
            &&& r == 0 ==> final(mem)@ == space.written(old(mem)@, ti as int, data, TASK_INFO_SIZE as nat)
            &&& r == 0 ==> space.user_bytes(final(mem)@, ti as int, TASK_INFO_SIZE as nat) == data
            &&& r == -1 ==> final(mem)@ == old(mem)@
        }),
{
    let info = TaskInfo {
        status: TaskStatus::Running,
        syscall_times: task.syscall_times.clone(),
        time: (now_us - task.start_time_us) / 1000,
    };
    let bytes = info.to_bytes();
    match task.memory_set.copy_out(mem, ti, &bytes) {
        Ok(()) => 0,
        Err(_) => -1,
    }
}

/// Maps `len` bytes at `start`, rounded up to whole pages, with permission
/// bits `port` (read 1, write 2, execute 4). Malformed permissions and an
/// unaligned start are refused here, before the address space is touched.
pub fn sys_mmap(task: &mut Task, start: usize, len: usize, port: usize) -> (r: isize)
    requires
        old(task).wf(),
    ensures
        final(task).wf(),
        old(task).memory_set.mmap_outcome(start, len, port, final(task).memory_set, r),
        *final(task) == (Task { memory_set: final(task).memory_set, ..*old(task) }),
{
    if !crate::mm::port_valid(port) {
        return -1;
    }
    if !crate::mm::VirtAddr(start).aligned() {
        return -1;
    }
    if len == 0 {
        return 0;
    }
    task.memory_set.mmap(start, len, port)
}

/// Unmaps `len` bytes at `start`, rounded up to whole pages: every page of
/// the range must be mapped, else nothing is removed and -1 is returned.
pub fn sys_munmap(task: &mut Task, start: usize, len: usize) -> (r: isize)
    requires
        old(task).wf(),
    ensures
        final(task).wf(),
        old(task).memory_set.munmap_outcome(start, len, final(task).memory_set, r),
        *final(task) == (Task { memory_set: final(task).memory_set, ..*old(task) }),
{
    if !crate::mm::VirtAddr(start).aligned() {
        return -1;
    }
    if len == 0 {
        return 0;
    }
    task.memory_set.munmap(start, len)
}

/// What moving the break of `before` by `size` bytes does: `after` is the
/// task afterwards and `r` the status returned.
pub open spec fn sbrk_outcome(before: Task, size: i32, after: Task, r: isize) -> bool {
    let nb = before.program_brk + size;
    if before.heap_bottom <= nb <= before.heap_end {
        &&& r == before.program_brk
        &&& after == (Task { program_brk: nb as usize, ..before })
    } else {
        r == -1 && after == before
    }
}

/// A zero move returns the break and changes nothing; a move below the
/// heap's start returns -1 and changes nothing.
pub proof fn lemma_sbrk_zero_and_underflow(t: Task, size: i32, after: Task, r: isize)
    requires
        t.wf(),
        sbrk_outcome(t, size, after, r),
    ensures
        size == 0 ==> r == t.program_brk && after == t,
        t.program_brk + size < t.heap_bottom ==> r == -1 && after == t,
{
}

/// Moves the program break by `size` bytes and returns where it was, or -1,
/// leaving it in place, when it would leave the heap's bounds.
pub fn sys_sbrk(task: &mut Task, size: i32) -> (r: isize)
    requires
        old(task).wf(),
    ensures
        final(task).wf(),
        sbrk_outcome(*old(task), size, *final(task), r),
{
    match task.change_program_brk(size) {
        Some(old_brk) => old_brk as isize,
        None => -1,
    }
}

proof fn lemma_le_bytes_len(x: nat, n: nat)
    ensures
        le_bytes(x, n).len() == n,
    decreases n,
{
    if n > 0 {
        lemma_le_bytes_len(x / 256, (n - 1) as nat);
    }
}

proof fn lemma_counts_bytes_len(times: Seq<u32>)
    ensures
        counts_bytes(times).len() == 4 * times.len(),
    decreases times.len(),
{
    if times.len() > 0 {
        lemma_counts_bytes_len(times.drop_last());
        lemma_le_bytes_len(times.last() as nat, 4);
    }
}

} // verus!
