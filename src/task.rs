//! The calling task as this layer sees it: its address space, its status,
//! its per-call counters, when it started, and its program break.
use vstd::prelude::*;
use crate::config::MAX_SYSCALL_NUM;
use crate::mm::MemorySet;

verus! {

/// Where a task is in its life cycle.
#[derive(Clone, Copy, Debug, PartialEq, Eq, Structural)]
pub enum TaskStatus {
    UnInit,
    Ready,
    Running,
    Exited,
}

/// Number a status is written as in a user record.
pub open spec fn status_code(s: TaskStatus) -> u32 {
    match s {
        TaskStatus::UnInit => 0,
        TaskStatus::Ready => 1,
        TaskStatus::Running => 2,
        TaskStatus::Exited => 3,
    }
}

impl TaskStatus {
    pub fn code(&self) -> (r: u32)
        ensures
            r == status_code(*self),
    {
        match self {
            TaskStatus::UnInit => 0,
            TaskStatus::Ready => 1,
            TaskStatus::Running => 2,
            TaskStatus::Exited => 3,
        }
    }
}

/// One task: the state that the process-control calls read or change.
pub struct Task {
    /// The task's address space.
    pub memory_set: MemorySet,
    /// Where the task is in its life cycle.
    pub status: TaskStatus,
    /// How often the task has made each system call, by call number.
    pub syscall_times: Vec<u32>,
    /// Clock reading, in microseconds, when the task first ran.
    pub start_time_us: usize,
    /// Start of the heap segment: the break never goes below it.
    pub heap_bottom: usize,
    /// Current end of the heap segment.
    pub program_brk: usize,
    /// Highest value the break may take.
    pub heap_end: usize,
    /// The code the task exited with, once it has.
    pub exit_code: Option<i32>,
}

impl Task {
    pub open spec fn wf(&self) -> bool {
        &&& self.memory_set.wf()
        &&& self.syscall_times@.len() == MAX_SYSCALL_NUM
        &&& self.heap_bottom <= self.program_brk <= self.heap_end
        &&& self.heap_end <= isize::MAX
    }

    /// A ready task over `memory_set`, started at `start_time_us`, with an
    /// empty heap at `heap_bottom` that may grow up to `heap_end`.
    pub fn new(memory_set: MemorySet, start_time_us: usize, heap_bottom: usize, heap_end: usize) -> (r: Task)
        requires
            memory_set.wf(),
            heap_bottom <= heap_end <= isize::MAX,
        ensures
            r.wf(),
            r.memory_set == memory_set,
            r.status == TaskStatus::Ready,
            r.syscall_times@ == Seq::new(MAX_SYSCALL_NUM as nat, |i: int| 0u32),
            r.start_time_us == start_time_us,
            r.heap_bottom == heap_bottom,
            r.program_brk == heap_bottom,
            r.heap_end == heap_end,
            r.exit_code.is_none(),
    {
        let mut times: Vec<u32> = Vec::new();
        while times.len() < MAX_SYSCALL_NUM
            invariant
                times@.len() <= MAX_SYSCALL_NUM,
                forall|i: int| 0 <= i < times@.len() ==> times@[i] == 0u32,
            decreases MAX_SYSCALL_NUM - times@.len(),
        {
            times.push(0u32);
        }
        assert(times@ =~= Seq::new(MAX_SYSCALL_NUM as nat, |i: int| 0u32));
        Task {
            memory_set,
            status: TaskStatus::Ready,
            syscall_times: times,
            start_time_us,
            heap_bottom,
            program_brk: heap_bottom,
            heap_end,
            exit_code: None,
        }
    }

    /// Counts one more call of system call `id`; a count at its maximum stays there.
    pub fn record_syscall(&mut self, id: usize)
        requires
            old(self).wf(),
            id < MAX_SYSCALL_NUM,
        ensures
            final(self).wf(),
            final(self).syscall_times@ == old(self).syscall_times@.update(
                id as int,
                if old(self).syscall_times@[id as int] < u32::MAX {
                    (old(self).syscall_times@[id as int] + 1) as u32
                } else {
                    u32::MAX
                },
            ),
            (Task { syscall_times: final(self).syscall_times, ..*old(self) }) == *final(self),
    {
        let c = self.syscall_times[id];
        if c < u32::MAX {
            self.syscall_times.set(id, c + 1);
        }
        assert(self.syscall_times@ =~= old(self).syscall_times@.update(
            id as int,
            if c < u32::MAX { (c + 1) as u32 } else { u32::MAX },
        ));
    }

    /// Moves the break by `delta` bytes. Returns the break before the move, or
    /// `None`, leaving it in place, when the new break would fall below the
    /// heap's start or beyond its end.
    pub fn change_program_brk(&mut self, delta: i32) -> (r: Option<usize>)
        requires
            old(self).wf(),
        ensures
            final(self).wf(),
            ({
                let nb = old(self).program_brk + delta;
                if old(self).heap_bottom <= nb <= old(self).heap_end {
                    &&& r == Some(old(self).program_brk)
                    &&& *final(self) == (Task { program_brk: nb as usize, ..*old(self) })
                } else {
                    r.is_none() && *final(self) == *old(self)
                }
            }),
    {
        let old_brk = self.program_brk;
        if delta < 0 {
            let dec: usize = (-(delta as i64)) as usize;
            if dec > old_brk - self.heap_bottom {
                return None;
            }
            self.program_brk = old_brk - dec;
        } else {
            let inc: usize = delta as usize;
            if inc > self.heap_end - old_brk {
                return None;
            }
            self.program_brk = old_brk + inc;
        }
        Some(old_brk)
    }
}

} // verus!
