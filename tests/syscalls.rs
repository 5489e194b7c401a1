use process_syscalls::config::{PAGE_SIZE, PERM_R, PERM_W, PERM_X};
use process_syscalls::mm::{AddressFault, MemorySet, PhysMemory, VirtAddr};
use process_syscalls::process::{
    sys_exit, sys_get_time, sys_mmap, sys_munmap, sys_sbrk, sys_task_info, sys_yield, TaskInfo,
    TimeVal, TASK_INFO_SIZE, TIME_VAL_SIZE,
};
use process_syscalls::task::{Task, TaskStatus};

fn fresh_task(frames: usize) -> Task {
    Task::new(MemorySet::new(0, frames), 1_000, 0x8000, 0x10000)
}

fn le_u64(b: &[u8]) -> u64 {
    let mut v: u64 = 0;
    for (i, x) in b.iter().enumerate() {
        v |= (*x as u64) << (8 * i);
    }
    v
}

#[test]
fn map_rw_then_unmap_faults() {
    let mut task = fresh_task(8);
    let mut mem = PhysMemory::new(8);
    assert_eq!(sys_mmap(&mut task, 0x10000, 2 * PAGE_SIZE, 3), 0);
    assert_eq!(sys_get_time(&task, &mut mem, 0x10000, 0, 7_000_123), 0);
    assert!(task.memory_set.translate(0x10000, PERM_W).is_some());
    assert!(task.memory_set.translate(0x11fff, PERM_R | PERM_W).is_some());
    assert!(task.memory_set.translate(0x10000, PERM_X).is_none());
    assert_eq!(sys_munmap(&mut task, 0x10000, 2 * PAGE_SIZE), 0);
    assert!(task.memory_set.translate(0x10000, PERM_R).is_none());
    assert!(task.memory_set.translate(0x11000, PERM_R).is_none());
    assert_eq!(task.memory_set.copy_in(&mem, 0x10000, 4), Err(AddressFault::Unmapped));
    assert_eq!(sys_get_time(&task, &mut mem, 0x10000, 0, 1), -1);
}

#[test]
fn time_val_straddles_noncontiguous_frames() {
    let mut task = fresh_task(8);
    let mut mem = PhysMemory::new(8);
    // frames 0, 1, 2 go to these pages in this order, so 0x20000 and 0x21000
    // sit on frames 0 and 2
    assert_eq!(sys_mmap(&mut task, 0x20000, PAGE_SIZE, 3), 0);
    assert_eq!(sys_mmap(&mut task, 0x50000, PAGE_SIZE, 3), 0);
    assert_eq!(sys_mmap(&mut task, 0x21000, PAGE_SIZE, 3), 0);
    assert_eq!(task.memory_set.translate(0x20ff8, PERM_W), Some(0xff8));
    assert_eq!(task.memory_set.translate(0x21000, PERM_W), Some(2 * PAGE_SIZE));
    let now: usize = 3_500_001;
    assert_eq!(sys_get_time(&task, &mut mem, 0x20ff8, 0, now), 0);
    let back = task.memory_set.copy_in(&mem, 0x20ff8, TIME_VAL_SIZE).unwrap();
    assert_eq!(back, TimeVal::from_us(now).to_bytes());
    assert_eq!(le_u64(&back[0..8]), 3);
    assert_eq!(le_u64(&back[8..16]), 500_001);
    // the microseconds went to the start of frame 2, not to frame 1
    let usec: Vec<u8> = (0..8).map(|i| mem.read(2 * PAGE_SIZE + i)).collect();
    assert_eq!(le_u64(&usec), 500_001);
    assert!((0..PAGE_SIZE).all(|i| mem.read(PAGE_SIZE + i) == 0));
}

#[test]
fn task_info_straddles_noncontiguous_frames() {
    let mut task = fresh_task(8);
    let mut mem = PhysMemory::new(8);
    assert_eq!(sys_mmap(&mut task, 0x20000, PAGE_SIZE, 2), 0);
    assert_eq!(sys_mmap(&mut task, 0x70000, PAGE_SIZE, 3), 0);
    assert_eq!(sys_mmap(&mut task, 0x21000, PAGE_SIZE, 7), 0);
    task.record_syscall(64);
    task.record_syscall(64);
    task.record_syscall(499);
    assert_eq!(sys_task_info(&task, &mut mem, 0x20800, 1_000 + 2_345_678), 0);
    let back = task.memory_set.copy_in(&mem, 0x20800, TASK_INFO_SIZE);
    // the first page is write-only, so the kernel cannot read it back
    assert_eq!(back, Err(AddressFault::Unmapped));
    let mut bytes: Vec<u8> = Vec::new();
    for i in 0..TASK_INFO_SIZE {
        let pa = task.memory_set.translate(0x20800 + i, PERM_W).unwrap();
        bytes.push(mem.read(pa));
    }
    assert_eq!(bytes.len(), 2016);
    assert_eq!(le_u64(&bytes[0..4]), 2);
    assert_eq!(le_u64(&bytes[4 + 4 * 64..8 + 4 * 64]), 2);
    assert_eq!(le_u64(&bytes[4 + 4 * 499..8 + 4 * 499]), 1);
    assert_eq!(le_u64(&bytes[8..12]), 0);
    assert_eq!(le_u64(&bytes[2008..2016]), 2_345);
    let mut times = vec![0u32; 500];
    times[64] = 2;
    times[499] = 1;
    let expected = TaskInfo { status: TaskStatus::Running, syscall_times: times, time: 2_345 };
    assert_eq!(bytes, expected.to_bytes());
}

#[test]
fn record_on_unmapped_page_fails_and_leaves_memory() {
    let mut task = fresh_task(4);
    let mut mem = PhysMemory::new(4);
    assert_eq!(sys_mmap(&mut task, 0x3000, PAGE_SIZE, 3), 0);
    // the record's second half falls on an unmapped page
    assert_eq!(sys_get_time(&task, &mut mem, 0x3ffc, 0, 99), -1);
    assert!((0..4 * PAGE_SIZE).all(|i| mem.read(i) == 0));
    assert_eq!(sys_task_info(&task, &mut mem, 0x3100, 1_000), 0);
    assert_eq!(sys_task_info(&task, &mut mem, 0x3900, 1_000), -1);
}

#[test]
fn read_only_page_refuses_kernel_write() {
    let mut task = fresh_task(4);
    let mut mem = PhysMemory::new(4);
    assert_eq!(sys_mmap(&mut task, 0x3000, PAGE_SIZE, 1), 0);
    assert_eq!(sys_get_time(&task, &mut mem, 0x3000, 0, 5), -1);
    assert_eq!(task.memory_set.copy_in(&mem, 0x3000, 16), Ok(vec![0u8; 16]));
}

#[test]
fn address_range_past_top_faults() {
    let mut task = fresh_task(4);
    let mut mem = PhysMemory::new(4);
    assert_eq!(sys_get_time(&task, &mut mem, usize::MAX - 3, 0, 5), -1);
    let mut data = Vec::new();
    data.push(1u8);
    data.push(2u8);
    assert_eq!(task.memory_set.copy_out(&mut mem, usize::MAX, &data), Err(AddressFault::Overflow));
    assert_eq!(sys_mmap(&mut task, 0, PAGE_SIZE, 3), 0);
    task.memory_set = MemorySet::new(0, 4);
    assert!(task.memory_set.translate(0, PERM_R).is_none());
}

#[test]
fn frame_beyond_memory_faults() {
    let mut task = fresh_task(8);
    let mut mem = PhysMemory::new(1);
    assert_eq!(sys_mmap(&mut task, 0x1000, 2 * PAGE_SIZE, 3), 0);
    assert_eq!(sys_get_time(&task, &mut mem, 0x1000, 0, 5), 0);
    assert_eq!(sys_get_time(&task, &mut mem, 0x1ff8, 0, 5), -1);
    assert_eq!(task.memory_set.copy_in(&mem, 0x2000, 1), Err(AddressFault::NoFrame));
}

#[test]
fn map_then_unmap_restores_space() {
    let mut task = fresh_task(16);
    assert_eq!(sys_mmap(&mut task, 0x4000, PAGE_SIZE, 1), 0);
    assert_eq!(sys_mmap(&mut task, 0x8000, 3 * PAGE_SIZE, 3), 0);
    assert_eq!(sys_munmap(&mut task, 0x8000, 3 * PAGE_SIZE), 0);
    for va in [0x8000usize, 0x9000, 0xa000] {
        assert!(task.memory_set.translate(va, 0).is_none());
    }
    assert_eq!(task.memory_set.translate(0x4000, PERM_R), Some(0));
    assert_eq!(sys_mmap(&mut task, 0x8000, 3 * PAGE_SIZE, 3), 0);
    // the same frames come back, in the same order
    assert_eq!(task.memory_set.translate(0x8000, PERM_W), Some(PAGE_SIZE));
    assert_eq!(task.memory_set.translate(0x9000, PERM_W), Some(2 * PAGE_SIZE));
    assert_eq!(task.memory_set.translate(0xa000, PERM_W), Some(3 * PAGE_SIZE));
}

#[test]
fn zero_length_requests() {
    let mut task = fresh_task(4);
    assert_eq!(sys_mmap(&mut task, 0x1000, 0, 1), 0);
    assert_eq!(sys_mmap(&mut task, 0x1001, 0, 1), -1);
    assert_eq!(sys_mmap(&mut task, 0x1000, 0, 0), -1);
    assert_eq!(sys_munmap(&mut task, 0x1000, 0), 0);
    assert_eq!(sys_munmap(&mut task, 0x1001, 0), -1);
    assert!(task.memory_set.translate(0x1000, 0).is_none());
}

#[test]
fn malformed_permissions_refused() {
    let mut task = fresh_task(16);
    for port in [0usize, 8, 9, 0x17, 0xf, usize::MAX] {
        assert_eq!(sys_mmap(&mut task, 0x1000, PAGE_SIZE, port), -1);
        assert!(task.memory_set.translate(0x1000, 0).is_none());
    }
    for port in 1usize..=7 {
        let start = port * 0x10000;
        assert_eq!(sys_mmap(&mut task, start, 1, port), 0);
    }
    assert!(task.memory_set.translate(0x70000, PERM_R | PERM_W | PERM_X).is_some());
    assert!(task.memory_set.translate(0x40000, PERM_X).is_some());
    assert!(task.memory_set.translate(0x40000, PERM_R).is_none());
}

#[test]
fn unaligned_start_refused() {
    let mut task = fresh_task(4);
    assert_eq!(sys_mmap(&mut task, 0x1004, PAGE_SIZE, 3), -1);
    assert!(task.memory_set.translate(0x1004, 0).is_none());
    assert!(!VirtAddr(0x1004).aligned());
    assert!(VirtAddr(0x2000).aligned());
    assert_eq!(VirtAddr(0x2fff).floor(), 2);
}

#[test]
fn overlapping_map_refused() {
    let mut task = fresh_task(16);
    assert_eq!(sys_mmap(&mut task, 0x5000, PAGE_SIZE, 1), 0);
    assert_eq!(sys_mmap(&mut task, 0x3000, 3 * PAGE_SIZE, 3), -1);
    assert!(task.memory_set.translate(0x3000, 0).is_none());
    assert!(task.memory_set.translate(0x4000, 0).is_none());
    assert_eq!(task.memory_set.translate(0x5000, PERM_R), Some(0));
    assert!(task.memory_set.translate(0x5000, PERM_W).is_none());
    // a partial last page still counts as the whole page
    assert_eq!(sys_mmap(&mut task, 0x4000, PAGE_SIZE + 1, 3), -1);
    assert_eq!(sys_mmap(&mut task, 0x4000, PAGE_SIZE, 3), 0);
    assert_eq!(task.memory_set.translate(0x4000, PERM_W), Some(PAGE_SIZE));
}

#[test]
fn unmap_with_hole_refused() {
    let mut task = fresh_task(16);
    assert_eq!(sys_mmap(&mut task, 0x1000, PAGE_SIZE, 3), 0);
    assert_eq!(sys_mmap(&mut task, 0x3000, PAGE_SIZE, 3), 0);
    assert_eq!(sys_munmap(&mut task, 0x1000, 3 * PAGE_SIZE), -1);
    assert!(task.memory_set.translate(0x1000, PERM_R).is_some());
    assert!(task.memory_set.translate(0x3000, PERM_R).is_some());
    assert_eq!(sys_munmap(&mut task, 0x1000, 1), 0);
    assert_eq!(sys_munmap(&mut task, 0x1000, 1), -1);
    assert_eq!(sys_munmap(&mut task, 0x3001, PAGE_SIZE), -1);
    assert!(task.memory_set.translate(0x3000, PERM_R).is_some());
}

#[test]
fn frames_run_out() {
    let mut task = fresh_task(2);
    assert_eq!(sys_mmap(&mut task, 0x1000, 3 * PAGE_SIZE, 3), -1);
    assert!(task.memory_set.translate(0x1000, 0).is_none());
    assert_eq!(sys_mmap(&mut task, 0x1000, 2 * PAGE_SIZE, 3), 0);
    assert_eq!(sys_mmap(&mut task, 0x9000, 1, 3), -1);
    // frames given back by an unmap can be mapped again
    assert_eq!(sys_munmap(&mut task, 0x2000, PAGE_SIZE), 0);
    assert_eq!(sys_mmap(&mut task, 0x9000, 1, 3), 0);
    assert_eq!(task.memory_set.translate(0x9000, PERM_R), Some(PAGE_SIZE));
    assert_eq!(sys_mmap(&mut task, 0xa000, 1, 3), -1);
}

#[test]
fn range_past_top_refused() {
    let mut task = fresh_task(4);
    let top = usize::MAX - (PAGE_SIZE - 1);
    assert_eq!(sys_mmap(&mut task, top, PAGE_SIZE, 3), -1);
    assert_eq!(sys_mmap(&mut task, top, PAGE_SIZE - 1, 3), 0);
    assert_eq!(sys_munmap(&mut task, top, PAGE_SIZE), -1);
    assert_eq!(sys_munmap(&mut task, top, 10), 0);
}

#[test]
fn sbrk_moves_break_within_heap() {
    let mut task = fresh_task(4);
    assert_eq!(sys_sbrk(&mut task, 0), 0x8000);
    assert_eq!(task.program_brk, 0x8000);
    assert_eq!(sys_sbrk(&mut task, -1), -1);
    assert_eq!(task.program_brk, 0x8000);
    assert_eq!(sys_sbrk(&mut task, 0x1000), 0x8000);
    assert_eq!(sys_sbrk(&mut task, 0), 0x9000);
    assert_eq!(sys_sbrk(&mut task, -0x1001), -1);
    assert_eq!(sys_sbrk(&mut task, -0x800), 0x9000);
    assert_eq!(task.program_brk, 0x8800);
    assert_eq!(sys_sbrk(&mut task, 0x7800), 0x8800);
    assert_eq!(task.program_brk, 0x10000);
    assert_eq!(sys_sbrk(&mut task, 1), -1);
    assert_eq!(sys_sbrk(&mut task, i32::MIN), -1);
    assert_eq!(task.program_brk, 0x10000);
}

#[test]
fn yield_and_exit_change_status() {
    let mut task = fresh_task(4);
    task.status = TaskStatus::Running;
    assert_eq!(sys_yield(&mut task), 0);
    assert_eq!(task.status, TaskStatus::Ready);
    assert_eq!(task.exit_code, None);
    sys_exit(&mut task, -3);
    assert_eq!(task.status, TaskStatus::Exited);
    assert_eq!(task.exit_code, Some(-3));
    assert_eq!(task.program_brk, 0x8000);
}

#[test]
fn time_val_split_and_bytes() {
    let tv = TimeVal::from_us(3_500_001);
    assert_eq!(tv, TimeVal { sec: 3, usec: 500_001 });
    assert_eq!(TimeVal::from_us(999_999), TimeVal { sec: 0, usec: 999_999 });
    let b = TimeVal { sec: 0x0102, usec: 0x0a0b0c }.to_bytes();
    assert_eq!(b, vec![2, 1, 0, 0, 0, 0, 0, 0, 0x0c, 0x0b, 0x0a, 0, 0, 0, 0, 0]);
}

#[test]
fn syscall_counts_saturate() {
    let mut task = fresh_task(4);
    task.syscall_times[7] = u32::MAX - 1;
    task.record_syscall(7);
    assert_eq!(task.syscall_times[7], u32::MAX);
    task.record_syscall(7);
    assert_eq!(task.syscall_times[7], u32::MAX);
    task.record_syscall(0);
    assert_eq!(task.syscall_times[0], 1);
    assert_eq!(TaskStatus::Exited.code(), 3);
}

#[test]
fn physical_memory_starts_zeroed() {
    let mem = PhysMemory::new(2);
    assert_eq!(mem.len(), 2 * PAGE_SIZE);
    assert_eq!(mem.read(2 * PAGE_SIZE - 1), 0);
}
