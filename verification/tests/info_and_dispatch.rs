use taskcore::config::{IDLE_PID, MAX_SYSCALL_NUM, PAGE_SIZE};
use taskcore::mm::flags::{MapPermission, PERM_R, PERM_W, PERM_X};
use taskcore::mm::image::{AppImage, Segment};
use taskcore::syscall::process::{
    status_code, sys_fork, sys_get_time, sys_mmap, sys_task_info, sys_yield, TaskInfo, TimeVal,
};
use taskcore::syscall::{
    syscall, SyscallOutcome, SYSCALL_EXEC, SYSCALL_EXIT, SYSCALL_FORK, SYSCALL_GETPID,
    SYSCALL_GET_TIME, SYSCALL_MMAP, SYSCALL_MUNMAP, SYSCALL_SBRK, SYSCALL_TASK_INFO,
    SYSCALL_WAITPID, SYSCALL_YIELD,
};
use taskcore::task::control_block::TaskStatus;
use taskcore::task::kernel::Kernel;
use taskcore::task::state::App;
use taskcore::task::{
    add_initproc, copy_to_current_user, get_current_task_page_table,
    get_current_task_syscall_count, update_current_task_syscall_count,
};

fn program(entry: usize) -> AppImage {
    AppImage {
        entry,
        segments: vec![
            Segment { start_va: 0x10000, perm: MapPermission { bits: PERM_R | PERM_X }, data: vec![0x13u8; 64] },
            Segment { start_va: 0x20000, perm: MapPermission { bits: PERM_R | PERM_W }, data: vec![0xeeu8; 8192] },
        ],
    }
}

fn boot_at(now_us: usize) -> Kernel {
    let apps: Vec<App> = vec![
        App { name: b"ch5b_initproc".to_vec(), image: program(0x10000) },
        App { name: b"child".to_vec(), image: program(0x10040) },
    ];
    let mut kernel: Kernel = Kernel::new(apps);
    assert!(add_initproc(&mut kernel));
    kernel.set_time(now_us);
    assert!(kernel.run_tasks());
    kernel
}

fn read_current(kernel: &Kernel, va: usize, len: usize) -> Vec<u8> {
    let pid: usize = kernel.current_task().unwrap();
    kernel.task(pid).memory_set().read_bytes(va, len).unwrap()
}

fn le64(bytes: &[u8]) -> u64 {
    let mut value: u64 = 0;
    let mut i: usize = 0;
    while i < 8 {
        value |= (bytes[i] as u64) << (8 * i);
        i += 1;
    }
    value
}

fn le32(bytes: &[u8]) -> u32 {
    let mut value: u32 = 0;
    let mut i: usize = 0;
    while i < 4 {
        value |= (bytes[i] as u32) << (8 * i);
        i += 1;
    }
    value
}

#[test]
fn time_val_from_micros() {
    let tv: TimeVal = TimeVal::from_micros(3_000_007);
    assert_eq!(tv.sec, 3);
    assert_eq!(tv.usec, 7);
    let tv: TimeVal = TimeVal::from_micros(999_999);
    assert_eq!(tv.sec, 0);
    assert_eq!(tv.usec, 999_999);
    let tv: TimeVal = TimeVal::from_micros(0);
    assert_eq!(tv.sec, 0);
    assert_eq!(tv.usec, 0);
}

#[test]
fn time_val_bytes_are_two_little_endian_words() {
    let tv: TimeVal = TimeVal { sec: 0x0102_0304, usec: 0xa0b0 };
    assert_eq!(
        tv.to_bytes(),
        vec![4u8, 3, 2, 1, 0, 0, 0, 0, 0xb0, 0xa0, 0, 0, 0, 0, 0, 0]
    );
}

#[test]
fn status_codes() {
    assert_eq!(status_code(TaskStatus::Ready), 0);
    assert_eq!(status_code(TaskStatus::Running), 1);
    assert_eq!(status_code(TaskStatus::Zombie), 2);
}

#[test]
fn task_info_bytes_layout() {
    let info: TaskInfo = TaskInfo { status: TaskStatus::Zombie, syscall_times: vec![1u32, 0x0a0b_0c0d], time: 0x0102 };
    assert_eq!(
        info.to_bytes(),
        vec![2u8, 0, 0, 0, 1, 0, 0, 0, 0x0d, 0x0c, 0x0b, 0x0a, 0, 0, 0, 0, 2, 1, 0, 0, 0, 0, 0, 0]
    );
    let empty: TaskInfo = TaskInfo { status: TaskStatus::Ready, syscall_times: Vec::new(), time: 0 };
    assert_eq!(empty.to_bytes(), vec![0u8; 16]);
}

#[test]
fn get_time_writes_seconds_and_microseconds() {
    let mut kernel: Kernel = boot_at(0);
    kernel.set_time(12_345_678);
    assert_eq!(sys_get_time(&mut kernel, 0x20010, 0), 0);
    let bytes: Vec<u8> = read_current(&kernel, 0x20010, 16);
    assert_eq!(le64(&bytes[0..8]), 12);
    assert_eq!(le64(&bytes[8..16]), 345_678);
    assert_eq!(read_current(&kernel, 0x2000f, 1), vec![0xeeu8]);
    assert_eq!(read_current(&kernel, 0x20020, 1), vec![0xeeu8]);
}

#[test]
fn get_time_across_a_page_boundary_equals_contiguous_write() {
    let mut kernel: Kernel = boot_at(0);
    kernel.set_time(7_000_123);
    assert_eq!(sys_get_time(&mut kernel, 0x20100, 99), 0);
    let flat: Vec<u8> = read_current(&kernel, 0x20100, 16);
    let mut offset: usize = 1;
    while offset < 16 {
        assert_eq!(sys_get_time(&mut kernel, 0x21000 - offset, 0), 0);
        assert_eq!(read_current(&kernel, 0x21000 - offset, 16), flat);
        offset += 1;
    }
    assert_eq!(flat, TimeVal { sec: 7, usec: 123 }.to_bytes());
}

#[test]
fn get_time_across_pages_of_different_regions() {
    let mut kernel: Kernel = boot_at(0);
    assert_eq!(sys_mmap(&mut kernel, 0x1000_0000, PAGE_SIZE, 3), 0);
    assert_eq!(sys_mmap(&mut kernel, 0x1000_1000, PAGE_SIZE, 3), 0);
    kernel.set_time(1_000_001);
    assert_eq!(sys_get_time(&mut kernel, 0x1000_0ff9, 0), 0);
    assert_eq!(read_current(&kernel, 0x1000_0ff9, 16), TimeVal { sec: 1, usec: 1 }.to_bytes());
}

#[test]
fn get_time_to_unmapped_buffer_fails_and_changes_nothing() {
    let mut kernel: Kernel = boot_at(0);
    kernel.set_time(5_000_000);
    assert_eq!(sys_get_time(&mut kernel, 0x5000_0000, 0), -1);
    assert_eq!(sys_get_time(&mut kernel, 0x22000 - 8, 0), -1);
    assert_eq!(read_current(&kernel, 0x22000 - 8, 8), vec![0xeeu8; 8]);
    assert_eq!(sys_get_time(&mut kernel, usize::MAX - 3, 0), -1);
    assert_eq!(sys_get_time(&mut kernel, 0, 0), -1);
}

#[test]
fn task_info_reports_status_counts_and_elapsed_time() {
    let mut kernel: Kernel = boot_at(2_000_000);
    assert_eq!(sys_mmap(&mut kernel, 0x1000_0000, PAGE_SIZE, 3), 0);
    update_current_task_syscall_count(&mut kernel, 0);
    update_current_task_syscall_count(&mut kernel, SYSCALL_YIELD);
    update_current_task_syscall_count(&mut kernel, SYSCALL_YIELD);
    update_current_task_syscall_count(&mut kernel, MAX_SYSCALL_NUM - 1);
    kernel.set_time(2_750_999);
    assert_eq!(sys_task_info(&mut kernel, 0x1000_0000), 0);
    let bytes: Vec<u8> = read_current(&kernel, 0x1000_0000, 16 + 4 * MAX_SYSCALL_NUM);
    assert_eq!(bytes.len(), 2016);
    assert_eq!(bytes[0..4].to_vec(), vec![1u8, 0, 0, 0]);
    let mut id: usize = 0;
    while id < MAX_SYSCALL_NUM {
        let expected: u32 = if id == 0 || id == MAX_SYSCALL_NUM - 1 {
            1
        } else if id == SYSCALL_YIELD {
            2
        } else {
            0
        };
        assert_eq!(le32(&bytes[4 + 4 * id..8 + 4 * id]), expected);
        id += 1;
    }
    assert_eq!(bytes[2004..2008].to_vec(), vec![0u8; 4]);
    assert_eq!(le64(&bytes[2008..2016]), 750);
    assert_eq!(read_current(&kernel, 0x1000_0000 + 2016, 1), vec![0u8]);
}

#[test]
fn task_info_across_a_page_boundary_equals_contiguous_write() {
    let mut kernel: Kernel = boot_at(1_000);
    update_current_task_syscall_count(&mut kernel, 3);
    update_current_task_syscall_count(&mut kernel, 499);
    kernel.set_time(90_000);
    assert_eq!(sys_task_info(&mut kernel, 0x20000), 0);
    let flat: Vec<u8> = read_current(&kernel, 0x20000, 2016);
    assert_eq!(sys_task_info(&mut kernel, 0x21000 - 1000), 0);
    assert_eq!(read_current(&kernel, 0x21000 - 1000, 2016), flat);
    assert_eq!(sys_task_info(&mut kernel, 0x21000 - 1), 0);
    assert_eq!(read_current(&kernel, 0x21000 - 1, 2016), flat);
    let counts: Vec<u32> = get_current_task_syscall_count(&kernel);
    let info: TaskInfo = TaskInfo { status: TaskStatus::Running, syscall_times: counts, time: 89 };
    assert_eq!(info.to_bytes(), flat);
}

#[test]
fn task_info_to_unmapped_buffer_fails() {
    let mut kernel: Kernel = boot_at(0);
    assert_eq!(sys_task_info(&mut kernel, 0x22000 - 2015), -1);
    assert_eq!(read_current(&kernel, 0x22000 - 2015, 2015), vec![0xeeu8; 2015]);
    assert_eq!(sys_task_info(&mut kernel, 0x22000 - 2016), 0);
    assert_eq!(sys_task_info(&mut kernel, 0x5000_0000), -1);
}

#[test]
fn elapsed_time_counts_from_first_run_of_each_task() {
    let mut kernel: Kernel = boot_at(1_000_000);
    assert_eq!(sys_fork(&mut kernel), 1);
    kernel.set_time(4_000_000);
    assert_eq!(sys_yield(&mut kernel), 0);
    assert_eq!(kernel.current_task(), Some(1));
    kernel.set_time(4_500_000);
    assert_eq!(sys_task_info(&mut kernel, 0x20000), 0);
    assert_eq!(le64(&read_current(&kernel, 0x20000 + 2008, 8)), 500);
    assert_eq!(sys_yield(&mut kernel), 0);
    assert_eq!(kernel.current_task(), Some(0));
    assert_eq!(sys_task_info(&mut kernel, 0x20000), 0);
    assert_eq!(le64(&read_current(&kernel, 0x20000 + 2008, 8)), 3500);
}

#[test]
fn counters_start_at_zero_and_count_up() {
    let mut kernel: Kernel = boot_at(0);
    assert_eq!(get_current_task_syscall_count(&kernel), vec![0u32; MAX_SYSCALL_NUM]);
    update_current_task_syscall_count(&mut kernel, 64);
    update_current_task_syscall_count(&mut kernel, 64);
    update_current_task_syscall_count(&mut kernel, 64);
    let counts: Vec<u32> = get_current_task_syscall_count(&kernel);
    assert_eq!(counts.len(), MAX_SYSCALL_NUM);
    assert_eq!(counts[64], 3);
    assert_eq!(counts[63], 0);
    assert_eq!(counts[65], 0);
}

#[test]
fn dispatcher_counts_before_it_dispatches() {
    let mut kernel: Kernel = boot_at(0);
    assert_eq!(syscall(&mut kernel, SYSCALL_GETPID, [0, 0, 0]), SyscallOutcome::Returned(0));
    assert_eq!(syscall(&mut kernel, SYSCALL_GETPID, [0, 0, 0]), SyscallOutcome::Returned(0));
    assert_eq!(syscall(&mut kernel, SYSCALL_TASK_INFO, [0x20000, 0, 0]), SyscallOutcome::Returned(0));
    let bytes: Vec<u8> = read_current(&kernel, 0x20000, 2016);
    assert_eq!(le32(&bytes[4 + 4 * SYSCALL_GETPID..8 + 4 * SYSCALL_GETPID]), 2);
    assert_eq!(le32(&bytes[4 + 4 * SYSCALL_TASK_INFO..8 + 4 * SYSCALL_TASK_INFO]), 1);
    let counts: Vec<u32> = get_current_task_syscall_count(&kernel);
    assert_eq!(counts[SYSCALL_GETPID], 2);
    assert_eq!(counts[SYSCALL_TASK_INFO], 1);
    assert_eq!(counts[SYSCALL_YIELD], 0);
}

#[test]
fn dispatcher_counts_failed_calls_too() {
    let mut kernel: Kernel = boot_at(0);
    assert_eq!(syscall(&mut kernel, SYSCALL_MMAP, [1, 1, 1]), SyscallOutcome::Returned(-1));
    assert_eq!(syscall(&mut kernel, SYSCALL_WAITPID, [usize::MAX, 0, 0]), SyscallOutcome::Returned(-1));
    let counts: Vec<u32> = get_current_task_syscall_count(&kernel);
    assert_eq!(counts[SYSCALL_MMAP], 1);
    assert_eq!(counts[SYSCALL_WAITPID], 1);
}

#[test]
fn dispatcher_answers_unknown_identifiers_with_minus_one() {
    let mut kernel: Kernel = boot_at(0);
    assert_eq!(syscall(&mut kernel, 1, [0, 0, 0]), SyscallOutcome::Returned(-1));
    assert_eq!(syscall(&mut kernel, MAX_SYSCALL_NUM, [0, 0, 0]), SyscallOutcome::Returned(-1));
    assert_eq!(syscall(&mut kernel, usize::MAX, [0, 0, 0]), SyscallOutcome::Returned(-1));
    let counts: Vec<u32> = get_current_task_syscall_count(&kernel);
    assert_eq!(counts[1], 1);
    assert_eq!(counts.iter().map(|c| *c as usize).sum::<usize>(), 1);
    assert_eq!(kernel.task(0).trap_cx().a0, usize::MAX);
}

#[test]
fn dispatcher_routes_memory_calls() {
    let mut kernel: Kernel = boot_at(0);
    assert_eq!(syscall(&mut kernel, SYSCALL_MMAP, [0x1000_0000, 8192, 3]), SyscallOutcome::Returned(0));
    assert!(get_current_task_page_table(&kernel, 0x10001).is_some());
    assert_eq!(syscall(&mut kernel, SYSCALL_MUNMAP, [0x1000_0000, 4096, 0]), SyscallOutcome::Returned(0));
    assert_eq!(get_current_task_page_table(&kernel, 0x10000), None);
    assert!(get_current_task_page_table(&kernel, 0x10001).is_some());
    assert_eq!(syscall(&mut kernel, SYSCALL_SBRK, [16, 0, 0]), SyscallOutcome::Returned(0x22000 + 4096 + 8192));
    assert_eq!(kernel.task(0).trap_cx().a0, 0x25000);
    assert_eq!(
        syscall(&mut kernel, SYSCALL_SBRK, [(-16isize) as usize, 0, 0]),
        SyscallOutcome::Returned(0x25010)
    );
    assert_eq!(
        syscall(&mut kernel, SYSCALL_SBRK, [(-1isize) as usize, 0, 0]),
        SyscallOutcome::Returned(-1)
    );
    kernel.set_time(3_000_004);
    assert_eq!(syscall(&mut kernel, SYSCALL_GET_TIME, [0x20000, 0, 0]), SyscallOutcome::Returned(0));
    assert_eq!(read_current(&kernel, 0x20000, 16), TimeVal { sec: 3, usec: 4 }.to_bytes());
}

#[test]
fn dispatcher_fork_gives_pid_to_parent_and_zero_to_child() {
    let mut kernel: Kernel = boot_at(0);
    assert_eq!(syscall(&mut kernel, SYSCALL_FORK, [0, 0, 0]), SyscallOutcome::Returned(1));
    assert_eq!(kernel.task(0).trap_cx().a0, 1);
    assert_eq!(kernel.task(1).trap_cx().a0, 0);
    assert_eq!(syscall(&mut kernel, SYSCALL_WAITPID, [usize::MAX, 0, 0]), SyscallOutcome::Returned(-2));
    assert_eq!(kernel.task(0).trap_cx().a0, (-2isize) as usize);
    assert_eq!(syscall(&mut kernel, SYSCALL_YIELD, [0, 0, 0]), SyscallOutcome::Returned(0));
    assert_eq!(kernel.current_task(), Some(1));
    assert_eq!(kernel.task(0).trap_cx().a0, 0);
    assert_eq!(kernel.task(1).trap_cx().a0, 0);
    assert_eq!(syscall(&mut kernel, SYSCALL_GETPID, [0, 0, 0]), SyscallOutcome::Returned(1));
    assert_eq!(kernel.task(1).trap_cx().a0, 1);
    let counts: Vec<u32> = get_current_task_syscall_count(&kernel);
    assert_eq!(counts[SYSCALL_FORK], 1);
    assert_eq!(counts[SYSCALL_GETPID], 1);
    assert_eq!(counts[SYSCALL_WAITPID], 0);
}

#[test]
fn dispatcher_exit_of_child_then_wait_in_parent() {
    let mut kernel: Kernel = boot_at(0);
    assert_eq!(syscall(&mut kernel, SYSCALL_FORK, [0, 0, 0]), SyscallOutcome::Returned(1));
    assert_eq!(syscall(&mut kernel, SYSCALL_YIELD, [0, 0, 0]), SyscallOutcome::Returned(0));
    assert_eq!(syscall(&mut kernel, SYSCALL_EXIT, [(-3isize) as usize, 0, 0]), SyscallOutcome::Exited);
    assert_eq!(kernel.current_task(), Some(0));
    assert_eq!(kernel.task(1).status(), TaskStatus::Zombie);
    assert_eq!(kernel.task(1).exit_code(), -3);
    assert_eq!(kernel.task(1).syscall_times()[SYSCALL_EXIT], 1);
    assert_eq!(syscall(&mut kernel, SYSCALL_WAITPID, [1, 0x20000, 0]), SyscallOutcome::Returned(1));
    assert_eq!(read_current(&kernel, 0x20000, 4), vec![0xfdu8, 0xff, 0xff, 0xff]);
    assert!(!kernel.has_task(1));
}

#[test]
fn dispatcher_exit_of_idle_process_halts() {
    let mut kernel: Kernel = boot_at(0);
    assert_eq!(syscall(&mut kernel, SYSCALL_FORK, [0, 0, 0]), SyscallOutcome::Returned(1));
    assert_eq!(syscall(&mut kernel, SYSCALL_EXIT, [0, 0, 0]), SyscallOutcome::Halted);
    assert_eq!(kernel.current_task(), Some(IDLE_PID));
    assert_eq!(kernel.task(0).status(), TaskStatus::Running);
    assert_eq!(kernel.task(0).children(), vec![1usize]);
    assert_eq!(kernel.ready_len(), 1);
}

#[test]
fn dispatcher_exec() {
    let mut kernel: Kernel = boot_at(0);
    assert!(copy_to_current_user(&mut kernel, 0x20000, &vec![b'c', b'h', b'i', b'l', b'd', 0]));
    assert_eq!(syscall(&mut kernel, SYSCALL_EXEC, [0x20001, 0, 0]), SyscallOutcome::Returned(-1));
    assert_eq!(kernel.task(0).trap_cx().sepc, 0x10000);
    assert_eq!(syscall(&mut kernel, SYSCALL_EXEC, [0x20000, 0, 0]), SyscallOutcome::Returned(0));
    assert_eq!(kernel.task(0).trap_cx().sepc, 0x10040);
    assert_eq!(kernel.task(0).trap_cx().a0, 0);
    assert_eq!(kernel.task(0).syscall_times()[SYSCALL_EXEC], 2);
}
