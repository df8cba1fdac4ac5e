use taskcore::config::{MAXVA, PAGE_SIZE};
use taskcore::mm::flags::{MapPermission, PageTableEntry, PERM_R, PERM_U, PERM_W, PERM_X, PTE_V};
use taskcore::mm::image::{AppImage, Segment};
use taskcore::syscall::process::{
    sys_exec, sys_exit, sys_fork, sys_mmap, sys_munmap, sys_sbrk, sys_waitpid, sys_yield,
};
use taskcore::task::control_block::{TaskStatus, TrapContext};
use taskcore::task::kernel::{bytes_equal, Kernel};
use taskcore::task::state::App;
use taskcore::task::{
    add_initproc, change_program_brk, copy_to_current_user, create_new_map_area,
    get_current_task_page_table, read_current_user_text, unmap_consecutive_area,
};

fn program(entry: usize, fill: u8) -> AppImage {
    AppImage {
        entry,
        segments: vec![
            Segment { start_va: 0x10000, perm: MapPermission { bits: PERM_R | PERM_X }, data: vec![fill; 64] },
            Segment { start_va: 0x20000, perm: MapPermission { bits: PERM_R | PERM_W }, data: vec![0u8; 4096] },
        ],
    }
}

fn boot() -> Kernel {
    let apps: Vec<App> = vec![
        App { name: b"ch5b_initproc".to_vec(), image: program(0x10000, 0x13) },
        App { name: b"child".to_vec(), image: program(0x10040, 0x37) },
        App {
            name: b"broken".to_vec(),
            image: AppImage {
                entry: 0,
                segments: vec![Segment { start_va: 0x10001, perm: MapPermission { bits: PERM_R }, data: vec![1u8] }],
            },
        },
    ];
    let mut kernel: Kernel = Kernel::new(apps);
    assert!(add_initproc(&mut kernel));
    assert!(kernel.run_tasks());
    kernel
}

fn read_current(kernel: &Kernel, va: usize, len: usize) -> Option<Vec<u8>> {
    let pid: usize = kernel.current_task().unwrap();
    kernel.task(pid).memory_set().read_bytes(va, len)
}

#[test]
fn bytes_equal_compares_contents() {
    assert!(bytes_equal(&vec![1u8, 2, 3], &vec![1u8, 2, 3]));
    assert!(!bytes_equal(&vec![1u8, 2, 3], &vec![1u8, 2, 4]));
    assert!(!bytes_equal(&vec![1u8, 2, 3], &vec![1u8, 2]));
    assert!(bytes_equal(&Vec::new(), &Vec::new()));
}

#[test]
fn mmap_then_translate_then_munmap() {
    let mut kernel: Kernel = boot();
    let ports: Vec<(usize, u8)> = vec![(1, PERM_R), (2, PERM_W), (4, PERM_X)];
    let mut i: usize = 0;
    while i < ports.len() {
        let (port, bit) = ports[i];
        let start: usize = 0x1000_0000 + i * 0x10_0000;
        assert_eq!(sys_mmap(&mut kernel, start, 3 * PAGE_SIZE, port), 0);
        let mut page: usize = 0;
        while page < 3 {
            let entry: PageTableEntry = get_current_task_page_table(&kernel, start / PAGE_SIZE + page).unwrap();
            assert!(entry.is_valid());
            assert!(entry.user());
            assert_eq!(entry.readable(), port == 1);
            assert_eq!(entry.writable(), port == 2);
            assert_eq!(entry.executable(), port == 4);
            assert_eq!(entry.flags, bit | PERM_U | PTE_V);
            page += 1;
        }
        assert_eq!(get_current_task_page_table(&kernel, start / PAGE_SIZE + 3), None);
        assert_eq!(sys_munmap(&mut kernel, start, 3 * PAGE_SIZE), 0);
        page = 0;
        while page < 3 {
            assert_eq!(get_current_task_page_table(&kernel, start / PAGE_SIZE + page), None);
            page += 1;
        }
        i += 1;
    }
}

#[test]
fn mmap_length_rounds_up_to_pages() {
    let mut kernel: Kernel = boot();
    assert_eq!(sys_mmap(&mut kernel, 0x1000_0000, 1, 3), 0);
    assert_eq!(
        get_current_task_page_table(&kernel, 0x10000),
        Some(PageTableEntry { flags: PERM_R | PERM_W | PERM_U | PTE_V })
    );
    assert_eq!(get_current_task_page_table(&kernel, 0x10001), None);
    assert_eq!(sys_mmap(&mut kernel, 0x1000_1000, PAGE_SIZE + 1, 7), 0);
    assert!(get_current_task_page_table(&kernel, 0x10001).is_some());
    assert!(get_current_task_page_table(&kernel, 0x10002).is_some());
    assert_eq!(get_current_task_page_table(&kernel, 0x10003), None);
}

#[test]
fn mmap_of_zero_length_maps_nothing() {
    let mut kernel: Kernel = boot();
    assert_eq!(sys_mmap(&mut kernel, 0x1000_0000, 0, 1), 0);
    assert_eq!(get_current_task_page_table(&kernel, 0x10000), None);
}

#[test]
fn mmap_memory_is_zeroed_and_writable_by_kernel_copy() {
    let mut kernel: Kernel = boot();
    assert_eq!(sys_mmap(&mut kernel, 0x1000_0000, 2 * PAGE_SIZE, 3), 0);
    assert_eq!(read_current(&kernel, 0x1000_0000, 2 * PAGE_SIZE), Some(vec![0u8; 2 * PAGE_SIZE]));
    assert!(copy_to_current_user(&mut kernel, 0x1000_0ffe, &vec![1u8, 2, 3, 4]));
    assert_eq!(read_current(&kernel, 0x1000_0ffd, 6), Some(vec![0u8, 1, 2, 3, 4, 0]));
}

#[test]
fn mmap_rejects_invalid_arguments() {
    let mut kernel: Kernel = boot();
    assert_eq!(sys_mmap(&mut kernel, 0x1000_0001, PAGE_SIZE, 1), -1);
    assert_eq!(sys_mmap(&mut kernel, 0x1000_0000, PAGE_SIZE, 0), -1);
    assert_eq!(sys_mmap(&mut kernel, 0x1000_0000, PAGE_SIZE, 8), -1);
    assert_eq!(sys_mmap(&mut kernel, 0x1000_0000, PAGE_SIZE, 9), -1);
    assert_eq!(sys_mmap(&mut kernel, 0x1000_0000, PAGE_SIZE, usize::MAX), -1);
    assert_eq!(sys_mmap(&mut kernel, MAXVA, PAGE_SIZE, 1), -1);
    assert_eq!(sys_mmap(&mut kernel, MAXVA + PAGE_SIZE, PAGE_SIZE, 1), -1);
    assert_eq!(sys_mmap(&mut kernel, 0x1000_0000, usize::MAX, 1), -1);
    assert_eq!(get_current_task_page_table(&kernel, 0x10000), None);
    assert_eq!(sys_mmap(&mut kernel, MAXVA - PAGE_SIZE, PAGE_SIZE, 1), 0);
}

#[test]
fn mmap_over_existing_mapping_fails_and_changes_nothing() {
    let mut kernel: Kernel = boot();
    assert_eq!(sys_mmap(&mut kernel, 0x1000_1000, PAGE_SIZE, 1), 0);
    assert!(copy_to_current_user(&mut kernel, 0x1000_1000, &vec![5u8, 6]));
    assert_eq!(sys_mmap(&mut kernel, 0x1000_0000, 3 * PAGE_SIZE, 2), -1);
    assert_eq!(sys_mmap(&mut kernel, 0x1000_1000, 1, 4), -1);
    assert_eq!(get_current_task_page_table(&kernel, 0x10000), None);
    assert_eq!(get_current_task_page_table(&kernel, 0x10002), None);
    assert_eq!(
        get_current_task_page_table(&kernel, 0x10001),
        Some(PageTableEntry { flags: PERM_R | PERM_U | PTE_V })
    );
    assert_eq!(read_current(&kernel, 0x1000_1000, 2), Some(vec![5u8, 6]));
    assert_eq!(sys_mmap(&mut kernel, 0x10000, PAGE_SIZE, 1), -1);
    assert_eq!(
        get_current_task_page_table(&kernel, 0x10),
        Some(PageTableEntry { flags: PERM_R | PERM_X | PERM_U | PTE_V })
    );
}

#[test]
fn munmap_rejects_invalid_start() {
    let mut kernel: Kernel = boot();
    assert_eq!(sys_mmap(&mut kernel, 0x1000_0000, PAGE_SIZE, 1), 0);
    assert_eq!(sys_munmap(&mut kernel, 0x1000_0008, PAGE_SIZE), -1);
    assert_eq!(sys_munmap(&mut kernel, MAXVA, PAGE_SIZE), -1);
    assert_eq!(sys_munmap(&mut kernel, usize::MAX, 1), -1);
    assert!(get_current_task_page_table(&kernel, 0x10000).is_some());
}

#[test]
fn munmap_of_unmapped_page_fails() {
    let mut kernel: Kernel = boot();
    assert_eq!(sys_munmap(&mut kernel, 0x1000_0000, PAGE_SIZE), -1);
    assert_eq!(sys_munmap(&mut kernel, 0x1000_0000, 0), 0);
}

#[test]
fn munmap_does_not_roll_back_on_failure() {
    let mut kernel: Kernel = boot();
    assert_eq!(sys_mmap(&mut kernel, 0x1000_0000, 2 * PAGE_SIZE, 1), 0);
    assert_eq!(sys_mmap(&mut kernel, 0x1000_3000, PAGE_SIZE, 1), 0);
    assert_eq!(sys_munmap(&mut kernel, 0x1000_0000, 4 * PAGE_SIZE), -1);
    assert_eq!(get_current_task_page_table(&kernel, 0x10000), None);
    assert_eq!(get_current_task_page_table(&kernel, 0x10001), None);
    assert!(get_current_task_page_table(&kernel, 0x10003).is_some());
}

#[test]
fn munmap_cuts_the_range_at_the_ceiling() {
    let mut kernel: Kernel = boot();
    assert_eq!(sys_mmap(&mut kernel, MAXVA - PAGE_SIZE, 2 * PAGE_SIZE, 1), 0);
    assert!(get_current_task_page_table(&kernel, MAXVA / PAGE_SIZE - 1).is_some());
    assert!(get_current_task_page_table(&kernel, MAXVA / PAGE_SIZE).is_some());
    assert_eq!(sys_munmap(&mut kernel, MAXVA - PAGE_SIZE, usize::MAX), 0);
    assert_eq!(get_current_task_page_table(&kernel, MAXVA / PAGE_SIZE - 1), None);
    assert!(get_current_task_page_table(&kernel, MAXVA / PAGE_SIZE).is_some());
}

#[test]
fn munmap_part_of_a_mapping() {
    let mut kernel: Kernel = boot();
    assert_eq!(sys_mmap(&mut kernel, 0x1000_0000, 4 * PAGE_SIZE, 3), 0);
    assert_eq!(sys_munmap(&mut kernel, 0x1000_1000, 2 * PAGE_SIZE), 0);
    assert!(get_current_task_page_table(&kernel, 0x10000).is_some());
    assert_eq!(get_current_task_page_table(&kernel, 0x10001), None);
    assert_eq!(get_current_task_page_table(&kernel, 0x10002), None);
    assert!(get_current_task_page_table(&kernel, 0x10003).is_some());
    assert_eq!(sys_mmap(&mut kernel, 0x1000_1000, 2 * PAGE_SIZE, 4), 0);
}

#[test]
fn map_area_helpers_on_current_task() {
    let mut kernel: Kernel = boot();
    let perm: MapPermission = MapPermission { bits: PERM_R | PERM_U };
    assert!(create_new_map_area(&mut kernel, 0x30000, 0x32000, perm));
    assert!(!create_new_map_area(&mut kernel, 0x31000, 0x33000, perm));
    assert_eq!(get_current_task_page_table(&kernel, 0x32), None);
    assert_eq!(unmap_consecutive_area(&mut kernel, 0x30000, 0x1001), 0);
    assert_eq!(get_current_task_page_table(&kernel, 0x30), None);
    assert_eq!(get_current_task_page_table(&kernel, 0x31), None);
    assert_eq!(unmap_consecutive_area(&mut kernel, 0x30000, 1), -1);
}

#[test]
fn sbrk_returns_old_break_or_minus_one() {
    let mut kernel: Kernel = boot();
    assert_eq!(sys_sbrk(&mut kernel, 0), 0x24000);
    assert_eq!(sys_sbrk(&mut kernel, 100), 0x24000);
    assert_eq!(sys_sbrk(&mut kernel, 0), 0x24064);
    assert_eq!(sys_sbrk(&mut kernel, -101), -1);
    assert_eq!(sys_sbrk(&mut kernel, 0), 0x24064);
    assert_eq!(sys_sbrk(&mut kernel, i32::MAX), -1);
    assert_eq!(sys_sbrk(&mut kernel, i32::MIN), -1);
    assert_eq!(sys_sbrk(&mut kernel, -100), 0x24064);
    assert_eq!(sys_sbrk(&mut kernel, 0), 0x24000);
    assert_eq!(change_program_brk(&mut kernel, -1), None);
    assert_eq!(change_program_brk(&mut kernel, 8), Some(0x24000));
}

#[test]
fn sbrk_round_trip() {
    let mut kernel: Kernel = boot();
    let n: i32 = 10_000;
    assert_eq!(sys_sbrk(&mut kernel, n), 0x24000);
    assert!(get_current_task_page_table(&kernel, 0x24).is_some());
    assert!(get_current_task_page_table(&kernel, 0x26).is_some());
    assert_eq!(sys_sbrk(&mut kernel, -n), 0x24000 + 10_000);
    assert_eq!(sys_sbrk(&mut kernel, 0), 0x24000);
    assert_eq!(get_current_task_page_table(&kernel, 0x24), None);
    assert_eq!(get_current_task_page_table(&kernel, 0x25), None);
    assert_eq!(get_current_task_page_table(&kernel, 0x26), None);
}

#[test]
fn fork_creates_a_ready_copy() {
    let mut kernel: Kernel = boot();
    assert_eq!(sys_sbrk(&mut kernel, 4096), 0x24000);
    assert!(copy_to_current_user(&mut kernel, 0x24010, &vec![1u8, 2, 3]));
    assert_eq!(sys_fork(&mut kernel), 1);
    assert_eq!(kernel.current_task(), Some(0));
    assert_eq!(kernel.task(0).children(), vec![1usize]);
    assert_eq!(kernel.task(1).parent(), Some(0));
    assert_eq!(kernel.task(1).getpid(), 1);
    assert_eq!(kernel.task(1).status(), TaskStatus::Ready);
    assert_eq!(kernel.task(1).start_time(), 0);
    assert_eq!(kernel.task(1).trap_cx(), TrapContext { a0: 0, sp: 0x24000, sepc: 0x10000 });
    assert_eq!(kernel.ready_len(), 1);
    assert_eq!(kernel.ready_task(0), 1);
    assert_eq!(kernel.task(1).memory_set().program_brk(), 0x25000);
    assert_eq!(kernel.task(1).memory_set().read_bytes(0x24010, 3), Some(vec![1u8, 2, 3]));
    assert_eq!(kernel.task(1).memory_set().read_bytes(0x10000, 64), Some(vec![0x13u8; 64]));
}

#[test]
fn fork_child_memory_is_independent() {
    let mut kernel: Kernel = boot();
    assert_eq!(sys_fork(&mut kernel), 1);
    assert!(copy_to_current_user(&mut kernel, 0x20000, &vec![7u8; 8]));
    assert_eq!(kernel.task(1).memory_set().read_bytes(0x20000, 8), Some(vec![0u8; 8]));
    assert_eq!(sys_yield(&mut kernel), 0);
    assert_eq!(kernel.current_task(), Some(1));
    assert_eq!(sys_mmap(&mut kernel, 0x1000_0000, PAGE_SIZE, 3), 0);
    assert_eq!(kernel.task(0).memory_set().translate(0x10000), None);
    assert_eq!(kernel.task(0).memory_set().read_bytes(0x20000, 8), Some(vec![7u8; 8]));
}

#[test]
fn fork_then_wait_then_exit_then_wait() {
    let mut kernel: Kernel = boot();
    let child: isize = sys_fork(&mut kernel);
    assert_eq!(child, 1);
    assert_eq!(sys_waitpid(&mut kernel, -1, 0), -2);
    assert_eq!(sys_waitpid(&mut kernel, child, 0x20100), -2);
    assert_eq!(sys_yield(&mut kernel), 0);
    assert_eq!(kernel.current_task(), Some(1));
    sys_exit(&mut kernel, 77);
    assert_eq!(kernel.current_task(), Some(0));
    assert_eq!(sys_waitpid(&mut kernel, child, 0x20100), 1);
    assert_eq!(read_current(&kernel, 0x20100, 4), Some(vec![77u8, 0, 0, 0]));
    assert!(!kernel.has_task(1));
    assert_eq!(kernel.task(0).children(), Vec::<usize>::new());
    assert_eq!(sys_waitpid(&mut kernel, child, 0x20100), -1);
    assert_eq!(sys_waitpid(&mut kernel, -1, 0), -1);
}

#[test]
fn waitpid_without_children_returns_minus_one() {
    let mut kernel: Kernel = boot();
    assert_eq!(sys_waitpid(&mut kernel, -1, 0), -1);
    assert_eq!(sys_waitpid(&mut kernel, 0, 0), -1);
    assert_eq!(sys_waitpid(&mut kernel, 5, 0), -1);
}

#[test]
fn waitpid_for_unknown_pid_returns_minus_one_whatever_the_children_do() {
    let mut kernel: Kernel = boot();
    assert_eq!(sys_fork(&mut kernel), 1);
    assert_eq!(sys_fork(&mut kernel), 2);
    assert_eq!(sys_waitpid(&mut kernel, 3, 0), -1);
    assert_eq!(sys_waitpid(&mut kernel, 0, 0), -1);
    assert_eq!(sys_waitpid(&mut kernel, -2, 0), -1);
    assert_eq!(sys_waitpid(&mut kernel, isize::MIN, 0), -1);
    assert_eq!(sys_yield(&mut kernel), 0);
    sys_exit(&mut kernel, 9);
    assert_eq!(kernel.current_task(), Some(2));
    assert_eq!(sys_yield(&mut kernel), 0);
    assert_eq!(kernel.current_task(), Some(0));
    assert_eq!(sys_waitpid(&mut kernel, 3, 0), -1);
    assert_eq!(sys_waitpid(&mut kernel, 77, 0x20000), -1);
    assert_eq!(kernel.task(0).children(), vec![1usize, 2]);
    assert!(kernel.has_task(1));
    assert_eq!(sys_waitpid(&mut kernel, 2, 0), -2);
    assert_eq!(sys_waitpid(&mut kernel, 1, 0), 1);
}

#[test]
fn waitpid_any_takes_first_zombie_in_child_order() {
    let mut kernel: Kernel = boot();
    assert_eq!(sys_fork(&mut kernel), 1);
    assert_eq!(sys_fork(&mut kernel), 2);
    assert_eq!(sys_fork(&mut kernel), 3);
    assert_eq!(sys_yield(&mut kernel), 0);
    assert_eq!(sys_yield(&mut kernel), 0);
    assert_eq!(kernel.current_task(), Some(2));
    sys_exit(&mut kernel, 20);
    assert_eq!(kernel.current_task(), Some(3));
    sys_exit(&mut kernel, 30);
    assert_eq!(kernel.current_task(), Some(0));
    assert_eq!(sys_waitpid(&mut kernel, -1, 0x20000), 2);
    assert_eq!(read_current(&kernel, 0x20000, 4), Some(vec![20u8, 0, 0, 0]));
    assert_eq!(kernel.task(0).children(), vec![1usize, 3]);
    assert_eq!(sys_waitpid(&mut kernel, -1, 0x20004), 3);
    assert_eq!(read_current(&kernel, 0x20000, 8), Some(vec![20u8, 0, 0, 0, 30, 0, 0, 0]));
    assert_eq!(sys_waitpid(&mut kernel, -1, 0), -2);
    assert_eq!(kernel.task(0).children(), vec![1usize]);
}

#[test]
fn waitpid_writes_negative_exit_code_in_twos_complement() {
    let mut kernel: Kernel = boot();
    assert_eq!(sys_fork(&mut kernel), 1);
    assert_eq!(sys_yield(&mut kernel), 0);
    sys_exit(&mut kernel, -2);
    assert_eq!(sys_waitpid(&mut kernel, 1, 0x20ffe - 2), 1);
    assert_eq!(read_current(&kernel, 0x20ffc, 4), Some(vec![0xfeu8, 0xff, 0xff, 0xff]));
}

#[test]
fn waitpid_writes_exit_code_across_a_page_boundary() {
    let mut kernel: Kernel = boot();
    assert_eq!(sys_mmap(&mut kernel, 0x21000, PAGE_SIZE, 3), 0);
    assert_eq!(sys_fork(&mut kernel), 1);
    assert_eq!(sys_yield(&mut kernel), 0);
    sys_exit(&mut kernel, 0x0403_0201);
    assert_eq!(sys_waitpid(&mut kernel, -1, 0x20ffe), 1);
    assert_eq!(read_current(&kernel, 0x20ffe, 4), Some(vec![1u8, 2, 3, 4]));
}

#[test]
fn waitpid_with_unmapped_destination_collects_nothing() {
    let mut kernel: Kernel = boot();
    assert_eq!(sys_fork(&mut kernel), 1);
    assert_eq!(sys_yield(&mut kernel), 0);
    sys_exit(&mut kernel, 3);
    assert_eq!(sys_waitpid(&mut kernel, 1, 0x5000_0000), -1);
    assert_eq!(sys_waitpid(&mut kernel, 1, 0x20ffe), -1);
    assert!(kernel.has_task(1));
    assert_eq!(kernel.task(0).children(), vec![1usize]);
    assert_eq!(sys_waitpid(&mut kernel, 1, 0), 1);
    assert!(!kernel.has_task(1));
}

#[test]
fn collected_identifier_is_used_again() {
    let mut kernel: Kernel = boot();
    assert_eq!(sys_fork(&mut kernel), 1);
    assert_eq!(sys_fork(&mut kernel), 2);
    assert_eq!(sys_yield(&mut kernel), 0);
    sys_exit(&mut kernel, 0);
    assert_eq!(kernel.current_task(), Some(2));
    assert_eq!(sys_yield(&mut kernel), 0);
    assert_eq!(kernel.current_task(), Some(0));
    assert_eq!(sys_fork(&mut kernel), 3);
    assert_eq!(sys_waitpid(&mut kernel, 1, 0), 1);
    assert_eq!(sys_fork(&mut kernel), 1);
    assert_eq!(kernel.task(0).children(), vec![2usize, 3, 1]);
    assert_eq!(kernel.task(1).status(), TaskStatus::Ready);
}

#[test]
fn orphans_are_collected_by_the_idle_process() {
    let mut kernel: Kernel = boot();
    assert_eq!(sys_fork(&mut kernel), 1);
    assert_eq!(sys_yield(&mut kernel), 0);
    assert_eq!(sys_fork(&mut kernel), 2);
    sys_exit(&mut kernel, 1);
    assert_eq!(kernel.current_task(), Some(0));
    assert_eq!(sys_yield(&mut kernel), 0);
    assert_eq!(kernel.current_task(), Some(2));
    sys_exit(&mut kernel, 2);
    assert_eq!(kernel.current_task(), Some(0));
    assert_eq!(sys_waitpid(&mut kernel, 2, 0x20000), 2);
    assert_eq!(read_current(&kernel, 0x20000, 4), Some(vec![2u8, 0, 0, 0]));
    assert_eq!(sys_waitpid(&mut kernel, -1, 0x20000), 1);
    assert_eq!(read_current(&kernel, 0x20000, 4), Some(vec![1u8, 0, 0, 0]));
    assert_eq!(sys_waitpid(&mut kernel, -1, 0), -1);
}

#[test]
fn exec_replaces_program_in_place() {
    let mut kernel: Kernel = boot();
    assert_eq!(sys_fork(&mut kernel), 1);
    assert_eq!(sys_sbrk(&mut kernel, 4096), 0x24000);
    assert!(copy_to_current_user(&mut kernel, 0x20ffd, &vec![b'c', b'h', b'i']));
    assert_eq!(sys_exec(&mut kernel, 0x20ffd), -1);
    assert!(copy_to_current_user(&mut kernel, 0x20f00, &vec![b'c', b'h', b'i', b'l', b'd', 0]));
    assert_eq!(read_current_user_text(&kernel, 0x20f00), Some(b"child".to_vec()));
    assert_eq!(sys_exec(&mut kernel, 0x20f00), 0);
    assert_eq!(kernel.current_task(), Some(0));
    assert_eq!(kernel.task(0).getpid(), 0);
    assert_eq!(kernel.task(0).children(), vec![1usize]);
    assert_eq!(kernel.task(0).status(), TaskStatus::Running);
    assert_eq!(kernel.task(0).trap_cx(), TrapContext { a0: 0, sp: 0x24000, sepc: 0x10040 });
    assert_eq!(read_current(&kernel, 0x10000, 64), Some(vec![0x37u8; 64]));
    assert_eq!(read_current(&kernel, 0x20f00, 6), Some(vec![0u8; 6]));
    assert_eq!(kernel.task(0).memory_set().program_brk(), 0x24000);
    assert_eq!(get_current_task_page_table(&kernel, 0x24), None);
    assert_eq!(kernel.task(1).memory_set().read_bytes(0x10000, 64), Some(vec![0x13u8; 64]));
}

#[test]
fn exec_of_unknown_or_unreadable_name_fails_and_changes_nothing() {
    let mut kernel: Kernel = boot();
    assert!(copy_to_current_user(&mut kernel, 0x20000, &vec![b'n', b'o', b'n', b'e', 0]));
    assert_eq!(sys_exec(&mut kernel, 0x20000), -1);
    assert_eq!(sys_exec(&mut kernel, 0x20004), -1);
    assert_eq!(sys_exec(&mut kernel, 0x5000_0000), -1);
    assert_eq!(sys_exec(&mut kernel, usize::MAX), -1);
    assert!(copy_to_current_user(&mut kernel, 0x20100, &vec![b'b', b'r', b'o', b'k', b'e', b'n', 0]));
    assert_eq!(sys_exec(&mut kernel, 0x20100), -1);
    assert_eq!(kernel.task(0).trap_cx(), TrapContext { a0: 0, sp: 0x24000, sepc: 0x10000 });
    assert_eq!(read_current(&kernel, 0x10000, 64), Some(vec![0x13u8; 64]));
    assert_eq!(read_current(&kernel, 0x20000, 5), Some(vec![b'n', b'o', b'n', b'e', 0]));
}

#[test]
fn fork_then_exec_in_child() {
    let mut kernel: Kernel = boot();
    assert!(copy_to_current_user(&mut kernel, 0x20000, &vec![b'c', b'h', b'i', b'l', b'd', 0]));
    assert_eq!(sys_fork(&mut kernel), 1);
    assert_eq!(sys_yield(&mut kernel), 0);
    assert_eq!(kernel.current_task(), Some(1));
    assert_eq!(sys_exec(&mut kernel, 0x20000), 0);
    assert_eq!(kernel.task(1).parent(), Some(0));
    assert_eq!(kernel.task(1).trap_cx().sepc, 0x10040);
    assert_eq!(kernel.task(0).trap_cx().sepc, 0x10000);
    sys_exit(&mut kernel, 5);
    assert_eq!(sys_waitpid(&mut kernel, -1, 0x20010), 1);
    assert_eq!(read_current(&kernel, 0x20010, 4), Some(vec![5u8, 0, 0, 0]));
}
