use taskcore::config::Config;
use taskcore::kernel::Kernel;
use taskcore::objects::{
    FileRef, KernelStack, MemorySet, PhysPageNum, PidHandle, ProcessRef, Semaphore, SignalAction,
    SignalActions, SignalFlags, TaskContext, TaskRef, TidHandle, TrapContext,
};
use taskcore::service::Service;
use taskcore::task::{BrkRequest, Image, TaskControlBlock, TaskStatus};
use taskcore::timer::TimerQueue;

fn config() -> Config {
    Config {
        clock_freq: 12_500_000,
        page_size: 4096,
        trap_context_base: 0xffff_ffff_ffff_e000,
        user_stack_size: 8192,
        kernel_token: 77,
        trap_handler: 0x8020_1000,
    }
}

/// A kernel with one process, whose main thread runs.
fn kernel() -> Kernel {
    let mut kernel = Kernel {
        config: config(),
        processes: vec![],
        tasks: vec![],
        current: None,
        timers: TimerQueue::new(),
    };
    let image = Image {
        memory_set: MemorySet { token: 55 },
        user_sp: 0x10_000,
        entry_point: 0x1000,
        trap_cx_ppn: PhysPageNum(9),
    };
    let actions = SignalActions { table: vec![] };
    let stack = KernelStack { top: 0x9000 };
    let (task, _) = TaskControlBlock::new(&mut kernel, image, PidHandle(1), stack, actions);
    kernel.tasks.push(task);
    kernel.processes[0].inner.tasks.push(Some(TaskRef(0)));
    kernel.current = Some(TaskRef(0));
    kernel
}

#[test]
fn the_first_process_starts_from_its_image() {
    let mut kernel = kernel();
    let image = Image {
        memory_set: MemorySet { token: 66 },
        user_sp: 0x20_000,
        entry_point: 0x1234,
        trap_cx_ppn: PhysPageNum(5),
    };
    let actions = SignalActions {
        table: vec![SignalAction { handler: 3, mask: SignalFlags { bits: 1 } }],
    };
    let stack = KernelStack { top: 0xa000 };
    let (task, trap_cx) =
        TaskControlBlock::new(&mut kernel, image, PidHandle(4), stack, actions);

    assert_eq!(task.tid, TidHandle(0));
    assert_eq!(task.process, ProcessRef(1));
    assert_eq!(task.kernel_stack, stack);
    assert_eq!(task.inner.trap_cx_ppn, PhysPageNum(5));
    assert_eq!(task.inner.trap_cx_va, 0xffff_ffff_ffff_e000);
    assert_eq!(task.inner.task_cx, TaskContext { kernel_stack_top: 0xa000 });
    assert_eq!(task.inner.task_status, TaskStatus::Ready);
    assert_eq!((task.inner.exit_code, task.inner.priority, task.inner.stride), (0, 16, 0));
    assert_eq!(task.getpid(&kernel.processes), 4);
    assert_eq!(task.get_user_token(&kernel.processes), 66);
    assert_eq!(kernel.processes[1].get_user_token(), 66);

    let inner = &kernel.processes[1].inner;
    assert_eq!(inner.get_user_token(), 66);
    assert_eq!(inner.base_size, 0x20_000);
    assert_eq!((inner.heap_bottom, inner.program_brk), (0x20_000, 0x20_000));
    assert_eq!((inner.next_ustack, inner.next_tid), (0x20_000, 1));
    assert_eq!(
        inner.fd_table,
        vec![Some(FileRef::Stdin), Some(FileRef::Stdout), Some(FileRef::Stdout)]
    );
    assert_eq!(inner.parent, None);
    assert!(inner.children.is_empty() && inner.tasks.is_empty());
    assert_eq!(inner.handling_sig, -1);
    assert_eq!(inner.signal_actions.table.len(), 1);
    assert!(!inner.killed && !inner.frozen && !inner.deadlock_detect_enabled);
    assert_eq!(
        trap_cx,
        Service::InitTrapContext {
            ppn: PhysPageNum(5),
            context: TrapContext {
                entry: 0x1234,
                user_sp: 0x20_000,
                kernel_satp: 77,
                kernel_sp: 0xa000,
                trap_handler: 0x8020_1000,
                a0: None,
                a1: None,
            },
        }
    );
}

#[test]
fn exec_replaces_the_program() {
    let mut kernel = kernel();
    {
        let inner = &mut kernel.processes[0].inner;
        inner.next_tid = 4;
        inner.deadlock_detect_enabled = true;
        inner.sem_alloc = vec![vec![1]];
        inner.sem_wait_for = vec![Some(0)];
        inner.semaphore_list = vec![Some(Semaphore::new(2))];
        inner.program_brk = 0x11_000;
    }
    let image = Image {
        memory_set: MemorySet { token: 99 },
        user_sp: 0x40_000,
        entry_point: 0x2000,
        trap_cx_ppn: PhysPageNum(12),
    };
    let args = vec![String::from("cat"), String::from("f")];
    let request = TaskControlBlock::exec(&mut kernel, TaskRef(0), image, args);

    assert_eq!(request.token, 99);
    assert_eq!(request.stack.argv_base, 0x40_000 - 24);
    assert_eq!(request.stack.argv, vec![0x40_000 - 28, 0x40_000 - 30, 0]);
    assert_eq!(request.stack.strings, vec![b"cat\0".to_vec(), b"f\0".to_vec()]);
    assert_eq!(
        request.trap_cx,
        Service::InitTrapContext {
            ppn: PhysPageNum(12),
            context: TrapContext {
                entry: 0x2000,
                user_sp: 0x40_000 - 32,
                kernel_satp: 77,
                kernel_sp: 0x9000,
                trap_handler: 0x8020_1000,
                a0: Some(2),
                a1: Some(0x40_000 - 24),
            },
        }
    );
    assert_eq!(kernel.tasks[0].inner.get_trap_cx(), PhysPageNum(12));
    let inner = &kernel.processes[0].inner;
    assert_eq!(inner.memory_set.token(), 99);
    assert_eq!((inner.heap_bottom, inner.program_brk), (0x40_000, 0x40_000));
    assert_eq!((inner.next_ustack, inner.next_tid), (0x40_000, 1));
    assert!(!inner.deadlock_detect_enabled);
    assert!(inner.sem_alloc.is_empty() && inner.sem_wait_for.is_empty());
    // The locks, the threads and the size of the first image stay.
    assert_eq!(inner.semaphore_list.len(), 1);
    assert_eq!(inner.tasks, vec![Some(TaskRef(0))]);
    assert_eq!(inner.base_size, 0x10_000);
}

#[test]
fn exec_moves_the_trap_context_to_the_main_place() {
    let mut kernel = kernel();
    let config = kernel.config;
    let stack = KernelStack { top: 0xc000 };
    let thread = kernel.processes[0].inner.reserve_thread(&config, stack, 0x3000, 42);
    let (task, _) =
        TaskControlBlock::new_thread(&mut kernel, ProcessRef(0), thread, PhysPageNum(31));
    assert_eq!(kernel.tasks[1].inner.trap_cx_va, 0xffff_ffff_ffff_d000);
    let main = kernel.tasks[0];
    let image = Image {
        memory_set: MemorySet { token: 99 },
        user_sp: 0x40_000,
        entry_point: 0x2000,
        trap_cx_ppn: PhysPageNum(12),
    };
    TaskControlBlock::exec(&mut kernel, task, image, vec![]);
    assert_eq!(kernel.tasks[1].inner.trap_cx_ppn, PhysPageNum(12));
    assert_eq!(kernel.tasks[1].inner.trap_cx_va, 0xffff_ffff_ffff_e000);
    assert_eq!(kernel.tasks[1].tid, TidHandle(1));
    assert_eq!(kernel.tasks[0], main);
    assert!(kernel.in_order());
}

#[test]
fn fork_copies_what_a_child_inherits() {
    let mut kernel = kernel();
    {
        let inner = &mut kernel.processes[0].inner;
        inner.fd_table = vec![Some(FileRef::Stdin), None, Some(FileRef::Opened(8))];
        inner.signals = SignalFlags { bits: 6 };
        inner.signal_mask = SignalFlags { bits: 5 };
        inner.signal_actions.table =
            vec![SignalAction { handler: 3, mask: SignalFlags { bits: 1 } }];
        inner.program_brk = 0x12_000;
        inner.next_tid = 3;
        inner.deadlock_detect_enabled = true;
        inner.semaphore_list = vec![Some(Semaphore::new(2))];
        inner.killed = true;
    }
    let (child, request) = TaskControlBlock::fork(
        &mut kernel,
        TaskRef(0),
        MemorySet { token: 88 },
        PhysPageNum(20),
        PidHandle(2),
        KernelStack { top: 0xb000 },
    );
    assert_eq!(child, TaskRef(1));
    assert_eq!(request, Service::SetKernelSp { ppn: PhysPageNum(20), kernel_sp: 0xb000 });
    assert_eq!(kernel.processes[0].inner.children, vec![TaskRef(1)]);
    let task = kernel.tasks[1];
    assert_eq!((task.tid, task.process), (TidHandle(0), ProcessRef(1)));
    assert_eq!(task.inner.task_status, TaskStatus::Ready);
    assert_eq!(task.getpid(&kernel.processes), 2);

    let parent = &kernel.processes[0].inner;
    let inner = &kernel.processes[1].inner;
    assert_eq!(inner.memory_set.token, 88);
    assert_eq!(inner.parent, Some(TaskRef(0)));
    assert_eq!(inner.fd_table, parent.fd_table);
    assert_eq!(inner.signals, SignalFlags::empty());
    assert_eq!(inner.signal_mask, SignalFlags { bits: 5 });
    assert_eq!(inner.signal_actions, parent.signal_actions);
    assert_eq!((inner.heap_bottom, inner.program_brk), (0x10_000, 0x12_000));
    assert_eq!(inner.next_ustack, parent.next_ustack);
    assert_eq!(inner.tasks, vec![Some(TaskRef(1))]);
    assert_eq!(inner.next_tid, 1);
    assert!(inner.semaphore_list.is_empty() && !inner.deadlock_detect_enabled && !inner.killed);
}

#[test]
fn the_heap_moves_both_ways() {
    let mut kernel = kernel();
    let task = kernel.tasks[0];
    let inner = &kernel.processes[0].inner;
    assert_eq!(inner.plan_program_brk(0x800), BrkRequest::Append(0x10_800));
    assert_eq!(inner.plan_program_brk(0), BrkRequest::Append(0x10_000));
    assert_eq!(inner.plan_program_brk(-1), BrkRequest::Refused);

    let processes = &mut kernel.processes;
    assert_eq!(task.change_program_brk(processes, 0x800, true), Some(0x10_000));
    assert_eq!(processes[0].inner.program_brk, 0x10_800);
    assert_eq!(processes[0].inner.plan_program_brk(-0x800), BrkRequest::Shrink(0x10_000));
    assert_eq!(task.change_program_brk(processes, -0x800, true), Some(0x10_800));
    assert_eq!(processes[0].inner.program_brk, 0x10_000);
}

#[test]
fn the_heap_stays_where_it_cannot_move() {
    let mut kernel = kernel();
    let task = kernel.tasks[0];
    let processes = &mut kernel.processes;
    assert_eq!(task.change_program_brk(processes, -1, true), None);
    assert_eq!(task.change_program_brk(processes, 0x800, false), None);
    assert_eq!(processes[0].inner.program_brk, 0x10_000);
}

#[test]
fn file_descriptors_are_the_lowest_free() {
    let mut kernel = kernel();
    let inner = &mut kernel.processes[0].inner;
    assert_eq!(inner.alloc_fd(), 3);
    assert_eq!(inner.fd_table.len(), 4);
    // It stays free until something is put there.
    assert_eq!(inner.alloc_fd(), 3);
    inner.fd_table[3] = Some(FileRef::Opened(1));
    inner.fd_table[1] = None;
    assert_eq!(inner.alloc_fd(), 1);
    assert_eq!(inner.fd_table.len(), 4);
}

#[test]
fn inner_parts_can_be_changed() {
    let mut kernel = kernel();
    kernel.tasks[0].inner_exclusive_access().task_status = TaskStatus::Zombie;
    assert!(kernel.tasks[0].inner.is_zombie());
    kernel.tasks[0].inner_exclusive_access().task_status = TaskStatus::Blocking;
    assert!(!kernel.tasks[0].inner.is_zombie());
    kernel.processes[0].inner_exclusive_access().killed = true;
    assert!(kernel.processes[0].inner.killed);
}

#[test]
fn threads_are_apart() {
    let mut kernel = kernel();
    let config = kernel.config;
    let stack = KernelStack { top: 0xc000 };
    let inner = &mut kernel.processes[0].inner;
    let first = inner.reserve_thread(&config, stack, 1, 2);
    let second = inner.reserve_thread(&config, stack, 3, 4);
    assert_eq!((first.tid, second.tid), (1, 2));
    assert_eq!(first.trap_cx_va, 0xffff_ffff_ffff_d000);
    assert_eq!(second.trap_cx_va, 0xffff_ffff_ffff_c000);
    assert_eq!((first.ustack_bottom, first.ustack_top), (0x10_000, 0x12_000));
    assert_eq!((second.ustack_bottom, second.ustack_top), (0x12_000, 0x14_000));
    assert_eq!((inner.next_tid, inner.next_ustack), (3, 0x14_000));
}

#[test]
fn a_thread_is_listed_under_its_identifier() {
    let mut kernel = kernel();
    let config = kernel.config;
    let stack = KernelStack { top: 0xc000 };
    kernel.processes[0].inner.next_tid = 3;
    let thread = kernel.processes[0].inner.reserve_thread(&config, stack, 0x3000, 42);
    let (task, trap_cx) =
        TaskControlBlock::new_thread(&mut kernel, ProcessRef(0), thread, PhysPageNum(31));
    assert_eq!(task, TaskRef(1));
    assert_eq!(
        kernel.processes[0].inner.tasks,
        vec![Some(TaskRef(0)), None, None, Some(TaskRef(1))]
    );
    assert_eq!(kernel.tasks[1].tid, TidHandle(3));
    assert_eq!(kernel.tasks[1].inner.trap_cx_ppn, PhysPageNum(31));
    assert_eq!(
        trap_cx,
        Service::InitTrapContext {
            ppn: PhysPageNum(31),
            context: TrapContext {
                entry: 0x3000,
                user_sp: 0x12_000,
                kernel_satp: 77,
                kernel_sp: 0xc000,
                trap_handler: 0x8020_1000,
                a0: Some(42),
                a1: None,
            },
        }
    );
}
