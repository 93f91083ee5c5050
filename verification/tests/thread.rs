use taskcore::config::Config;
use taskcore::kernel::Kernel;
use taskcore::objects::{
    KernelStack, MemorySet, PageTableEntry, PhysPageNum, PidHandle, ProcessRef, SignalActions,
    TaskRef, TidHandle,
};
use taskcore::service::{Cont, Reply, Service, Step};
use taskcore::syscall::process::sys_exit;
use taskcore::syscall::resume::{can_resume, resume};
use taskcore::syscall::thread::{sys_gettid, sys_thread_create, sys_waittid};
use taskcore::task::{Image, TaskControlBlock, TaskStatus};
use taskcore::timer::{add_timer, TimerQueue};

fn config() -> Config {
    Config {
        clock_freq: 12_500_000,
        page_size: 4096,
        trap_context_base: 0xffff_ffff_ffff_e000,
        user_stack_size: 8192,
        kernel_token: 77,
        trap_handler: 0x8020_1000,
    }
}

/// A kernel with one process, whose main thread runs.
fn kernel() -> Kernel {
    let mut kernel = Kernel {
        config: config(),
        processes: vec![],
        tasks: vec![],
        current: None,
        timers: TimerQueue::new(),
    };
    let image = Image {
        memory_set: MemorySet { token: 55 },
        user_sp: 0x10_000,
        entry_point: 0x1000,
        trap_cx_ppn: PhysPageNum(9),
    };
    let actions = SignalActions { table: vec![] };
    let stack = KernelStack { top: 0x9000 };
    let (task, _) = TaskControlBlock::new(&mut kernel, image, PidHandle(1), stack, actions);
    kernel.tasks.push(task);
    kernel.processes[0].inner.tasks.push(Some(TaskRef(0)));
    kernel.current = Some(TaskRef(0));
    kernel
}

fn go_on(kernel: &mut Kernel, step: Step, reply: Reply) -> (Service, Step) {
    match step {
        Step::Call(service, cont) => {
            assert!(can_resume(kernel, &cont, &reply));
            (service, resume(kernel, cont, reply))
        }
        _ => panic!("the call does not wait"),
    }
}

/// Creates a thread, with every service done.
fn create(kernel: &mut Kernel, entry: usize, arg: usize) -> Step {
    let page = PageTableEntry {
        ppn: PhysPageNum(40),
        user: false,
        readable: true,
        writable: true,
    };
    let mut step = sys_thread_create(kernel, entry, arg);
    for reply in [
        Reply::Stack(KernelStack { top: 0xd000 }),
        Reply::Done,
        Reply::Done,
        Reply::Entry(Some(page)),
        Reply::Done,
        Reply::Done,
    ] {
        step = go_on(kernel, step, reply).1;
    }
    step
}

#[test]
fn a_thread_is_created_step_by_step() {
    let mut kernel = kernel();
    let process = ProcessRef(0);
    let step = sys_thread_create(&kernel, 0x3000, 7);
    let (service, step) = go_on(&mut kernel, step, Reply::Stack(KernelStack { top: 0xd000 }));
    assert_eq!(service, Service::AllocKernelStack);

    let (service, step) = go_on(&mut kernel, step, Reply::Done);
    let trap_cx_va = 0xffff_ffff_ffff_d000;
    assert_eq!(
        service,
        Service::InsertFramedArea {
            process,
            start: trap_cx_va,
            end: trap_cx_va + 4096,
            user: false,
        }
    );
    let (service, step) = go_on(&mut kernel, step, Reply::Done);
    assert_eq!(
        service,
        Service::InsertFramedArea { process, start: 0x10_000, end: 0x12_000, user: true }
    );
    let entry = PageTableEntry {
        ppn: PhysPageNum(40),
        user: false,
        readable: true,
        writable: true,
    };
    let (service, step) = go_on(&mut kernel, step, Reply::Entry(Some(entry)));
    assert_eq!(service, Service::Translate { token: 55, va: trap_cx_va });
    let (service, step) = go_on(&mut kernel, step, Reply::Done);
    assert!(matches!(
        service,
        Service::InitTrapContext { ppn: PhysPageNum(40), context } if context.a0 == Some(7)
    ));
    let (service, step) = go_on(&mut kernel, step, Reply::Done);
    assert_eq!(service, Service::AddTask { task: TaskRef(1) });
    assert_eq!(step, Step::Done(1));

    let inner = &kernel.processes[0].inner;
    assert_eq!(inner.tasks, vec![Some(TaskRef(0)), Some(TaskRef(1))]);
    assert_eq!((inner.next_tid, inner.next_ustack), (2, 0x12_000));
    assert_eq!(kernel.tasks[1].tid, TidHandle(1));
    assert_eq!(kernel.tasks[1].inner.trap_cx_va, trap_cx_va);
    assert_eq!(sys_waittid(&mut kernel, 1), -2);
}

#[test]
fn replies_that_do_not_fit_are_told_apart() {
    let mut kernel = kernel();
    let process = ProcessRef(0);
    let cont = Cont::ThreadStack { process, entry: 0, arg: 0 };
    let stack = Reply::Stack(KernelStack { top: 1 });
    assert!(can_resume(&kernel, &cont, &stack));
    assert!(!can_resume(&kernel, &cont, &Reply::Done));
    kernel.processes[0].inner.next_tid = usize::MAX;
    assert!(!can_resume(&kernel, &cont, &stack));
    kernel.processes[0].inner.next_tid = 1 << 60;
    assert!(!can_resume(&kernel, &cont, &stack));
    kernel.processes[0].inner.next_tid = 1;
    kernel.processes[0].inner.next_ustack = usize::MAX;
    assert!(!can_resume(&kernel, &cont, &stack));
    let taken = Cont::SemaphoreTaken { process, tid: 0, sem_id: 0 };
    assert!(!can_resume(&kernel, &taken, &Reply::Done));
    kernel.processes[0].inner.sem_alloc = vec![vec![isize::MAX]];
    kernel.processes[0].inner.sem_wait_for = vec![None];
    assert!(!can_resume(&kernel, &taken, &Reply::Done));
    kernel.processes[0].inner.sem_alloc = vec![vec![4]];
    assert!(can_resume(&kernel, &taken, &Reply::Done));
}

#[test]
fn the_thread_identifier_is_known() {
    let mut kernel = kernel();
    assert_eq!(sys_gettid(&kernel), 0);
    for tid in 1..4 {
        let step = create(&mut kernel, 0x3000, tid);
        assert_eq!(step, Step::Done(tid as isize));
        kernel.current = Some(TaskRef(tid));
        assert_eq!(sys_gettid(&kernel), tid as isize);
    }
    // Reaping one thread and exiting another do not change what the rest are called.
    kernel.tasks[1].inner.task_status = TaskStatus::Zombie;
    assert_eq!(sys_waittid(&mut kernel, 1), 0);
    sys_exit(&mut kernel, 5);
    kernel.current = Some(TaskRef(2));
    assert_eq!(sys_gettid(&kernel), 2);
    kernel.current = Some(TaskRef(0));
    assert_eq!(sys_gettid(&kernel), 0);
    assert!(kernel.in_order());
}

#[test]
fn identifiers_and_places_are_not_given_away_again() {
    let mut kernel = kernel();
    assert_eq!(create(&mut kernel, 1, 1), Step::Done(1));
    kernel.tasks[1].inner.task_status = TaskStatus::Zombie;
    assert_eq!(sys_waittid(&mut kernel, 1), 0);
    assert_eq!(create(&mut kernel, 2, 2), Step::Done(2));
    let (first, second) = (kernel.tasks[1], kernel.tasks[2]);
    assert_eq!(second.inner.trap_cx_va + 4096, first.inner.trap_cx_va);
    let inner = &kernel.processes[0].inner;
    assert_eq!((inner.next_tid, inner.next_ustack), (3, 0x14_000));
    assert_eq!(inner.tasks, vec![Some(TaskRef(0)), None, Some(TaskRef(2))]);
}

#[test]
fn the_submitted_code_is_waited_for() {
    let mut kernel = kernel();
    create(&mut kernel, 0x3000, 0);
    kernel.current = Some(TaskRef(1));
    sys_exit(&mut kernel, 42);
    kernel.current = Some(TaskRef(0));
    assert_eq!(sys_waittid(&mut kernel, 1), -2);
    kernel.tasks[1].inner.task_status = TaskStatus::Zombie;
    assert_eq!(sys_waittid(&mut kernel, 1), 42);
    assert_eq!(sys_waittid(&mut kernel, 1), -1);
}

#[test]
fn a_thread_waits_for_itself_in_vain() {
    let mut kernel = kernel();
    assert_eq!(sys_waittid(&mut kernel, 0), -2);
    assert_eq!(kernel.processes[0].inner.tasks, vec![Some(TaskRef(0))]);
    // It is not listed.
    kernel.processes[0].inner.tasks[0] = None;
    assert_eq!(sys_waittid(&mut kernel, 0), -1);
}

#[test]
fn a_state_out_of_order_is_noticed() {
    let mut ok = kernel();
    create(&mut ok, 0x3000, 0);
    assert!(ok.in_order());

    let broken = |spoil: fn(&mut Kernel)| {
        let mut kernel = kernel();
        create(&mut kernel, 0x3000, 0);
        spoil(&mut kernel);
        !kernel.in_order()
    };
    assert!(broken(|kernel| kernel.config.clock_freq = 0));
    assert!(broken(|kernel| kernel.config.page_size = 0));
    assert!(broken(|kernel| kernel.current = Some(TaskRef(2))));
    assert!(broken(|kernel| kernel.tasks[1].process = ProcessRef(1)));
    assert!(broken(|kernel| kernel.tasks[1].tid = TidHandle(2)));
    assert!(broken(|kernel| kernel.processes[0].inner.tasks.swap(0, 1)));
    assert!(broken(|kernel| kernel.processes[0].inner.tasks.push(Some(TaskRef(2)))));
    assert!(broken(|kernel| kernel.processes[0].inner.parent = Some(TaskRef(2))));
    assert!(broken(|kernel| kernel.processes[0].inner.children.push(TaskRef(2))));
    assert!(broken(|kernel| kernel.processes[0].inner.sem_alloc = vec![vec![], vec![0, -1]]));
    assert!(broken(|kernel| add_timer(&mut kernel.timers, 9, TaskRef(2))));
    assert!(!broken(|kernel| add_timer(&mut kernel.timers, 9, TaskRef(1))));
}

#[test]
fn waiting_for_threads() {
    let mut kernel = kernel();
    for tid in 1..4 {
        let mut task = kernel.tasks[0];
        task.tid = TidHandle(tid);
        kernel.tasks.push(task);
        kernel.processes[0].inner.tasks.push(Some(TaskRef(tid)));
    }
    kernel.tasks[2].inner.task_status = TaskStatus::Zombie;
    kernel.tasks[2].inner.exit_code = -9;
    kernel.tasks[3].inner.task_status = TaskStatus::Blocking;
    // Not for a thread that is not there.
    assert_eq!(sys_waittid(&mut kernel, 4), -1);
    // Not yet, and the thread that asks has not exited either.
    assert_eq!(sys_waittid(&mut kernel, 0), -2);
    assert_eq!(sys_waittid(&mut kernel, 1), -2);
    assert_eq!(sys_waittid(&mut kernel, 3), -2);
    // Once.
    assert_eq!(sys_waittid(&mut kernel, 2), -9);
    assert_eq!(sys_waittid(&mut kernel, 2), -1);
    assert_eq!(sys_waittid(&mut kernel, 3), -2);
    assert_eq!(
        kernel.processes[0].inner.tasks,
        vec![Some(TaskRef(0)), Some(TaskRef(1)), None, Some(TaskRef(3))]
    );
}
