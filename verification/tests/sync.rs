use taskcore::config::Config;
use taskcore::kernel::Kernel;
use taskcore::objects::{
    Condvar, KernelStack, MemorySet, Mutex, PhysPageNum, PidHandle, ProcessRef, Semaphore,
    SignalActions, TaskRef, TidHandle,
};
use taskcore::service::{Cont, Reply, Service, Step};
use taskcore::syscall::resume::{can_resume, resume};
use taskcore::syscall::sync::{
    can_take_unit, sleep_at, sys_condvar_create, sys_condvar_signal, sys_condvar_wait,
    sys_enable_deadlock_detect, sys_mutex_create, sys_mutex_lock, sys_mutex_unlock,
    sys_semaphore_create, sys_semaphore_down, sys_semaphore_up, sys_sleep, DEADLOCK,
};
use taskcore::task::{Image, TaskControlBlock};
use taskcore::timer::{check_timer_at, get_time, TimerQueue};

fn config() -> Config {
    Config {
        clock_freq: 12_500_000,
        page_size: 4096,
        trap_context_base: 0xffff_ffff_ffff_e000,
        user_stack_size: 8192,
        kernel_token: 77,
        trap_handler: 0x8020_1000,
    }
}

/// A kernel with one process, whose main thread runs.
fn kernel() -> Kernel {
    let mut kernel = Kernel {
        config: config(),
        processes: vec![],
        tasks: vec![],
        current: None,
        timers: TimerQueue::new(),
    };
    let image = Image {
        memory_set: MemorySet { token: 55 },
        user_sp: 0x10_000,
        entry_point: 0x1000,
        trap_cx_ppn: PhysPageNum(9),
    };
    let actions = SignalActions { table: vec![] };
    let stack = KernelStack { top: 0x9000 };
    let (task, _) = TaskControlBlock::new(&mut kernel, image, PidHandle(1), stack, actions);
    kernel.tasks.push(task);
    kernel.processes[0].inner.tasks.push(Some(TaskRef(0)));
    kernel.current = Some(TaskRef(0));
    kernel
}

/// A kernel whose process has `threads` threads and detects deadlocks.
fn detecting_kernel(threads: usize) -> Kernel {
    let mut kernel = kernel();
    for tid in 1..threads {
        let mut task = kernel.tasks[0];
        task.tid = TidHandle(tid);
        kernel.tasks.push(task);
        kernel.processes[0].inner.tasks.push(Some(TaskRef(tid)));
    }
    assert_eq!(sys_enable_deadlock_detect(&mut kernel, 1), 0);
    kernel
}

fn down(kernel: &mut Kernel, thread: usize, sem_id: usize) -> Step {
    kernel.current = Some(TaskRef(thread));
    assert!(can_take_unit(kernel, sem_id));
    sys_semaphore_down(kernel, sem_id)
}

/// What the semaphore does when a unit of it is taken.
fn take(kernel: &mut Kernel, sem_id: usize) {
    let sem = kernel.processes[0].inner.semaphore_list[sem_id].as_mut().unwrap();
    sem.count -= 1;
}

fn down_call(sem_id: usize) -> Service {
    Service::SemaphoreDown { process: ProcessRef(0), sem_id }
}

#[test]
fn sleeping_blocks_until_the_time_has_come() {
    let mut kernel = kernel();
    // The clock reads 8 ms.
    let step = sleep_at(&mut kernel, Some(100_000), 20);
    assert_eq!(step, Step::Call(Service::BlockCurrentAndRunNext, Cont::Return(0)));
    assert_eq!(check_timer_at(&mut kernel.timers, 27), vec![]);
    assert_eq!(check_timer_at(&mut kernel.timers, 28), vec![TaskRef(0)]);
    assert_eq!(resume(&mut kernel, Cont::Return(0), Reply::Done), Step::Done(0));
}

#[test]
fn sleeping_without_a_time_to_wake_at() {
    let mut kernel = kernel();
    assert_eq!(sleep_at(&mut kernel, None, 20), Step::Fault);
    assert_eq!(sleep_at(&mut kernel, Some(usize::MAX), 20), Step::Fault);
    assert_eq!(sleep_at(&mut kernel, Some(100_000), usize::MAX), Step::Fault);
    assert!(kernel.timers.entries.is_empty());
    if get_time().is_none() {
        assert_eq!(sys_sleep(&mut kernel, 1), Step::Fault);
    }
}

#[test]
fn mutexes_get_the_lowest_free_number() {
    let mut kernel = kernel();
    assert_eq!(sys_mutex_create(&mut kernel, true), 0);
    assert_eq!(sys_mutex_create(&mut kernel, false), 1);
    assert_eq!(
        kernel.processes[0].inner.mutex_list,
        vec![Some(Mutex::Blocking), Some(Mutex::Spin)]
    );
    kernel.processes[0].inner.mutex_list[0] = None;
    assert_eq!(sys_mutex_create(&mut kernel, false), 0);
    assert_eq!(sys_mutex_create(&mut kernel, false), 2);
}

#[test]
fn locking_asks_for_the_mutex() {
    let mut kernel = kernel();
    sys_mutex_create(&mut kernel, true);
    let process = ProcessRef(0);
    let lock = Service::MutexLock { process, mutex_id: 0 };
    assert_eq!(sys_mutex_lock(&kernel, 0), Step::Call(lock, Cont::Return(0)));
    let unlock = Service::MutexUnlock { process, mutex_id: 0 };
    assert_eq!(sys_mutex_unlock(&kernel, 0), Step::Call(unlock, Cont::Return(0)));
}

#[test]
fn locking_twice_is_a_deadlock() {
    let mut kernel = kernel();
    sys_mutex_create(&mut kernel, true);
    sys_enable_deadlock_detect(&mut kernel, 1);
    let process = ProcessRef(0);
    let probe = Service::MutexIsHeldByCurrent { process, mutex_id: 0 };
    let cont = Cont::MutexProbed { process, mutex_id: 0 };
    assert_eq!(sys_mutex_lock(&kernel, 0), Step::Call(probe, cont));
    assert_eq!(resume(&mut kernel, cont, Reply::Flag(true)), Step::Done(-0xdead));
    assert_eq!(
        resume(&mut kernel, cont, Reply::Flag(false)),
        Step::Call(Service::MutexLock { process, mutex_id: 0 }, Cont::Return(0))
    );
}

#[test]
fn detection_can_be_switched() {
    let mut kernel = kernel();
    assert!(!kernel.processes[0].inner.deadlock_detect_enabled);
    assert_eq!(sys_enable_deadlock_detect(&mut kernel, 5), 0);
    assert!(kernel.processes[0].inner.deadlock_detect_enabled);
    assert_eq!(sys_enable_deadlock_detect(&mut kernel, 0), 0);
    assert!(!kernel.processes[0].inner.deadlock_detect_enabled);
}

#[test]
fn semaphores_start_with_their_units() {
    let mut kernel = kernel();
    assert_eq!(sys_semaphore_create(&mut kernel, 3), 0);
    assert_eq!(sys_semaphore_create(&mut kernel, 0), 1);
    assert_eq!(
        kernel.processes[0].inner.semaphore_list,
        vec![Some(Semaphore { count: 3 }), Some(Semaphore { count: 0 })]
    );
}

#[test]
fn without_detection_nothing_is_recorded() {
    let mut kernel = kernel();
    sys_semaphore_create(&mut kernel, 0);
    assert_eq!(sys_semaphore_down(&mut kernel, 0), Step::Call(down_call(0), Cont::Return(0)));
    let up = Service::SemaphoreUp { process: ProcessRef(0), sem_id: 0 };
    assert_eq!(sys_semaphore_up(&mut kernel, 0), Step::Call(up, Cont::Return(0)));
    assert!(kernel.processes[0].inner.sem_alloc.is_empty());
    assert!(kernel.processes[0].inner.sem_wait_for.is_empty());
}

#[test]
fn a_free_unit_is_recorded_and_given_back() {
    let mut kernel = detecting_kernel(2);
    sys_semaphore_create(&mut kernel, 1);
    sys_semaphore_create(&mut kernel, 1);
    assert_eq!(down(&mut kernel, 1, 1), Step::Call(down_call(1), Cont::Return(0)));
    assert_eq!(kernel.processes[0].inner.sem_alloc, vec![vec![0, 0], vec![0, 1]]);
    assert_eq!(kernel.processes[0].inner.sem_wait_for, vec![None, None]);
    sys_semaphore_up(&mut kernel, 1);
    assert_eq!(kernel.processes[0].inner.sem_alloc, vec![vec![0, 0], vec![0, 0]]);
    // Giving back what one does not hold is not recorded.
    sys_semaphore_up(&mut kernel, 1);
    assert_eq!(kernel.processes[0].inner.sem_alloc, vec![vec![0, 0], vec![0, 0]]);
}

#[test]
fn a_thread_may_wait_for_a_unit_that_will_come_back() {
    let mut kernel = detecting_kernel(2);
    sys_semaphore_create(&mut kernel, 1);
    down(&mut kernel, 0, 0);
    take(&mut kernel, 0);
    let cont = Cont::SemaphoreTaken { process: ProcessRef(0), tid: 1, sem_id: 0 };
    assert_eq!(down(&mut kernel, 1, 0), Step::Call(down_call(0), cont));
    assert_eq!(kernel.processes[0].inner.sem_wait_for, vec![None, Some(0)]);
    assert_eq!(kernel.processes[0].inner.sem_alloc, vec![vec![1], vec![0]]);
    take(&mut kernel, 0);

    kernel.current = Some(TaskRef(0));
    sys_semaphore_up(&mut kernel, 0);
    assert!(can_resume(&kernel, &cont, &Reply::Done));
    assert_eq!(resume(&mut kernel, cont, Reply::Done), Step::Done(0));
    assert_eq!(kernel.processes[0].inner.sem_alloc, vec![vec![0], vec![1]]);
    assert_eq!(kernel.processes[0].inner.sem_wait_for, vec![None, None]);
}

#[test]
fn a_circular_wait_is_refused() {
    let mut kernel = detecting_kernel(2);
    sys_semaphore_create(&mut kernel, 1);
    sys_semaphore_create(&mut kernel, 1);
    down(&mut kernel, 0, 0);
    take(&mut kernel, 0);
    down(&mut kernel, 1, 1);
    take(&mut kernel, 1);
    let cont = Cont::SemaphoreTaken { process: ProcessRef(0), tid: 0, sem_id: 1 };
    assert_eq!(down(&mut kernel, 0, 1), Step::Call(down_call(1), cont));
    take(&mut kernel, 1);
    // Thread 1 would close the circle.
    assert_eq!(down(&mut kernel, 1, 0), Step::Done(DEADLOCK));
    assert_eq!(kernel.processes[0].inner.sem_wait_for, vec![Some(1), None]);
    assert_eq!(kernel.processes[0].inner.sem_alloc, vec![vec![1, 0], vec![0, 1]]);
}

#[test]
fn waiting_for_a_unit_one_holds_oneself_is_refused() {
    let mut kernel = detecting_kernel(1);
    sys_semaphore_create(&mut kernel, 1);
    down(&mut kernel, 0, 0);
    take(&mut kernel, 0);
    assert_eq!(down(&mut kernel, 0, 0), Step::Done(-0xdead));
}

#[test]
fn negative_counts_and_empty_slots_offer_nothing() {
    let mut kernel = detecting_kernel(2);
    sys_semaphore_create(&mut kernel, 1);
    sys_semaphore_create(&mut kernel, 0);
    down(&mut kernel, 0, 0);
    take(&mut kernel, 0);
    kernel.processes[0].inner.semaphore_list[1] = Some(Semaphore { count: -4 });
    kernel.processes[0].inner.semaphore_list.push(None);
    assert_eq!(down(&mut kernel, 0, 1), Step::Done(DEADLOCK));
    assert!(!can_take_unit(&kernel, 2));
    assert!(!can_take_unit(&kernel, 3));
}

#[test]
fn a_thread_that_is_not_listed_has_no_entries() {
    let mut kernel = detecting_kernel(1);
    sys_semaphore_create(&mut kernel, 1);
    kernel.processes[0].inner.tasks.clear();
    assert!(!can_take_unit(&kernel, 0));
    sys_enable_deadlock_detect(&mut kernel, 0);
    assert!(can_take_unit(&kernel, 0));
}

#[test]
fn condition_variables_pass_on() {
    let mut kernel = kernel();
    sys_mutex_create(&mut kernel, true);
    assert_eq!(sys_condvar_create(&mut kernel), 0);
    assert_eq!(sys_condvar_create(&mut kernel), 1);
    assert_eq!(kernel.processes[0].inner.condvar_list, vec![Some(Condvar), Some(Condvar)]);
    let process = ProcessRef(0);
    assert_eq!(
        sys_condvar_signal(&kernel, 1),
        Step::Call(Service::CondvarSignal { process, condvar_id: 1 }, Cont::Return(0))
    );
    assert_eq!(
        sys_condvar_wait(&kernel, 1, 0),
        Step::Call(
            Service::CondvarWait { process, condvar_id: 1, mutex_id: 0 },
            Cont::Return(0)
        )
    );
}
