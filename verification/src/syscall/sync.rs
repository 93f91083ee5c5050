//! Sleeping, mutexes, semaphores, condition variables and deadlock detection.

use crate::banker::{
    adjusted, alloc_view, alloc_wf, deadlocked, ensure_sem_alloc, ensure_sem_wait_for, entry,
    has_deadlock, held, holds_any, is_safe_state, law_one_entry_changes, law_safe_iff_no_deadlock,
    lemma_adjusted_wf, lemma_padded_wf, padded_alloc, padded_wait, record_returned, record_taken,
    safe_state, waits_on,
};
use crate::config::Config;
use crate::kernel::{rest_is_untouched, Kernel};
use crate::objects::{Condvar, Mutex, ProcessRef, Semaphore};
use crate::service::{Cont, Service, Step};
use crate::slots;
use crate::task::ProcessControlBlockInner;
use crate::timer::{
    add_timer, clock_reads, due, get_time, law_readings_have_their_units, law_timer_fires_on_time,
    law_timer_is_added_last, lemma_quotient_is_unique, reading_ms, time_ms_at, with_timer,
};
use vstd::prelude::*;

verus! {

/// What a call returns that would lead to a deadlock.
pub const DEADLOCK: isize = -0xdead;

/// When a task wakes that goes to sleep for `ms` milliseconds while the clock reads `ticks`.
pub open spec fn wake_time(ticks: Option<usize>, config: Config, ms: usize) -> Option<usize> {
    match reading_ms(ticks, config) {
        Some(now) => if now + ms <= usize::MAX {
            Some((now + ms) as usize)
        } else {
            None
        },
        None => None,
    }
}

/// What sleeping for `ms` milliseconds comes to while the clock reads `ticks`: the current task is
/// put into the timer queue and blocked. Without a time to wake at, nothing changes.
pub open spec fn put_to_sleep(
    before: Kernel,
    after: Kernel,
    ticks: Option<usize>,
    ms: usize,
    step: Step,
) -> bool {
    match wake_time(ticks, before.config, ms) {
        Some(time) => {
            &&& after == (Kernel { timers: after.timers, ..before })
            &&& after.timers@ == with_timer(before.timers@, time, before.current->0)
            &&& step == Step::Call(Service::BlockCurrentAndRunNext, Cont::Return(0))
        },
        None => {
            &&& after == before
            &&& step == Step::Fault
        },
    }
}

/// Puts the current task to sleep for `ms` milliseconds while the clock reads `ticks`.
pub fn sleep_at(kernel: &mut Kernel, ticks: Option<usize>, ms: usize) -> (step: Step)
    requires
        old(kernel).running(),
    ensures
        final(kernel).running(),
        final(kernel).keeps_threads(*old(kernel)),
        put_to_sleep(*old(kernel), *final(kernel), ticks, ms, step),
{
    let expire_ms = match time_ms_at(ticks, &kernel.config) {
        Some(now) => now.checked_add(ms),
        None => None,
    };
    match expire_ms {
        Some(expire_ms) => {
            let task = kernel.current.unwrap();
            add_timer(&mut kernel.timers, expire_ms, task);
            Step::Call(Service::BlockCurrentAndRunNext, Cont::Return(0))
        },
        None => Step::Fault,
    }
}

/// sleep syscall
pub fn sys_sleep(kernel: &mut Kernel, ms: usize) -> (step: Step)
    requires
        old(kernel).running(),
    ensures
        final(kernel).running(),
        final(kernel).keeps_threads(*old(kernel)),
        exists|ticks: Option<usize>| #[trigger]
            clock_reads(ticks) && put_to_sleep(*old(kernel), *final(kernel), ticks, ms, step),
{
    sleep_at(kernel, get_time(), ms)
}

/// Slot `id` of `list` is in use.
pub open spec fn in_use<T>(list: Seq<Option<T>>, id: usize) -> bool {
    id < list.len() && list[id as int] is Some
}

/// The one difference between `after` and `before` is that the current process has one more thing:
/// a mutex of the wanted kind, under the number `id`.
pub open spec fn mutex_created(
    before: Kernel,
    after: Kernel,
    blocking: bool,
    id: isize,
) -> bool {
    let old_inner = before.process().inner;
    let new_inner = after.process().inner;
    &&& after.same_but_process(before, before.task().process)
    &&& new_inner == (ProcessControlBlockInner {
        mutex_list: new_inner.mutex_list,
        ..old_inner
    })
    &&& slots::allotted(
        old_inner.mutex_list@,
        new_inner.mutex_list@,
        if blocking {
            Mutex::Blocking
        } else {
            Mutex::Spin
        },
        id,
    )
}

/// mutex create syscall: returns the number of the new mutex
pub fn sys_mutex_create(kernel: &mut Kernel, blocking: bool) -> (id: isize)
    requires
        old(kernel).running(),
    ensures
        final(kernel).running(),
        final(kernel).keeps_threads(*old(kernel)),
        mutex_created(*old(kernel), *final(kernel), blocking, id),
{
    let process = kernel.current_task().process;
    let mutex = if !blocking {
        Mutex::Spin
    } else {
        Mutex::Blocking
    };
    let id: usize = slots::place(&mut kernel.processes[process.0].inner.mutex_list, Some(mutex));
    id as isize
}

/// What `sys_mutex_lock` asks for.
pub open spec fn lock_asked(kernel: Kernel, mutex_id: usize) -> Step {
    let process = kernel.task().process;
    if kernel.process().inner.deadlock_detect_enabled {
        Step::Call(
            Service::MutexIsHeldByCurrent { process, mutex_id },
            Cont::MutexProbed { process, mutex_id },
        )
    } else {
        Step::Call(Service::MutexLock { process, mutex_id }, Cont::Return(0))
    }
}

/// mutex lock syscall. With deadlock detection, whether the task holds the mutex already comes
/// first.
pub fn sys_mutex_lock(kernel: &Kernel, mutex_id: usize) -> (step: Step)
    requires
        kernel.running(),
        in_use(kernel.process().inner.mutex_list@, mutex_id),
    ensures
        step == lock_asked(*kernel, mutex_id),
{
    let process = kernel.current_task().process;
    if kernel.processes[process.0].inner.deadlock_detect_enabled {
        Step::Call(
            Service::MutexIsHeldByCurrent { process, mutex_id },
            Cont::MutexProbed { process, mutex_id },
        )
    } else {
        Step::Call(Service::MutexLock { process, mutex_id }, Cont::Return(0))
    }
}

/// How `sys_mutex_lock` goes on once it knows whether the task holds the mutex already: a task
/// that does would wait for itself.
pub open spec fn mutex_step(process: ProcessRef, mutex_id: usize, held: bool) -> Step {
    if held {
        Step::Done(DEADLOCK)
    } else {
        Step::Call(Service::MutexLock { process, mutex_id }, Cont::Return(0))
    }
}

/// Goes on with `sys_mutex_lock`.
pub fn mutex_probed(process: ProcessRef, mutex_id: usize, held: bool) -> (step: Step)
    ensures
        step == mutex_step(process, mutex_id, held),
{
    if held {
        Step::Done(DEADLOCK)
    } else {
        Step::Call(Service::MutexLock { process, mutex_id }, Cont::Return(0))
    }
}

/// What `sys_mutex_unlock` asks for.
pub open spec fn unlock_asked(kernel: Kernel, mutex_id: usize) -> Step {
    Step::Call(
        Service::MutexUnlock { process: kernel.task().process, mutex_id },
        Cont::Return(0),
    )
}

/// mutex unlock syscall
pub fn sys_mutex_unlock(kernel: &Kernel, mutex_id: usize) -> (step: Step)
    requires
        kernel.running(),
        in_use(kernel.process().inner.mutex_list@, mutex_id),
    ensures
        step == unlock_asked(*kernel, mutex_id),
{
    let process = kernel.current_task().process;
    Step::Call(Service::MutexUnlock { process, mutex_id }, Cont::Return(0))
}

/// The one difference between `after` and `before` is that the current process has one more thing:
/// a semaphore with `res_count` units, under the number `id`.
pub open spec fn semaphore_created(
    before: Kernel,
    after: Kernel,
    res_count: usize,
    id: isize,
) -> bool {
    let old_inner = before.process().inner;
    let new_inner = after.process().inner;
    &&& after.same_but_process(before, before.task().process)
    &&& new_inner == (ProcessControlBlockInner {
        semaphore_list: new_inner.semaphore_list,
        ..old_inner
    })
    &&& slots::allotted(
        old_inner.semaphore_list@,
        new_inner.semaphore_list@,
        Semaphore { count: res_count as isize },
        id,
    )
}

/// semaphore create syscall: returns the number of the new semaphore
pub fn sys_semaphore_create(kernel: &mut Kernel, res_count: usize) -> (id: isize)
    requires
        old(kernel).running(),
    ensures
        final(kernel).running(),
        final(kernel).keeps_threads(*old(kernel)),
        semaphore_created(*old(kernel), *final(kernel), res_count, id),
{
    let process = kernel.current_task().process;
    let sem = Semaphore::new(res_count);
    let id: usize = slots::place(&mut kernel.processes[process.0].inner.semaphore_list, Some(sem));
    id as isize
}

/// The allocation table of a process, large enough for its threads and semaphores.
pub open spec fn sized_alloc(process: ProcessControlBlockInner) -> Seq<Seq<isize>> {
    padded_alloc(
        alloc_view(process.sem_alloc@),
        process.tasks.len() as int,
        process.semaphore_list.len() as int,
    )
}

/// The wait table of a process, large enough for its threads.
pub open spec fn sized_wait(process: ProcessControlBlockInner) -> Seq<Option<usize>> {
    padded_wait(process.sem_wait_for@, process.tasks.len() as int)
}

/// The free units of each semaphore: none for an empty slot, nor where the count is negative.
pub open spec fn free_units(list: Seq<Option<Semaphore>>) -> Seq<isize> {
    Seq::new(
        list.len(),
        |i: int|
            match list[i] {
                Some(sem) => if sem.count > 0 {
                    sem.count
                } else {
                    0
                },
                None => 0,
            },
    )
}

/// What giving back a unit of semaphore `sem_id` changes in the tables of the process of thread
/// `tid`: with deadlock detection, the thread holds one unit less if it held any.
pub open spec fn unit_returned(
    before: ProcessControlBlockInner,
    after: ProcessControlBlockInner,
    tid: usize,
    sem_id: usize,
) -> bool {
    if before.deadlock_detect_enabled {
        let alloc = sized_alloc(before);
        &&& after == (ProcessControlBlockInner { sem_alloc: after.sem_alloc, ..before })
        &&& alloc_view(after.sem_alloc@) == if tid < alloc.len()
            && alloc[tid as int][sem_id as int] > 0 {
            adjusted(alloc, tid as int, sem_id as int, -1)
        } else {
            alloc
        }
    } else {
        after == before
    }
}

fn return_unit(process: &mut ProcessControlBlockInner, tid: usize, sem_id: usize)
    requires
        in_use(old(process).semaphore_list@, sem_id),
    ensures
        unit_returned(*old(process), *final(process), tid, sem_id),
        forall|n: nat| #[trigger] old(process).wf(n) ==> final(process).wf(n),
{
    let ghost before = *process;
    if process.deadlock_detect_enabled {
        let sem_count: usize = process.semaphore_list.len();
        let thread_count: usize = process.tasks.len();
        ensure_sem_alloc(&mut process.sem_alloc, thread_count, sem_count);
        let ghost alloc = alloc_view(process.sem_alloc@);
        assert(alloc == sized_alloc(before));
        if tid < process.sem_alloc.len() {
            assert(process.sem_alloc@[tid as int]@ == alloc[tid as int]);
            if process.sem_alloc[tid][sem_id] > 0 {
                record_returned(&mut process.sem_alloc, tid, sem_id);
            }
        }
        proof {
            assert forall|n: nat| #[trigger] before.wf(n) implies process.wf(n) by {
                lemma_padded_wf(
                    alloc_view(before.sem_alloc@),
                    thread_count as int,
                    sem_count as int,
                );
                if tid < alloc.len() && alloc[tid as int][sem_id as int] > 0 {
                    lemma_adjusted_wf(alloc, tid as int, sem_id as int, -1);
                }
            }
        }
    }
}

/// What `sys_semaphore_up` comes to.
pub open spec fn unit_given_back(
    before: Kernel,
    after: Kernel,
    sem_id: usize,
    step: Step,
) -> bool {
    let task = before.task();
    &&& after.same_but_process(before, task.process)
    &&& unit_returned(before.process().inner, after.process().inner, task.tid.0, sem_id)
    &&& step == Step::Call(Service::SemaphoreUp { process: task.process, sem_id }, Cont::Return(0))
}

/// semaphore up syscall
pub fn sys_semaphore_up(kernel: &mut Kernel, sem_id: usize) -> (step: Step)
    requires
        old(kernel).running(),
        in_use(old(kernel).process().inner.semaphore_list@, sem_id),
    ensures
        final(kernel).running(),
        final(kernel).keeps_threads(*old(kernel)),
        unit_given_back(*old(kernel), *final(kernel), sem_id, step),
{
    let task = kernel.current_task();
    let process = task.process;
    return_unit(&mut kernel.processes[process.0].inner, task.tid.0, sem_id);
    Step::Call(Service::SemaphoreUp { process, sem_id }, Cont::Return(0))
}

/// The tables of a process have, or will have, the entries that taking a unit of semaphore
/// `sem_id` writes for thread `tid`, and the count of units fits.
pub open spec fn can_take(process: ProcessControlBlockInner, tid: usize, sem_id: usize) -> bool {
    &&& in_use(process.semaphore_list@, sem_id)
    &&& process.deadlock_detect_enabled ==> if process.semaphore_list@[sem_id as int]->0.count
        > 0 {
        &&& tid < sized_alloc(process).len()
        &&& sized_alloc(process)[tid as int][sem_id as int] < isize::MAX
    } else {
        tid < sized_wait(process).len()
    }
}

/// Whether the current thread can ask for a unit of semaphore `sem_id`.
pub fn can_take_unit(kernel: &Kernel, sem_id: usize) -> (ok: bool)
    requires
        kernel.running(),
    ensures
        ok == can_take(kernel.process().inner, kernel.task().tid.0, sem_id),
{
    let task = kernel.current_task();
    let tid: usize = task.tid.0;
    let inner = &kernel.processes[task.process.0].inner;
    if sem_id >= inner.semaphore_list.len() {
        return false;
    }
    match inner.semaphore_list[sem_id] {
        None => false,
        Some(sem) => {
            if !inner.deadlock_detect_enabled {
                true
            } else if sem.count <= 0 {
                tid < inner.sem_wait_for.len() || tid < inner.tasks.len()
            } else if tid < inner.sem_alloc.len() && sem_id < inner.sem_alloc[tid].len() {
                assert(alloc_view(inner.sem_alloc@)[tid as int] == inner.sem_alloc@[tid as int]@);
                inner.sem_alloc[tid][sem_id] < isize::MAX
            } else {
                tid < inner.sem_alloc.len() || tid < inner.tasks.len()
            }
        },
    }
}

/// What taking a unit of semaphore `sem_id` comes to for thread `tid` of a process.
///
/// With deadlock detection: where a unit is free, it is recorded at once. Otherwise the thread is
/// about to block. If that leaves a safe state, it is marked as waiting, and the unit is recorded
/// once it has it. If not, the call is refused and the thread does not wait.
pub open spec fn unit_requested(
    before: ProcessControlBlockInner,
    after: ProcessControlBlockInner,
    process: ProcessRef,
    tid: usize,
    sem_id: usize,
    step: Step,
) -> bool {
    let service = Service::SemaphoreDown { process, sem_id };
    let alloc = sized_alloc(before);
    let wait_for = sized_wait(before);
    let waiting = wait_for.update(tid as int, Some(sem_id));
    if !before.deadlock_detect_enabled {
        &&& after == before
        &&& step == Step::Call(service, Cont::Return(0))
    } else {
        &&& after == (ProcessControlBlockInner {
            sem_alloc: after.sem_alloc,
            sem_wait_for: after.sem_wait_for,
            ..before
        })
        &&& if before.semaphore_list@[sem_id as int]->0.count > 0 {
            &&& alloc_view(after.sem_alloc@) == adjusted(alloc, tid as int, sem_id as int, 1)
            &&& after.sem_wait_for@ == wait_for
            &&& step == Step::Call(service, Cont::Return(0))
        } else if safe_state(alloc, waiting, free_units(before.semaphore_list@)) {
            &&& alloc_view(after.sem_alloc@) == alloc
            &&& after.sem_wait_for@ == waiting
            &&& step == Step::Call(service, Cont::SemaphoreTaken { process, tid, sem_id })
        } else {
            &&& alloc_view(after.sem_alloc@) == alloc
            &&& after.sem_wait_for@ == wait_for.update(tid as int, None)
            &&& step == Step::Done(DEADLOCK)
        }
    }
}

fn count_free_units(list: &Vec<Option<Semaphore>>) -> (avail: Vec<isize>)
    ensures
        avail@ == free_units(list@),
{
    let mut avail: Vec<isize> = Vec::new();
    let mut i: usize = 0;
    while i < list.len()
        invariant
            i <= list.len(),
            avail.len() == i,
            forall|k: int| 0 <= k < i ==> #[trigger] avail@[k] == free_units(list@)[k],
        decreases list.len() - i,
    {
        let units: isize = match list[i] {
            Some(sem) => if sem.count > 0 {
                sem.count
            } else {
                0
            },
            None => 0,
        };
        avail.push(units);
        i += 1;
    }
    assert(avail@ =~= free_units(list@));
    avail
}

fn request_unit(
    inner: &mut ProcessControlBlockInner,
    process: ProcessRef,
    tid: usize,
    sem_id: usize,
    Ghost(task_count): Ghost<nat>,
) -> (step: Step)
    requires
        old(inner).wf(task_count),
        can_take(*old(inner), tid, sem_id),
    ensures
        unit_requested(*old(inner), *final(inner), process, tid, sem_id, step),
        final(inner).wf(task_count),
{
    let ghost before = *inner;
    let service = Service::SemaphoreDown { process, sem_id };
    if !inner.deadlock_detect_enabled {
        return Step::Call(service, Cont::Return(0));
    }
    let sem_count: usize = inner.semaphore_list.len();
    let thread_count: usize = inner.tasks.len();
    ensure_sem_alloc(&mut inner.sem_alloc, thread_count, sem_count);
    ensure_sem_wait_for(&mut inner.sem_wait_for, thread_count);
    let ghost alloc = alloc_view(inner.sem_alloc@);
    proof {
        assert(alloc == sized_alloc(before));
        lemma_padded_wf(alloc_view(before.sem_alloc@), thread_count as int, sem_count as int);
    }
    let available: isize = inner.semaphore_list[sem_id].unwrap().count;
    if available <= 0 {
        inner.sem_wait_for.set(tid, Some(sem_id));
        let avail = count_free_units(&inner.semaphore_list);
        if !is_safe_state(&inner.sem_alloc, &inner.sem_wait_for, &avail) {
            inner.sem_wait_for.set(tid, None);
            assert(inner.sem_wait_for@ =~= sized_wait(before).update(tid as int, None));
            return Step::Done(DEADLOCK);
        }
        Step::Call(service, Cont::SemaphoreTaken { process, tid, sem_id })
    } else {
        proof {
            assert(inner.sem_alloc@[tid as int]@ == alloc[tid as int]);
            assert(alloc[tid as int][sem_id as int] >= 0);
            lemma_adjusted_wf(alloc, tid as int, sem_id as int, 1);
        }
        record_taken(&mut inner.sem_alloc, tid, sem_id);
        Step::Call(service, Cont::Return(0))
    }
}

/// What `sys_semaphore_down` comes to.
pub open spec fn unit_asked_for(before: Kernel, after: Kernel, sem_id: usize, step: Step) -> bool {
    let task = before.task();
    &&& after.same_but_process(before, task.process)
    &&& unit_requested(
        before.process().inner,
        after.process().inner,
        task.process,
        task.tid.0,
        sem_id,
        step,
    )
}

/// semaphore down syscall
pub fn sys_semaphore_down(kernel: &mut Kernel, sem_id: usize) -> (step: Step)
    requires
        old(kernel).running(),
        can_take(old(kernel).process().inner, old(kernel).task().tid.0, sem_id),
    ensures
        final(kernel).running(),
        final(kernel).keeps_threads(*old(kernel)),
        unit_asked_for(*old(kernel), *final(kernel), sem_id, step),
{
    let task = kernel.current_task();
    let process = task.process;
    let ghost task_count = kernel.tasks@.len();
    request_unit(
        &mut kernel.processes[process.0].inner,
        process,
        task.tid.0,
        sem_id,
        Ghost(task_count),
    )
}

/// The tables of a process have the entries that recording a unit of semaphore `sem_id` writes
/// for thread `tid`, and the count of units fits.
pub open spec fn can_record(process: ProcessControlBlockInner, tid: usize, sem_id: usize) -> bool {
    &&& tid < process.sem_alloc.len()
    &&& sem_id < process.sem_alloc@[tid as int].len()
    &&& process.sem_alloc@[tid as int]@[sem_id as int] < isize::MAX
    &&& tid < process.sem_wait_for.len()
}

/// Thread `tid` of a process holds one more unit of semaphore `sem_id`, and waits no longer.
pub open spec fn unit_recorded(
    before: ProcessControlBlockInner,
    after: ProcessControlBlockInner,
    tid: usize,
    sem_id: usize,
) -> bool {
    &&& after == (ProcessControlBlockInner {
        sem_alloc: after.sem_alloc,
        sem_wait_for: after.sem_wait_for,
        ..before
    })
    &&& alloc_view(after.sem_alloc@) == adjusted(
        alloc_view(before.sem_alloc@),
        tid as int,
        sem_id as int,
        1,
    )
    &&& after.sem_wait_for@ == before.sem_wait_for@.update(tid as int, None)
}

/// Goes on with `sys_semaphore_down` when thread `tid` has been woken and has its unit.
pub fn semaphore_taken(
    kernel: &mut Kernel,
    process: ProcessRef,
    tid: usize,
    sem_id: usize,
) -> (step: Step)
    requires
        old(kernel).wf(),
        process.0 < old(kernel).processes.len(),
        can_record(old(kernel).processes@[process.0 as int].inner, tid, sem_id),
    ensures
        final(kernel).wf(),
        final(kernel).keeps_threads(*old(kernel)),
        final(kernel).same_but_process(*old(kernel), process),
        unit_recorded(
            old(kernel).processes@[process.0 as int].inner,
            final(kernel).processes@[process.0 as int].inner,
            tid,
            sem_id,
        ),
        step == Step::Done(0),
{
    proof {
        let inner = kernel.processes@[process.0 as int].inner;
        let alloc = alloc_view(inner.sem_alloc@);
        assert(inner.wf(kernel.tasks@.len()));
        assert(alloc[tid as int] == inner.sem_alloc@[tid as int]@);
        assert(alloc[tid as int][sem_id as int] >= 0);
        lemma_adjusted_wf(alloc, tid as int, sem_id as int, 1);
    }
    record_taken(&mut kernel.processes[process.0].inner.sem_alloc, tid, sem_id);
    kernel.processes[process.0].inner.sem_wait_for.set(tid, None);
    assert(kernel.processes@ =~= old(kernel).processes@.update(
        process.0 as int,
        kernel.processes@[process.0 as int],
    ));
    Step::Done(0)
}

/// The one difference between `after` and `before` is that the current process has one more thing:
/// a condition variable, under the number `id`.
pub open spec fn condvar_created(
    before: Kernel,
    after: Kernel,
    id: isize,
) -> bool {
    let old_inner = before.process().inner;
    let new_inner = after.process().inner;
    &&& after.same_but_process(before, before.task().process)
    &&& new_inner == (ProcessControlBlockInner {
        condvar_list: new_inner.condvar_list,
        ..old_inner
    })
    &&& slots::allotted(
        old_inner.condvar_list@,
        new_inner.condvar_list@,
        Condvar,
        id,
    )
}

/// condvar create syscall: returns the number of the new condition variable
pub fn sys_condvar_create(kernel: &mut Kernel) -> (id: isize)
    requires
        old(kernel).running(),
    ensures
        final(kernel).running(),
        final(kernel).keeps_threads(*old(kernel)),
        condvar_created(*old(kernel), *final(kernel), id),
{
    let process = kernel.current_task().process;
    let id: usize = slots::place(
        &mut kernel.processes[process.0].inner.condvar_list,
        Some(Condvar),
    );
    id as isize
}

/// What `sys_condvar_signal` asks for.
pub open spec fn signal_asked(kernel: Kernel, condvar_id: usize) -> Step {
    Step::Call(
        Service::CondvarSignal { process: kernel.task().process, condvar_id },
        Cont::Return(0),
    )
}

/// condvar signal syscall
pub fn sys_condvar_signal(kernel: &Kernel, condvar_id: usize) -> (step: Step)
    requires
        kernel.running(),
        in_use(kernel.process().inner.condvar_list@, condvar_id),
    ensures
        step == signal_asked(*kernel, condvar_id),
{
    let process = kernel.current_task().process;
    Step::Call(Service::CondvarSignal { process, condvar_id }, Cont::Return(0))
}

/// What `sys_condvar_wait` asks for.
pub open spec fn wait_asked(kernel: Kernel, condvar_id: usize, mutex_id: usize) -> Step {
    Step::Call(
        Service::CondvarWait { process: kernel.task().process, condvar_id, mutex_id },
        Cont::Return(0),
    )
}

/// condvar wait syscall
pub fn sys_condvar_wait(kernel: &Kernel, condvar_id: usize, mutex_id: usize) -> (step: Step)
    requires
        kernel.running(),
        in_use(kernel.process().inner.condvar_list@, condvar_id),
        in_use(kernel.process().inner.mutex_list@, mutex_id),
    ensures
        step == wait_asked(*kernel, condvar_id, mutex_id),
{
    let process = kernel.current_task().process;
    Step::Call(Service::CondvarWait { process, condvar_id, mutex_id }, Cont::Return(0))
}

/// The one difference between `after` and `before` is whether the current process detects
/// deadlocks.
pub open spec fn detection_switched(
    before: Kernel,
    after: Kernel,
    enabled: usize,
    result: isize,
) -> bool {
    &&& after.same_but_process(before, before.task().process)
    &&& after.process().inner == (ProcessControlBlockInner {
        deadlock_detect_enabled: enabled != 0,
        ..before.process().inner
    })
    &&& result == 0
}

/// enable deadlock detection syscall
pub fn sys_enable_deadlock_detect(kernel: &mut Kernel, enabled: usize) -> (result: isize)
    requires
        old(kernel).running(),
    ensures
        final(kernel).running(),
        final(kernel).keeps_threads(*old(kernel)),
        detection_switched(*old(kernel), *final(kernel), enabled, result),
{
    let process = kernel.current_task().process;
    kernel.processes[process.0].inner.deadlock_detect_enabled = enabled != 0;
    0
}

/// A task that goes to sleep is woken once its time is over and not before: a check of the timer
/// queue at `now` wakes it if and only if `now` has reached the reading of the clock plus `ms`.
pub proof fn law_sleep_lasts_long_enough(
    before: Kernel,
    after: Kernel,
    ticks: Option<usize>,
    ms: usize,
    step: Step,
    now: usize,
)
    requires
        put_to_sleep(before, after, ticks, ms, step),
        step != Step::Fault,
    ensures
        step == Step::Call(Service::BlockCurrentAndRunNext, Cont::Return(0)),
        reading_ms(ticks, before.config) is Some,
        now < reading_ms(ticks, before.config)->0 + ms ==> due(after.timers@, now) == due(
            before.timers@,
            now,
        ),
        now >= reading_ms(ticks, before.config)->0 + ms ==> due(after.timers@, now).contains(
            before.current->0,
        ),
{
    let time = wake_time(ticks, before.config, ms)->0;
    law_timer_fires_on_time(before.timers@, time, before.current->0, now);
}

/// With deadlock detection a thread blocks on a semaphore only in a safe state.
pub proof fn law_blocks_only_when_safe(
    before: ProcessControlBlockInner,
    after: ProcessControlBlockInner,
    process: ProcessRef,
    tid: usize,
    sem_id: usize,
    step: Step,
)
    requires
        unit_requested(before, after, process, tid, sem_id, step),
        before.deadlock_detect_enabled,
        before.semaphore_list@[sem_id as int]->0.count <= 0,
        step is Call,
    ensures
        safe_state(
            alloc_view(after.sem_alloc@),
            after.sem_wait_for@,
            free_units(after.semaphore_list@),
        ),
{
}

/// With deadlock detection a request is refused if and only if no unit is free and waiting for one
/// would be a deadlock.
pub proof fn law_refused_iff_deadlock(
    before: ProcessControlBlockInner,
    after: ProcessControlBlockInner,
    process: ProcessRef,
    tid: usize,
    sem_id: usize,
    step: Step,
    task_count: nat,
)
    requires
        before.wf(task_count),
        unit_requested(before, after, process, tid, sem_id, step),
        before.deadlock_detect_enabled,
    ensures
        step == Step::Done(DEADLOCK) <==> before.semaphore_list@[sem_id as int]->0.count <= 0
            && has_deadlock(
            sized_alloc(before),
            sized_wait(before).update(tid as int, Some(sem_id)),
            free_units(before.semaphore_list@),
        ),
{
    lemma_padded_wf(
        alloc_view(before.sem_alloc@),
        before.tasks.len() as int,
        before.semaphore_list.len() as int,
    );
    law_safe_iff_no_deadlock(
        sized_alloc(before),
        sized_wait(before).update(tid as int, Some(sem_id)),
        free_units(before.semaphore_list@),
    );
}

/// A refused request changes nothing: every thread holds what it held, every other thread waits
/// for what it waited for, and the refused one does not wait.
pub proof fn law_refusal_changes_nothing(
    before: ProcessControlBlockInner,
    after: ProcessControlBlockInner,
    process: ProcessRef,
    tid: usize,
    sem_id: usize,
    i: int,
    j: int,
)
    requires
        can_take(before, tid, sem_id),
        unit_requested(before, after, process, tid, sem_id, Step::Done(DEADLOCK)),
    ensures
        held(alloc_view(after.sem_alloc@), i, j) == held(alloc_view(before.sem_alloc@), i, j),
        i != tid ==> waits_on(after.sem_wait_for@, i) == waits_on(before.sem_wait_for@, i),
        waits_on(after.sem_wait_for@, tid as int) is None,
{
}

/// A unit that is free and taken, and then given back, leaves every thread with what it held.
/// Meanwhile the semaphores' counts may have changed.
pub proof fn law_take_and_give_back(
    before: ProcessControlBlockInner,
    taken: ProcessControlBlockInner,
    later: ProcessControlBlockInner,
    after: ProcessControlBlockInner,
    process: ProcessRef,
    tid: usize,
    sem_id: usize,
    step: Step,
    task_count: nat,
    i: int,
    j: int,
)
    requires
        before.wf(task_count),
        can_take(before, tid, sem_id),
        before.deadlock_detect_enabled,
        before.semaphore_list@[sem_id as int]->0.count > 0,
        unit_requested(before, taken, process, tid, sem_id, step),
        later == (ProcessControlBlockInner { semaphore_list: later.semaphore_list, ..taken }),
        later.semaphore_list.len() == taken.semaphore_list.len(),
        unit_returned(later, after, tid, sem_id),
    ensures
        held(alloc_view(taken.sem_alloc@), tid as int, sem_id as int) == held(
            alloc_view(before.sem_alloc@),
            tid as int,
            sem_id as int,
        ) + 1,
        held(alloc_view(after.sem_alloc@), i, j) == held(alloc_view(before.sem_alloc@), i, j),
{
    let alloc = sized_alloc(before);
    lemma_padded_wf(
        alloc_view(before.sem_alloc@),
        before.tasks.len() as int,
        before.semaphore_list.len() as int,
    );
    assert(alloc[tid as int][sem_id as int] >= 0);
    let middle = alloc_view(taken.sem_alloc@);
    assert(middle[tid as int][sem_id as int] == alloc[tid as int][sem_id as int] + 1);
    assert(sized_alloc(later) =~= middle) by {
        assert forall|k: int| 0 <= k < middle.len() implies #[trigger] sized_alloc(later)[k]
            == middle[k] by {
            assert(sized_alloc(later)[k] =~= middle[k]);
        }
    }
}

/// A thread that had to wait for its unit and has got it holds one more and waits no longer; no
/// other thread is touched by that.
pub proof fn law_woken_thread_holds_its_unit(
    before: ProcessControlBlockInner,
    after: ProcessControlBlockInner,
    tid: usize,
    sem_id: usize,
    i: int,
    j: int,
)
    requires
        can_record(before, tid, sem_id),
        unit_recorded(before, after, tid, sem_id),
    ensures
        held(alloc_view(after.sem_alloc@), i, j) == held(alloc_view(before.sem_alloc@), i, j) + if i
            == tid && j == sem_id {
            1int
        } else {
            0int
        },
        waits_on(after.sem_wait_for@, tid as int) is None,
        i != tid ==> waits_on(after.sem_wait_for@, i) == waits_on(before.sem_wait_for@, i),
{
    let row = before.sem_alloc@[tid as int]@;
    assert(alloc_view(before.sem_alloc@)[tid as int] == row);
}

/// A thread that blocks leaves the tables large enough to record its unit when it has got it.
pub proof fn law_blocked_thread_can_go_on(
    before: ProcessControlBlockInner,
    after: ProcessControlBlockInner,
    process: ProcessRef,
    tid: usize,
    sem_id: usize,
    step: Step,
)
    requires
        can_take(before, tid, sem_id),
        tid < before.tasks.len(),
        held(alloc_view(before.sem_alloc@), tid as int, sem_id as int) < isize::MAX,
        unit_requested(before, after, process, tid, sem_id, step),
        step == Step::Call(
            Service::SemaphoreDown { process, sem_id },
            Cont::SemaphoreTaken { process, tid, sem_id },
        ),
    ensures
        can_record(after, tid, sem_id),
{
    let alloc = alloc_view(after.sem_alloc@);
    assert(alloc[tid as int] == after.sem_alloc@[tid as int]@);
}

/// The tables stay large enough for a blocked thread whatever semaphores other threads of the
/// process take or give back meanwhile.
pub proof fn law_other_threads_keep_the_tables(
    before: ProcessControlBlockInner,
    after: ProcessControlBlockInner,
    process: ProcessRef,
    tid: usize,
    sem_id: usize,
    other: usize,
    other_sem: usize,
    step: Step,
)
    requires
        can_record(before, tid, sem_id),
        other != tid,
        ({
            ||| can_take(before, other, other_sem) && unit_requested(
                before,
                after,
                process,
                other,
                other_sem,
                step,
            )
            ||| in_use(before.semaphore_list@, other_sem) && unit_returned(
                before,
                after,
                other,
                other_sem,
            )
            ||| can_record(before, other, other_sem) && unit_recorded(
                before,
                after,
                other,
                other_sem,
            )
        }),
    ensures
        can_record(after, tid, sem_id),
{
    let rows = alloc_view(before.sem_alloc@);
    let next = alloc_view(after.sem_alloc@);
    let sized = sized_alloc(before);
    assert(rows[tid as int] == before.sem_alloc@[tid as int]@);
    assert(sized.len() >= rows.len());
    assert(sized[tid as int].len() >= rows[tid as int].len());
    assert(sized[tid as int][sem_id as int] == rows[tid as int][sem_id as int]);
    assert(next.len() == rows.len() || next.len() == sized.len());
    assert(next[tid as int] == rows[tid as int] || next[tid as int] == sized[tid as int]);
    assert(next[tid as int] == after.sem_alloc@[tid as int]@);
}

/// The number that creating gives stands for a mutex that blocks or spins as wanted
/// in the caller's process. It is the lowest that was free, all other numbers stand for what they
/// stood for, and nothing else changes.
pub proof fn law_mutex_is_created(
    before: Kernel,
    after: Kernel,
    blocking: bool,
    id: isize,
)
    requires
        before.running(),
        before.process().inner.mutex_list.len() < isize::MAX,
        mutex_created(before, after, blocking, id),
    ensures
        ({
            let p = before.tasks@[(before.current->0).0 as int].process;
            let old_inner = before.processes@[p.0 as int].inner;
            let new_inner = after.processes@[p.0 as int].inner;
            let old_list = old_inner.mutex_list@;
            let new_list = new_inner.mutex_list@;
            &&& rest_is_untouched(before, after, p)
            &&& new_inner == (ProcessControlBlockInner {
                mutex_list: new_inner.mutex_list,
                ..old_inner
            })
            &&& 0 <= id < new_list.len()
            &&& id < old_list.len() ==> old_list[id as int] is None
            &&& forall|i: int| 0 <= i < id ==> #[trigger] old_list[i] is Some
            &&& forall|i: int|
                0 <= i < old_list.len() && i != id ==> #[trigger] new_list[i] == old_list[i]
            &&& old_list.len() <= new_list.len() <= old_list.len() + 1
            &&& new_inner.mutex_list@[id as int] == Some(
                if blocking {
                    Mutex::Blocking
                } else {
                    Mutex::Spin
                },
            )
        }),
{
}

/// The number that creating gives stands for a semaphore with as many units as wanted
/// in the caller's process. It is the lowest that was free, all other numbers stand for what they
/// stood for, and nothing else changes.
pub proof fn law_semaphore_is_created(
    before: Kernel,
    after: Kernel,
    res_count: usize,
    id: isize,
)
    requires
        before.running(),
        before.process().inner.semaphore_list.len() < isize::MAX,
        semaphore_created(before, after, res_count, id),
    ensures
        ({
            let p = before.tasks@[(before.current->0).0 as int].process;
            let old_inner = before.processes@[p.0 as int].inner;
            let new_inner = after.processes@[p.0 as int].inner;
            let old_list = old_inner.semaphore_list@;
            let new_list = new_inner.semaphore_list@;
            &&& rest_is_untouched(before, after, p)
            &&& new_inner == (ProcessControlBlockInner {
                semaphore_list: new_inner.semaphore_list,
                ..old_inner
            })
            &&& 0 <= id < new_list.len()
            &&& id < old_list.len() ==> old_list[id as int] is None
            &&& forall|i: int| 0 <= i < id ==> #[trigger] old_list[i] is Some
            &&& forall|i: int|
                0 <= i < old_list.len() && i != id ==> #[trigger] new_list[i] == old_list[i]
            &&& old_list.len() <= new_list.len() <= old_list.len() + 1
            &&& new_inner.semaphore_list@[id as int] matches Some(sem)
            &&& sem.count as usize == res_count
            &&& res_count <= isize::MAX ==> sem.count == res_count
        }),
{
    assert((res_count as isize) as usize == res_count) by (bit_vector);
}

/// The number that creating gives stands for a condition variable
/// in the caller's process. It is the lowest that was free, all other numbers stand for what they
/// stood for, and nothing else changes.
pub proof fn law_condvar_is_created(
    before: Kernel,
    after: Kernel,
    id: isize,
)
    requires
        before.running(),
        before.process().inner.condvar_list.len() < isize::MAX,
        condvar_created(before, after, id),
    ensures
        ({
            let p = before.tasks@[(before.current->0).0 as int].process;
            let old_inner = before.processes@[p.0 as int].inner;
            let new_inner = after.processes@[p.0 as int].inner;
            let old_list = old_inner.condvar_list@;
            let new_list = new_inner.condvar_list@;
            &&& rest_is_untouched(before, after, p)
            &&& new_inner == (ProcessControlBlockInner {
                condvar_list: new_inner.condvar_list,
                ..old_inner
            })
            &&& 0 <= id < new_list.len()
            &&& id < old_list.len() ==> old_list[id as int] is None
            &&& forall|i: int| 0 <= i < id ==> #[trigger] old_list[i] is Some
            &&& forall|i: int|
                0 <= i < old_list.len() && i != id ==> #[trigger] new_list[i] == old_list[i]
            &&& old_list.len() <= new_list.len() <= old_list.len() + 1
            &&& new_inner.condvar_list@[id as int] is Some
        }),
{
}

/// Locking, unlocking, signalling and waiting name what they were called with, in the caller's
/// process, and return zero. With deadlock detection, locking first asks whether the caller holds
/// that very mutex.
pub proof fn law_locks_are_named(kernel: Kernel, condvar_id: usize, mutex_id: usize)
    requires
        kernel.running(),
    ensures
        ({
            let p = kernel.tasks@[(kernel.current->0).0 as int].process;
            let detects = kernel.processes@[p.0 as int].inner.deadlock_detect_enabled;
            &&& lock_asked(kernel, mutex_id) matches Step::Call(service, cont)
            &&& detects ==> {
                &&& service matches Service::MutexIsHeldByCurrent { process, mutex_id: id }
                &&& process == p && id == mutex_id
                &&& cont matches Cont::MutexProbed { process, mutex_id: id }
                &&& process == p && id == mutex_id
            }
            &&& !detects ==> {
                &&& service matches Service::MutexLock { process, mutex_id: id }
                &&& process == p && id == mutex_id
                &&& cont == Cont::Return(0)
            }
        }),
        ({
            let p = kernel.tasks@[(kernel.current->0).0 as int].process;
            &&& unlock_asked(kernel, mutex_id) matches Step::Call(service, cont)
            &&& service matches Service::MutexUnlock { process, mutex_id: id }
            &&& process == p && id == mutex_id && cont == Cont::Return(0)
        }),
        ({
            let p = kernel.tasks@[(kernel.current->0).0 as int].process;
            &&& signal_asked(kernel, condvar_id) matches Step::Call(service, cont)
            &&& service matches Service::CondvarSignal { process, condvar_id: id }
            &&& process == p && id == condvar_id && cont == Cont::Return(0)
        }),
        ({
            let p = kernel.tasks@[(kernel.current->0).0 as int].process;
            &&& wait_asked(kernel, condvar_id, mutex_id) matches Step::Call(service, cont)
            &&& service matches Service::CondvarWait { process, condvar_id: c, mutex_id: m }
            &&& process == p && c == condvar_id && m == mutex_id && cont == Cont::Return(0)
        }),
{
}

/// Probing changes nothing in what is locked: a caller that does not hold the mutex is given the
/// very step that it is given without deadlock detection, and one that does is refused.
pub proof fn law_probed_lock_is_the_plain_lock(
    kernel: Kernel,
    plain: Kernel,
    mutex_id: usize,
    probe: Service,
    process: ProcessRef,
    probed_id: usize,
    held: bool,
)
    requires
        kernel.running(),
        plain.running(),
        plain.task().process == kernel.task().process,
        !plain.process().inner.deadlock_detect_enabled,
        lock_asked(kernel, mutex_id) == Step::Call(
            probe,
            Cont::MutexProbed { process, mutex_id: probed_id },
        ),
    ensures
        !held ==> mutex_step(process, probed_id, held) == lock_asked(plain, mutex_id),
        held ==> (mutex_step(process, probed_id, held) matches Step::Done(r) && r == -0xdead),
{
    law_locks_are_named(kernel, 0, mutex_id);
    law_locks_are_named(plain, 0, mutex_id);
}

/// Deadlock detection is on exactly where the argument is not zero, and nothing else changes.
pub proof fn law_detection_is_switched(
    before: Kernel,
    after: Kernel,
    enabled: usize,
    result: isize,
)
    requires
        before.running(),
        detection_switched(before, after, enabled, result),
    ensures
        ({
            let p = before.tasks@[(before.current->0).0 as int].process;
            let old_inner = before.processes@[p.0 as int].inner;
            let new_inner = after.processes@[p.0 as int].inner;
            &&& rest_is_untouched(before, after, p)
            &&& new_inner == (ProcessControlBlockInner {
                deadlock_detect_enabled: new_inner.deadlock_detect_enabled,
                ..old_inner
            })
            &&& new_inner.deadlock_detect_enabled <==> enabled != 0
            &&& result == 0
        }),
{
}

/// A task that goes to sleep while the clock reads `ticks` is entered last among those that wait
/// for the time in milliseconds that is `ms` later, and is blocked; when it goes on, the call
/// returns zero. Where there is no such time, nothing happens.
pub proof fn law_sleeper_is_queued_and_blocked(
    before: Kernel,
    after: Kernel,
    ticks: Option<usize>,
    ms: usize,
    step: Step,
    now: usize,
)
    requires
        before.config.clock_freq > 0,
        before.current is Some,
        put_to_sleep(before, after, ticks, ms, step),
    ensures
        (ticks is None || ticks->0 * 1000 > usize::MAX) ==> step == Step::Fault && after == before,
        ticks matches Some(t) && t * 1000 <= usize::MAX && now * before.config.clock_freq <= t
            * 1000 && t * 1000 < (now + 1) * before.config.clock_freq ==> if now + ms
            <= usize::MAX {
            let time = (now + ms) as usize;
            let queue = before.timers@;
            let next = after.timers@;
            &&& step matches Step::Call(service, cont)
            &&& service == Service::BlockCurrentAndRunNext
            &&& cont == Cont::Return(0)
            &&& after.config == before.config
            &&& after.processes == before.processes
            &&& after.tasks == before.tasks
            &&& after.current == before.current
            &&& next.contains_key(time)
            &&& Some(next[time].last()) == before.current
            &&& next[time].drop_last() == if queue.contains_key(time) {
                queue[time]
            } else {
                Seq::empty()
            }
            &&& forall|other: usize|
                other != time ==> (#[trigger] next.contains_key(other) <==> queue.contains_key(
                    other,
                ))
            &&& forall|other: usize|
                other != time && queue.contains_key(other) ==> #[trigger] next[other]
                    == queue[other]
        } else {
            step == Step::Fault && after == before
        },
{
    law_readings_have_their_units(ticks, before.config);
    if let Some(t) = ticks {
        let freq = before.config.clock_freq;
        if t * 1000 <= usize::MAX && now * freq <= t * 1000 < (now + 1) * freq {
            let reading = reading_ms(ticks, before.config)->0;
            lemma_quotient_is_unique(t * 1000, freq as int, now as int);
            lemma_quotient_is_unique(t * 1000, freq as int, reading as int);
            if now + ms <= usize::MAX {
                law_timer_is_added_last(before.timers@, (now + ms) as usize, before.current->0);
            }
        }
    }
}

/// What a thread waits for by the tables of a process; nothing where they do not say.
pub open spec fn wanted(process: ProcessControlBlockInner, i: int) -> Option<usize> {
    if 0 <= i < process.sem_wait_for.len() {
        process.sem_wait_for@[i]
    } else {
        None
    }
}

/// What thread `i` would wait for if thread `tid` waited for semaphore `sem_id`.
pub open spec fn would_want(
    process: ProcessControlBlockInner,
    tid: usize,
    sem_id: usize,
    i: int,
) -> Option<usize> {
    if i == tid {
        Some(sem_id)
    } else {
        wanted(process, i)
    }
}

/// If thread `tid` waited for semaphore `sem_id`, the threads in `stuck` would wait for each other
/// for ever: each of them wants a semaphore that does not exist, or whose slot has no free unit
/// and all of whose units that are held are held by some of them.
pub open spec fn circle_closes(
    process: ProcessControlBlockInner,
    tid: usize,
    sem_id: usize,
    stuck: Set<int>,
) -> bool {
    forall|i: int| #[trigger]
        stuck.contains(i) ==> {
            &&& 0 <= i
            &&& i < process.tasks.len() || i < process.sem_alloc.len()
            &&& would_want(process, tid, sem_id, i) matches Some(s)
            &&& s < process.semaphore_list.len() ==> {
                &&& process.semaphore_list@[s as int] matches Some(sem) ==> sem.count <= 0
                &&& forall|t: int| #[trigger]
                    entry(process.sem_alloc@, t, s as int) > 0 ==> stuck.contains(t)
            }
        }
}

/// A thread in `stuck` holds a unit.
pub open spec fn keeps_a_unit(process: ProcessControlBlockInner, stuck: Set<int>) -> bool {
    exists|i: int, j: int| #[trigger]
        entry(process.sem_alloc@, i, j) > 0 && stuck.contains(i)
}

proof fn lemma_sized_entries(process: ProcessControlBlockInner, i: int, j: int)
    requires
        alloc_wf(alloc_view(process.sem_alloc@)),
    ensures
        held(sized_alloc(process), i, j) == entry(process.sem_alloc@, i, j),
        entry(process.sem_alloc@, i, j) >= 0,
{
    let rows = alloc_view(process.sem_alloc@);
    if 0 <= i < process.sem_alloc.len() {
        assert(rows[i] == process.sem_alloc@[i]@);
        if 0 <= j < rows[i].len() {
            assert(rows[i][j] >= 0);
        }
    }
}

/// With deadlock detection a request is refused, with -0xdead, if and only if the semaphore's own
/// slot has no free unit and some threads, one of which keeps a unit, would wait for each other
/// for ever. What is free is what the slots count.
pub proof fn law_refused_iff_a_circle_closes(
    before: ProcessControlBlockInner,
    after: ProcessControlBlockInner,
    process: ProcessRef,
    tid: usize,
    sem_id: usize,
    step: Step,
    task_count: nat,
)
    requires
        before.wf(task_count),
        can_take(before, tid, sem_id),
        before.deadlock_detect_enabled,
        unit_requested(before, after, process, tid, sem_id, step),
    ensures
        (step matches Step::Done(r) && r == -0xdead) <==> {
            &&& before.semaphore_list@[sem_id as int]->0.count <= 0
            &&& exists|stuck: Set<int>| #[trigger]
                circle_closes(before, tid, sem_id, stuck) && keeps_a_unit(before, stuck)
        },
        step is Done ==> step == Step::Done(-0xdead as isize),
{
    let alloc = sized_alloc(before);
    let waiting = sized_wait(before).update(tid as int, Some(sem_id));
    let avail = free_units(before.semaphore_list@);
    law_refused_iff_deadlock(before, after, process, tid, sem_id, step, task_count);
    if before.semaphore_list@[sem_id as int]->0.count <= 0 {
        assert forall|i: int| 0 <= i < alloc.len() implies #[trigger] waits_on(waiting, i)
            == would_want(before, tid, sem_id, i) by {}
        if has_deadlock(alloc, waiting, avail) {
            let (stuck, i) = choose|stuck: Set<int>, i: int| #[trigger]
                deadlocked(alloc, waiting, avail, stuck) && stuck.contains(i)
                    && #[trigger] holds_any(alloc, i);
            assert(circle_closes(before, tid, sem_id, stuck)) by {
                assert forall|k: int| #[trigger] stuck.contains(k) implies ({
                    &&& 0 <= k
                    &&& k < before.tasks.len() || k < before.sem_alloc.len()
                    &&& would_want(before, tid, sem_id, k) matches Some(s)
                    &&& s < before.semaphore_list.len() ==> {
                        &&& before.semaphore_list@[s as int] matches Some(sem) ==> sem.count <= 0
                        &&& forall|t: int| #[trigger]
                            entry(before.sem_alloc@, t, s as int) > 0 ==> stuck.contains(t)
                    }
                }) by {
                    let s = waits_on(waiting, k)->0;
                    if s < before.semaphore_list.len() {
                        assert(avail[s as int] <= 0);
                        assert forall|t: int| #[trigger]
                            entry(before.sem_alloc@, t, s as int) > 0 implies stuck.contains(t) by {
                            lemma_sized_entries(before, t, s as int);
                        }
                    }
                }
            }
            let j = choose|j: int| 0 <= j < alloc[i].len() && #[trigger] alloc[i][j] > 0;
            lemma_sized_entries(before, i, j);
            assert(entry(before.sem_alloc@, i, j) > 0);
            assert(keeps_a_unit(before, stuck));
        }
        assert forall|stuck: Set<int>| #[trigger]
            circle_closes(before, tid, sem_id, stuck) && keeps_a_unit(
                before,
                stuck,
            ) implies has_deadlock(alloc, waiting, avail) by {
            assert(deadlocked(alloc, waiting, avail, stuck)) by {
                assert forall|i: int| #[trigger] stuck.contains(i) implies ({
                    &&& 0 <= i < alloc.len()
                    &&& waits_on(waiting, i) matches Some(s)
                    &&& s < avail.len() ==> avail[s as int] <= 0 && forall|t: int|
                        #![trigger stuck.contains(t)]
                        0 <= t < alloc.len() && !stuck.contains(t) ==> held(
                            alloc,
                            t,
                            s as int,
                        ) == 0
                }) by {
                    let s = would_want(before, tid, sem_id, i)->0;
                    assert(waits_on(waiting, i) == Some(s));
                    assert forall|t: int|
                        #![trigger stuck.contains(t)]
                        s < avail.len() && 0 <= t < alloc.len() && !stuck.contains(t) implies held(
                        alloc,
                        t,
                        s as int,
                    ) == 0 by {
                        lemma_sized_entries(before, t, s as int);
                        assert(!(entry(before.sem_alloc@, t, s as int) > 0));
                    }
                }
            }
            let (i, j) = choose|i: int, j: int| #[trigger]
                entry(before.sem_alloc@, i, j) > 0 && stuck.contains(i);
            lemma_sized_entries(before, i, j);
            assert(alloc[i][j] > 0);
            assert(holds_any(alloc, i));
        }
    }
}

/// A thread never waits for itself: where the semaphore's slot has no free unit and every unit of
/// it that is held is held by the caller, which holds at least one, the call is refused, whatever
/// the other semaphores count.
pub proof fn law_nobody_waits_for_itself(
    before: ProcessControlBlockInner,
    after: ProcessControlBlockInner,
    process: ProcessRef,
    tid: usize,
    sem_id: usize,
    step: Step,
    task_count: nat,
)
    requires
        before.wf(task_count),
        can_take(before, tid, sem_id),
        before.deadlock_detect_enabled,
        unit_requested(before, after, process, tid, sem_id, step),
        before.semaphore_list@[sem_id as int]->0.count <= 0,
        entry(before.sem_alloc@, tid as int, sem_id as int) > 0,
        forall|t: int| #[trigger]
            entry(before.sem_alloc@, t, sem_id as int) > 0 ==> t == tid,
    ensures
        step matches Step::Done(r) && r == -0xdead,
{
    law_refused_iff_a_circle_closes(before, after, process, tid, sem_id, step, task_count);
    let stuck = set![tid as int];
    assert(circle_closes(before, tid, sem_id, stuck));
    assert(keeps_a_unit(before, stuck));
}

/// What asking for a unit does to the tables and how it goes on. Nothing but the tables changes.
/// Without detection not even they do. With it, a free unit is recorded for the caller at once;
/// otherwise nobody's units change, and the caller is marked as waiting for the semaphore if it is
/// to block, and as waiting for nothing if it is refused. No other thread's entries change. The
/// semaphore and the process named are those of the call.
pub proof fn law_asking_for_a_unit(
    before: ProcessControlBlockInner,
    after: ProcessControlBlockInner,
    process: ProcessRef,
    tid: usize,
    sem_id: usize,
    step: Step,
)
    requires
        can_take(before, tid, sem_id),
        unit_requested(before, after, process, tid, sem_id, step),
    ensures
        after == (ProcessControlBlockInner {
            sem_alloc: after.sem_alloc,
            sem_wait_for: after.sem_wait_for,
            ..before
        }),
        step matches Step::Call(service, cont) ==> {
            &&& service matches Service::SemaphoreDown { process: p, sem_id: s }
            &&& p == process && s == sem_id
            &&& if before.deadlock_detect_enabled
                && before.semaphore_list@[sem_id as int]->0.count <= 0 {
                &&& cont matches Cont::SemaphoreTaken { process: p, tid: t, sem_id: s }
                &&& p == process && t == tid && s == sem_id
            } else {
                cont == Cont::Return(0)
            }
        },
        !before.deadlock_detect_enabled ==> step is Call && after.sem_alloc == before.sem_alloc
            && after.sem_wait_for == before.sem_wait_for,
        before.deadlock_detect_enabled && before.semaphore_list@[sem_id as int]->0.count > 0 ==> {
            &&& step is Call
            &&& forall|i: int, j: int| #[trigger]
                entry(after.sem_alloc@, i, j) == entry(before.sem_alloc@, i, j) + if i == tid && j
                    == sem_id {
                    1int
                } else {
                    0int
                }
            &&& forall|i: int| #[trigger] wanted(after, i) == wanted(before, i)
        },
        before.deadlock_detect_enabled && before.semaphore_list@[sem_id as int]->0.count <= 0
            ==> {
            &&& step is Call || step is Done
            &&& forall|i: int, j: int| #[trigger]
                entry(after.sem_alloc@, i, j) == entry(before.sem_alloc@, i, j)
            &&& forall|i: int| i != tid ==> #[trigger] wanted(after, i) == wanted(before, i)
            &&& step is Call ==> wanted(after, tid as int) == Some(sem_id)
            &&& step is Done ==> wanted(after, tid as int) is None
        },
{
    if before.deadlock_detect_enabled {
        let sized = sized_alloc(before);
        let rows = alloc_view(before.sem_alloc@);
        let next = alloc_view(after.sem_alloc@);
        assert forall|i: int, j: int| #[trigger] entry(after.sem_alloc@, i, j) == held(
            next,
            i,
            j,
        ) by {
            if 0 <= i < after.sem_alloc.len() {
                assert(next[i] == after.sem_alloc@[i]@);
            }
        }
        assert forall|i: int, j: int| #[trigger] entry(before.sem_alloc@, i, j) == held(
            sized,
            i,
            j,
        ) by {
            if 0 <= i < before.sem_alloc.len() {
                assert(rows[i] == before.sem_alloc@[i]@);
            }
        }
    }
}

/// What giving back a unit does to the tables: with detection the caller holds one unit of that
/// semaphore less if it held any; nothing else changes, and without detection nothing at all.
pub proof fn law_giving_back_a_unit(
    before: ProcessControlBlockInner,
    after: ProcessControlBlockInner,
    tid: usize,
    sem_id: usize,
)
    requires
        in_use(before.semaphore_list@, sem_id),
        unit_returned(before, after, tid, sem_id),
    ensures
        after == (ProcessControlBlockInner { sem_alloc: after.sem_alloc, ..before }),
        !before.deadlock_detect_enabled ==> after.sem_alloc == before.sem_alloc,
        before.deadlock_detect_enabled ==> forall|i: int, j: int| #[trigger]
            entry(after.sem_alloc@, i, j) == entry(before.sem_alloc@, i, j) - if i == tid && j
                == sem_id && entry(before.sem_alloc@, i, j) > 0 {
                1int
            } else {
                0int
            },
{
    if before.deadlock_detect_enabled {
        let sized = sized_alloc(before);
        let rows = alloc_view(before.sem_alloc@);
        let next = alloc_view(after.sem_alloc@);
        assert forall|i: int, j: int| #[trigger] entry(after.sem_alloc@, i, j) == held(
            next,
            i,
            j,
        ) by {
            if 0 <= i < after.sem_alloc.len() {
                assert(next[i] == after.sem_alloc@[i]@);
            }
        }
        assert forall|i: int, j: int| #[trigger] entry(before.sem_alloc@, i, j) == held(
            sized,
            i,
            j,
        ) by {
            if 0 <= i < before.sem_alloc.len() {
                assert(rows[i] == before.sem_alloc@[i]@);
            }
        }
    }
}

/// What recording the unit of a thread that had to wait does to the tables: that thread holds one
/// unit of that semaphore more and waits for nothing; nothing else changes.
pub proof fn law_recording_a_unit(
    before: ProcessControlBlockInner,
    after: ProcessControlBlockInner,
    tid: usize,
    sem_id: usize,
)
    requires
        can_record(before, tid, sem_id),
        unit_recorded(before, after, tid, sem_id),
    ensures
        after == (ProcessControlBlockInner {
            sem_alloc: after.sem_alloc,
            sem_wait_for: after.sem_wait_for,
            ..before
        }),
        after.sem_alloc.len() == before.sem_alloc.len(),
        after.sem_wait_for.len() == before.sem_wait_for.len(),
        forall|i: int, j: int| #[trigger]
            entry(after.sem_alloc@, i, j) == entry(before.sem_alloc@, i, j) + if i == tid && j
                == sem_id {
                1int
            } else {
                0int
            },
        forall|i: int| i != tid ==> #[trigger] wanted(after, i) == wanted(before, i),
        wanted(after, tid as int) is None,
{
    law_one_entry_changes(
        before.sem_alloc@,
        after.sem_alloc@,
        tid as int,
        sem_id as int,
        1,
    );
}

/// Taking and giving back units are about the caller: the tables that change are those of its
/// process, the row is that of its identifier, and the semaphore is the one it names there.
pub proof fn law_units_are_the_callers(before: Kernel, after: Kernel, sem_id: usize, step: Step)
    requires
        before.running(),
    ensures
        ({
            let task = before.tasks@[(before.current->0).0 as int];
            let old_inner = before.processes@[task.process.0 as int].inner;
            let new_inner = after.processes@[task.process.0 as int].inner;
            &&& unit_asked_for(before, after, sem_id, step) ==> {
                &&& rest_is_untouched(before, after, task.process)
                &&& unit_requested(
                    old_inner,
                    new_inner,
                    task.process,
                    task.tid.0,
                    sem_id,
                    step,
                )
            }
            &&& unit_given_back(before, after, sem_id, step) ==> {
                &&& rest_is_untouched(before, after, task.process)
                &&& unit_returned(old_inner, new_inner, task.tid.0, sem_id)
                &&& step matches Step::Call(service, cont)
                &&& service matches Service::SemaphoreUp { process: p, sem_id: s }
                &&& p == task.process && s == sem_id && cont == Cont::Return(0)
            }
        }),
{
}

/// A request is possible for a semaphore that there is, and without detection always. With
/// detection the caller needs an entry of its own in the table that is to be written, which it has
/// or will be given if it is listed, and room for one more unit in it.
pub proof fn law_who_can_take(process: ProcessControlBlockInner, tid: usize, sem_id: usize)
    ensures
        can_take(process, tid, sem_id) <==> {
            &&& sem_id < process.semaphore_list.len()
            &&& process.semaphore_list@[sem_id as int] matches Some(sem)
            &&& process.deadlock_detect_enabled && sem.count > 0 ==> (tid < process.tasks.len()
                || tid < process.sem_alloc.len()) && entry(
                process.sem_alloc@,
                tid as int,
                sem_id as int,
            ) < isize::MAX
            &&& process.deadlock_detect_enabled && sem.count <= 0 ==> tid < process.tasks.len()
                || tid < process.sem_wait_for.len()
        },
{
    let rows = alloc_view(process.sem_alloc@);
    if tid < process.sem_alloc.len() {
        assert(rows[tid as int] == process.sem_alloc@[tid as int]@);
    }
}

} // verus!
