//! Threads.

use crate::kernel::{
    exit_code_stays, law_exit_code_stays_the_same, law_reservations_stay,
    law_threads_stay_the_same, reservations_stay, rest_is_untouched, threads_stay, Kernel,
};
use crate::objects::{KernelStack, PageTableEntry, PhysPageNum, ProcessRef, TaskRef};
use crate::service::{Cont, NewThread, Service, Step};
use crate::syscall::process::code_submitted;
use crate::task::{
    lemma_trap_pages_apart, next_thread, thread_context, thread_created, thread_fits,
    ProcessControlBlockInner, TaskControlBlock, TaskStatus,
};
use vstd::prelude::*;

verus! {

/// What `sys_thread_create` asks for first.
pub open spec fn thread_asked(kernel: Kernel, entry: usize, arg: usize) -> Step {
    Step::Call(
        Service::AllocKernelStack,
        Cont::ThreadStack { process: kernel.task().process, entry, arg },
    )
}

/// thread create syscall: a thread that runs `entry` with the argument `arg`. It needs a kernel
/// stack first.
pub fn sys_thread_create(kernel: &Kernel, entry: usize, arg: usize) -> (step: Step)
    requires
        kernel.running(),
    ensures
        step == thread_asked(*kernel, entry, arg),
{
    let process = kernel.current_task().process;
    Step::Call(Service::AllocKernelStack, Cont::ThreadStack { process, entry, arg })
}

/// How `sys_thread_create` goes on once it has a kernel stack: what the thread needs is set aside
/// in its process, and the page of its trap context is asked for.
pub open spec fn stack_step(
    before: Kernel,
    after: Kernel,
    process: ProcessRef,
    entry: usize,
    arg: usize,
    kernel_stack: KernelStack,
    step: Step,
) -> bool {
    let inner = before.processes@[process.0 as int].inner;
    let thread = next_thread(inner, before.config, kernel_stack, entry, arg);
    &&& after.same_but_process(before, process)
    &&& after.processes@[process.0 as int].inner == (ProcessControlBlockInner {
        next_tid: (inner.next_tid + 1) as usize,
        next_ustack: thread.ustack_top,
        ..inner
    })
    &&& step == Step::Call(
        Service::InsertFramedArea {
            process,
            start: thread.trap_cx_va,
            end: (thread.trap_cx_va + before.config.page_size) as usize,
            user: false,
        },
        Cont::ThreadTrapPage { process, thread },
    )
}

/// How `sys_thread_create` goes on once the page of the trap context is mapped: the user stack is
/// asked for.
pub open spec fn trap_page_step(process: ProcessRef, thread: NewThread) -> Step {
    Step::Call(
        Service::InsertFramedArea {
            process,
            start: thread.ustack_bottom,
            end: thread.ustack_top,
            user: true,
        },
        Cont::ThreadUserStack { process, thread },
    )
}

/// How `sys_thread_create` goes on once the user stack is mapped: it asks where the trap context
/// has been mapped to.
pub open spec fn user_stack_step(kernel: Kernel, process: ProcessRef, thread: NewThread) -> Step {
    Step::Call(
        Service::Translate {
            token: kernel.processes@[process.0 as int].inner.memory_set.token,
            va: thread.trap_cx_va,
        },
        Cont::ThreadFrame { process, thread },
    )
}

/// How `sys_thread_create` goes on once it has created the thread: its trap context is to be set
/// up in the frame `ppn`.
pub open spec fn frame_step(before: Kernel, thread: NewThread, ppn: PhysPageNum) -> Step {
    Step::Call(
        thread_context(before.config, thread, ppn),
        Cont::ThreadReady { task: TaskRef(before.tasks.len()), tid: thread.tid },
    )
}

/// Goes on with `sys_thread_create`: sets aside what the thread needs in its process, and asks for
/// the page of its trap context.
pub fn thread_stack_allocated(
    kernel: &mut Kernel,
    process: ProcessRef,
    entry: usize,
    arg: usize,
    kernel_stack: KernelStack,
) -> (step: Step)
    requires
        old(kernel).wf(),
        process.0 < old(kernel).processes.len(),
        thread_fits(old(kernel).processes@[process.0 as int].inner, old(kernel).config),
    ensures
        final(kernel).wf(),
        final(kernel).keeps_threads(*old(kernel)),
        stack_step(*old(kernel), *final(kernel), process, entry, arg, kernel_stack, step),
{
    let config = kernel.config;
    let thread = kernel.processes[process.0].inner.reserve_thread(
        &config,
        kernel_stack,
        entry,
        arg,
    );
    Step::Call(
        Service::InsertFramedArea {
            process,
            start: thread.trap_cx_va,
            end: thread.trap_cx_va + config.page_size,
            user: false,
        },
        Cont::ThreadTrapPage { process, thread },
    )
}

/// Goes on with `sys_thread_create`: asks for the thread's user stack.
pub fn thread_trap_page_mapped(process: ProcessRef, thread: NewThread) -> (step: Step)
    ensures
        step == trap_page_step(process, thread),
{
    Step::Call(
        Service::InsertFramedArea {
            process,
            start: thread.ustack_bottom,
            end: thread.ustack_top,
            user: true,
        },
        Cont::ThreadUserStack { process, thread },
    )
}

/// Goes on with `sys_thread_create`: asks where the trap context has been mapped to.
pub fn thread_user_stack_mapped(
    kernel: &Kernel,
    process: ProcessRef,
    thread: NewThread,
) -> (step: Step)
    requires
        process.0 < kernel.processes.len(),
    ensures
        step == user_stack_step(*kernel, process, thread),
{
    Step::Call(
        Service::Translate {
            token: kernel.processes[process.0].get_user_token(),
            va: thread.trap_cx_va,
        },
        Cont::ThreadFrame { process, thread },
    )
}

/// Goes on with `sys_thread_create`: creates the thread, and asks for its trap context to be set
/// up.
pub fn thread_frame_found(
    kernel: &mut Kernel,
    process: ProcessRef,
    thread: NewThread,
    entry: PageTableEntry,
) -> (step: Step)
    requires
        old(kernel).wf(),
        process.0 < old(kernel).processes.len(),
        thread.tid < usize::MAX,
    ensures
        final(kernel).wf(),
        final(kernel).keeps_threads(*old(kernel)),
        thread_created(*old(kernel), *final(kernel), process, thread, entry.ppn),
        step == frame_step(*old(kernel), thread, entry.ppn),
{
    let (task, trap_cx) = TaskControlBlock::new_thread(kernel, process, thread, entry.ppn);
    Step::Call(trap_cx, Cont::ThreadReady { task, tid: thread.tid })
}

/// Goes on with `sys_thread_create`: lets the thread run, and returns its identifier.
pub fn thread_ready(task: TaskRef, tid: usize) -> (step: Step)
    ensures
        step == Step::Call(Service::AddTask { task }, Cont::Return(tid as isize)),
{
    Step::Call(Service::AddTask { task }, Cont::Return(tid as isize))
}

/// The identifier of the thread that runs, as a call returns it.
pub open spec fn own_identifier(kernel: Kernel) -> isize {
    kernel.task().tid.0 as isize
}

/// get current thread id syscall
pub fn sys_gettid(kernel: &Kernel) -> (tid: isize)
    requires
        kernel.running(),
    ensures
        tid == own_identifier(*kernel),
{
    kernel.current_task().tid.0 as isize
}

/// The thread `tid` of the current process exists.
pub open spec fn can_be_awaited(kernel: Kernel, tid: usize) -> bool {
    &&& tid < kernel.process().inner.tasks.len()
    &&& kernel.process().inner.tasks@[tid as int] is Some
}

/// The thread `tid` of the current process.
pub open spec fn awaited(kernel: Kernel, tid: usize) -> TaskControlBlock {
    kernel.tasks@[(kernel.process().inner.tasks@[tid as int]->0).0 as int]
}

/// What waiting for the thread `tid` of the current process gives: -1 where there is no
/// thread of that number, -2 where it has not exited yet, otherwise its exit code.
pub open spec fn wait_result(kernel: Kernel, tid: usize) -> int {
    if !can_be_awaited(kernel, tid) {
        -1
    } else if awaited(kernel, tid).inner.task_status == TaskStatus::Zombie {
        awaited(kernel, tid).inner.exit_code as int
    } else {
        -2
    }
}

/// What waiting for the thread `tid` of the current process changes: a thread that has exited is
/// struck off the process's threads.
pub open spec fn thread_reaped(before: Kernel, after: Kernel, tid: usize) -> bool {
    if can_be_awaited(before, tid) && awaited(before, tid).inner.task_status
        == TaskStatus::Zombie {
        &&& after.same_but_process(before, before.task().process)
        &&& after.process().inner == (ProcessControlBlockInner {
            tasks: after.process().inner.tasks,
            ..before.process().inner
        })
        &&& after.process().inner.tasks@ == before.process().inner.tasks@.update(tid as int, None)
    } else {
        after == before
    }
}

/// wait for a thread to exit syscall
///
/// thread does not exist, return -1
/// thread has not exited yet, return -2
/// otherwise, return thread's exit code
pub fn sys_waittid(kernel: &mut Kernel, tid: usize) -> (result: isize)
    requires
        old(kernel).running(),
    ensures
        final(kernel).running(),
        final(kernel).keeps_threads(*old(kernel)),
        result == wait_result(*old(kernel), tid),
        thread_reaped(*old(kernel), *final(kernel), tid),
{
    let p: usize = kernel.current_task().process.0;
    if tid >= kernel.processes[p].inner.tasks.len() {
        return -1;
    }
    let waited: TaskRef = match kernel.processes[p].inner.tasks[tid] {
        Some(waited) => waited,
        None => {
            return -1;
        },
    };
    assert(kernel.processes@[p as int].inner.wf(kernel.tasks@.len()));
    if kernel.tasks[waited.0].inner.is_zombie() {
        let exit_code: i32 = kernel.tasks[waited.0].inner.exit_code;
        kernel.processes[p].inner.tasks.set(tid, None);
        exit_code as isize
    } else {
        -2
    }
}

/// A thread that has exited is reaped once: waiting for it again, whatever its exit code was, finds
/// no thread.
pub proof fn law_reaped_once(before: Kernel, after: Kernel, tid: usize)
    requires
        before.running(),
        thread_reaped(before, after, tid),
        can_be_awaited(before, tid),
        awaited(before, tid).inner.task_status == TaskStatus::Zombie,
    ensures
        wait_result(after, tid) == -1,
{
}

/// Waiting for a thread that has not exited changes nothing, so it can be waited for again.
pub proof fn law_waiting_changes_nothing(before: Kernel, after: Kernel, tid: usize)
    requires
        thread_reaped(before, after, tid),
        can_be_awaited(before, tid),
        awaited(before, tid).inner.task_status != TaskStatus::Zombie,
    ensures
        after == before,
        wait_result(after, tid) == -2,
{
}

/// A thread that waits for itself has not exited: it is told so, and nothing changes.
pub proof fn law_waiting_for_oneself(before: Kernel, after: Kernel)
    requires
        before.running(),
        can_be_awaited(before, before.task().tid.0),
        before.process().inner.tasks@[before.task().tid.0 as int] == before.current,
        before.task().inner.task_status != TaskStatus::Zombie,
        thread_reaped(before, after, before.task().tid.0),
    ensures
        wait_result(before, before.task().tid.0) == -2,
        after == before,
{
}

/// Waiting for one thread does not change what waiting for another gives.
pub proof fn law_other_threads_unaffected(before: Kernel, after: Kernel, tid: usize, other: usize)
    requires
        before.running(),
        thread_reaped(before, after, tid),
        other != tid,
    ensures
        wait_result(after, other) == wait_result(before, other),
{
}

/// What creating a thread comes to as a whole: the thread has the identifier that the process had
/// next, is listed under it, has not exited, and the next thread will get the next identifier.
pub proof fn law_thread_is_created(
    before: Kernel,
    reserved: Kernel,
    after: Kernel,
    process: ProcessRef,
    entry: usize,
    arg: usize,
    kernel_stack: KernelStack,
    step: Step,
    ppn: PhysPageNum,
)
    requires
        before.wf(),
        process.0 < before.processes.len(),
        thread_fits(before.processes@[process.0 as int].inner, before.config),
        stack_step(before, reserved, process, entry, arg, kernel_stack, step),
        ({
            let thread = next_thread(
                before.processes@[process.0 as int].inner,
                before.config,
                kernel_stack,
                entry,
                arg,
            );
            thread_created(reserved, after, process, thread, ppn)
        }),
    ensures
        ({
            let tid = before.processes@[process.0 as int].inner.next_tid;
            let inner = after.processes@[process.0 as int].inner;
            &&& inner.next_tid == tid + 1
            &&& tid < inner.tasks.len()
            &&& inner.tasks@[tid as int] == Some(TaskRef(before.tasks.len()))
            &&& after.tasks@[before.tasks.len() as int].tid.0 == tid
            &&& after.tasks@[before.tasks.len() as int].process == process
            &&& after.tasks@[before.tasks.len() as int].inner.task_status == TaskStatus::Ready
        }),
{
}

/// What a thread submits when it exits is what waiting for it gives: whatever calls are made
/// meanwhile, once the thread counts as exited, whoever waits under the number it is listed under
/// is a thread of its process, the number is its identifier, and the result is the code.
pub proof fn law_submitted_code_is_waited_for(
    before: Kernel,
    history: Seq<Kernel>,
    exit_code: i32,
    tid: usize,
)
    requires
        before.running(),
        history.len() > 0,
        code_submitted(before, history.first(), exit_code),
        threads_stay(history),
        exit_code_stays(history, (before.current->0).0 as int),
        history.last().running(),
        can_be_awaited(history.last(), tid),
        history.last().process().inner.tasks@[tid as int] == before.current,
        awaited(history.last(), tid).inner.task_status == TaskStatus::Zombie,
    ensures
        wait_result(history.last(), tid) == exit_code,
        tid == before.task().tid.0,
        history.last().task().process == before.task().process,
{
    let later = history.last();
    let exited = (before.current->0).0 as int;
    law_threads_stay_the_same(history);
    law_exit_code_stays_the_same(history, exited);
    assert(later.tasks@[exited].tid == history.first().tasks@[exited].tid);
    let p = later.task().process.0 as int;
    assert(later.tasks@[(later.current->0).0 as int].process.0 < later.processes.len());
    assert(later.lists_rightly(p, later.processes@[p].inner.tasks@[tid as int], tid as int));
}

/// Two threads of a process do not get in each other's way: whatever calls are made between their
/// creations, `exec` aside, the later one has the higher identifier, its trap context lies in
/// pages below those of the earlier one, and its user stack lies above the earlier one's.
pub proof fn law_threads_are_apart(
    before: Kernel,
    history: Seq<Kernel>,
    after: Kernel,
    process: ProcessRef,
    stacks: (KernelStack, KernelStack),
    entries: (usize, usize),
    args: (usize, usize),
    steps: (Step, Step),
)
    requires
        process.0 < before.processes.len(),
        thread_fits(before.processes@[process.0 as int].inner, before.config),
        stack_step(
            before,
            history.first(),
            process,
            entries.0,
            args.0,
            stacks.0,
            steps.0,
        ),
        history.len() > 0,
        reservations_stay(history),
        thread_fits(history.last().processes@[process.0 as int].inner, history.last().config),
        stack_step(
            history.last(),
            after,
            process,
            entries.1,
            args.1,
            stacks.1,
            steps.1,
        ),
    ensures
        ({
            let page_size = before.config.page_size;
            let first = next_thread(
                before.processes@[process.0 as int].inner,
                before.config,
                stacks.0,
                entries.0,
                args.0,
            );
            let later = next_thread(
                history.last().processes@[process.0 as int].inner,
                history.last().config,
                stacks.1,
                entries.1,
                args.1,
            );
            &&& steps.0->Call_1 == Cont::ThreadTrapPage { process, thread: first }
            &&& steps.1->Call_1 == Cont::ThreadTrapPage { process, thread: later }
            &&& first.tid < later.tid
            &&& later.trap_cx_va + page_size <= first.trap_cx_va
            &&& first.ustack_top <= later.ustack_bottom
        }),
{
    law_reservations_stay(history);
    let p = process.0 as int;
    assert(history.first().processes@[p].inner.next_tid == before.processes@[p].inner.next_tid + 1);
    assert(history.last().processes@[p].inner.next_tid
        >= history.first().processes@[p].inner.next_tid);
    lemma_trap_pages_apart(
        before.processes@[p].inner.next_tid,
        history.last().processes@[p].inner.next_tid,
        before.config.page_size,
    );
}

/// Creating a thread leaves every thread with another identifier listed as it was, in its own
/// process and in all others.
pub proof fn law_creation_overwrites_nobody(
    before: Kernel,
    after: Kernel,
    process: ProcessRef,
    thread: NewThread,
    ppn: PhysPageNum,
    p: int,
    tid: int,
)
    requires
        process.0 < before.processes.len(),
        thread_created(before, after, process, thread, ppn),
        0 <= p < before.processes.len(),
        0 <= tid < before.processes@[p].inner.tasks.len(),
        p != process.0 || tid != thread.tid,
    ensures
        tid < after.processes@[p].inner.tasks.len(),
        after.processes@[p].inner.tasks@[tid] == before.processes@[p].inner.tasks@[tid],
{
}

/// Waiting is for the thread that the caller's process lists under the number: -1 where it lists
/// none, -2 and no change where it has not exited, and otherwise its exit code, whatever that is,
/// after which the process lists nothing under that number. Nothing else ever changes.
pub proof fn law_waiting_is_for_the_listed_thread(before: Kernel, after: Kernel, tid: usize)
    requires
        before.running(),
        thread_reaped(before, after, tid),
    ensures
        ({
            let p = before.tasks@[(before.current->0).0 as int].process;
            let old_inner = before.processes@[p.0 as int].inner;
            let new_inner = after.processes@[p.0 as int].inner;
            let result = wait_result(before, tid);
            if tid >= old_inner.tasks.len() || old_inner.tasks@[tid as int] is None {
                result == -1 && after == before
            } else {
                let waited = before.tasks@[(old_inner.tasks@[tid as int]->0).0 as int];
                if waited.inner.task_status == TaskStatus::Zombie {
                    &&& result == waited.inner.exit_code
                    &&& rest_is_untouched(before, after, p)
                    &&& new_inner == (ProcessControlBlockInner {
                        tasks: new_inner.tasks,
                        ..old_inner
                    })
                    &&& new_inner.tasks.len() == old_inner.tasks.len()
                    &&& new_inner.tasks@[tid as int] is None
                    &&& forall|i: int|
                        0 <= i < old_inner.tasks.len() && i != tid
                            ==> #[trigger] new_inner.tasks@[i] == old_inner.tasks@[i]
                } else {
                    result == -2 && after == before
                }
            }
        }),
{
}

/// A thread is told the identifier that it was given, whatever other threads there are: it is that
/// of the task that runs, and two threads are told the same only where they were given the same.
pub proof fn law_thread_knows_its_identifier(kernel: Kernel, other: Kernel)
    requires
        kernel.running(),
        other.running(),
    ensures
        ({
            let tid = kernel.tasks@[(kernel.current->0).0 as int].tid.0;
            let other_tid = other.tasks@[(other.current->0).0 as int].tid.0;
            &&& tid <= isize::MAX ==> own_identifier(kernel) == tid
            &&& own_identifier(kernel) == own_identifier(other) ==> tid == other_tid
        }),
{
    let tid = kernel.task().tid.0;
    let other_tid = other.task().tid.0;
    assert((tid as isize) == (other_tid as isize) ==> tid == other_tid) by (bit_vector);
}

} // verus!
