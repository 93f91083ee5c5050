//! Taking up a system call again.

use crate::config::Config;
use crate::kernel::{
    law_others_are_untouched, law_threads_stay_the_same, rest_is_untouched, threads_stay, Kernel,
};
use crate::objects::{KernelStack, PageTableEntry, ProcessRef, TaskRef};
use crate::service::{Cont, NewThread, Reply, Service, Step};
use crate::syscall::process::{
    bytes_before, cut, fill_time_buffer, heap_moved, heap_resized, law_pieces_are_filled_in_order,
    law_time_lies_in_two_words, law_trace_reads_or_writes_the_byte, law_which_buffers_fit,
    lemma_bytes_before, lemma_piece_start_monotone, piece_start, pieces_fit, time_bytes,
    trace_entry_found, trace_step, TimeVal, TIME_VAL_SIZE,
};
use crate::syscall::sync::{
    can_record, law_locks_are_named, lock_asked, mutex_probed, mutex_step, semaphore_taken,
    unit_recorded,
};
use crate::syscall::thread::{
    frame_step, own_identifier, stack_step, thread_asked, thread_frame_found, thread_ready,
    thread_stack_allocated, thread_trap_page_mapped, thread_user_stack_mapped, trap_page_step,
    user_stack_step,
};
use crate::task::{
    law_thread_gets_the_next_places, law_thread_has_what_was_reserved, law_when_a_thread_fits,
    moved_brk, next_thread, ready_to_start, thread_created, thread_fits, ProcessControlBlockInner,
};
use vstd::prelude::*;

verus! {

/// `reply` answers what the call waits for, and the state lets the call go on.
pub open spec fn resumable(kernel: Kernel, cont: Cont, reply: Reply) -> bool {
    match cont {
        Cont::Return(_) => reply is Done,
        Cont::ReturnCode => reply is Code,
        Cont::ReturnCount => reply is Count,
        Cont::ReturnByte => reply is Byte,
        Cont::Never => reply is Done,
        Cont::TraceEntry { .. } => reply is Entry,
        Cont::TimeBuffer { .. } => reply matches Reply::Lengths(lengths) && pieces_fit(lengths@),
        Cont::HeapResized { task, size } => {
            &&& reply is Flag
            &&& task.0 < kernel.tasks.len()
            &&& isize::MIN <= moved_brk(
                kernel.processes@[kernel.tasks@[task.0 as int].process.0 as int].inner.program_brk,
                size,
            ) <= isize::MAX
        },
        Cont::MutexProbed { .. } => reply is Flag,
        Cont::SemaphoreTaken { process, tid, sem_id } => {
            &&& reply is Done
            &&& process.0 < kernel.processes.len()
            &&& can_record(kernel.processes@[process.0 as int].inner, tid, sem_id)
        },
        Cont::ThreadStack { process, .. } => {
            &&& reply is Stack
            &&& process.0 < kernel.processes.len()
            &&& thread_fits(kernel.processes@[process.0 as int].inner, kernel.config)
        },
        Cont::ThreadTrapPage { .. } => reply is Done,
        Cont::ThreadUserStack { process, .. } => reply is Done && process.0
            < kernel.processes.len(),
        Cont::ThreadFrame { process, thread } => {
            &&& reply matches Reply::Entry(entry)
            &&& entry is Some
            &&& process.0 < kernel.processes.len()
            &&& thread.tid < usize::MAX
        },
        Cont::ThreadReady { .. } => reply is Done,
    }
}

/// How a call goes on.
pub open spec fn resumed(
    before: Kernel,
    after: Kernel,
    cont: Cont,
    reply: Reply,
    step: Step,
) -> bool {
    match cont {
        Cont::Return(result) => after == before && step == Step::Done(result),
        Cont::ReturnCode => after == before && step == Step::Done(reply->Code_0),
        Cont::ReturnCount => after == before && step == Step::Done(reply->Count_0 as isize),
        Cont::ReturnByte => after == before && step == Step::Done(reply->Byte_0 as isize),
        Cont::Never => after == before && step == Step::Fault,
        Cont::TraceEntry { write, offset, data } => after == before && step == trace_step(
            reply->Entry_0,
            write,
            offset,
            data,
        ),
        Cont::TimeBuffer { token, ptr, sec, usec } => {
            &&& after == before
            &&& step matches Step::Call(service, next)
            &&& next == Cont::Return(0)
            &&& service matches Service::WriteBuffer { token: t, ptr: p, pieces }
            &&& t == token
            &&& p == ptr
            &&& cut(time_bytes(TimeVal { sec, usec }), reply->Lengths_0@, pieces@)
        },
        Cont::HeapResized { task, size } => heap_moved(
            before,
            after,
            task,
            size,
            reply->Flag_0,
            step,
        ),
        Cont::MutexProbed { process, mutex_id } => after == before && step == mutex_step(
            process,
            mutex_id,
            reply->Flag_0,
        ),
        Cont::SemaphoreTaken { process, tid, sem_id } => {
            &&& after.same_but_process(before, process)
            &&& unit_recorded(
                before.processes@[process.0 as int].inner,
                after.processes@[process.0 as int].inner,
                tid,
                sem_id,
            )
            &&& step == Step::Done(0)
        },
        Cont::ThreadStack { process, entry, arg } => stack_step(
            before,
            after,
            process,
            entry,
            arg,
            reply->Stack_0,
            step,
        ),
        Cont::ThreadTrapPage { process, thread } => after == before && step == trap_page_step(
            process,
            thread,
        ),
        Cont::ThreadUserStack { process, thread } => after == before && step == user_stack_step(
            before,
            process,
            thread,
        ),
        Cont::ThreadFrame { process, thread } => {
            &&& thread_created(before, after, process, thread, (reply->Entry_0)->0.ppn)
            &&& step == frame_step(before, thread, (reply->Entry_0)->0.ppn)
        },
        Cont::ThreadReady { task, tid } => after == before && step == Step::Call(
            Service::AddTask { task },
            Cont::Return(tid as isize),
        ),
    }
}

/// Whether the sizes of the pieces add up to no more than a `TimeVal` takes.
fn check_pieces(lengths: &Vec<usize>) -> (ok: bool)
    ensures
        ok == pieces_fit(lengths@),
{
    let mut total: usize = 0;
    let mut i: usize = 0;
    while i < lengths.len()
        invariant
            i <= lengths.len(),
            total == piece_start(lengths@, i as int),
            total <= TIME_VAL_SIZE,
        decreases lengths.len() - i,
    {
        if lengths[i] > TIME_VAL_SIZE - total {
            proof {
                crate::syscall::process::lemma_piece_start_monotone(
                    lengths@,
                    i as int + 1,
                    lengths.len() as int,
                );
            }
            return false;
        }
        total = total + lengths[i];
        i += 1;
    }
    true
}

/// Whether there is room for one more thread.
fn check_thread(process: &ProcessControlBlockInner, config: &Config) -> (ok: bool)
    ensures
        ok == thread_fits(*process, *config),
{
    if process.next_tid == usize::MAX {
        return false;
    }
    match process.next_tid.checked_mul(config.page_size) {
        Some(below) => {
            below <= config.trap_context_base && config.trap_context_base - below <= usize::MAX
                - config.page_size && process.next_ustack <= usize::MAX - config.user_stack_size
        },
        None => false,
    }
}

/// Whether the tables have the entries that recording a unit writes.
fn check_record(process: &ProcessControlBlockInner, tid: usize, sem_id: usize) -> (ok: bool)
    ensures
        ok == can_record(*process, tid, sem_id),
{
    tid < process.sem_alloc.len() && sem_id < process.sem_alloc[tid].len()
        && process.sem_alloc[tid][sem_id] < isize::MAX && tid < process.sem_wait_for.len()
}

/// Whether a call that stopped with `cont` can go on with `reply`.
pub fn can_resume(kernel: &Kernel, cont: &Cont, reply: &Reply) -> (ok: bool)
    requires
        kernel.wf(),
    ensures
        ok == resumable(*kernel, *cont, *reply),
{
    match (*cont, reply) {
        (Cont::Return(_), Reply::Done) => true,
        (Cont::ReturnCode, Reply::Code(_)) => true,
        (Cont::ReturnCount, Reply::Count(_)) => true,
        (Cont::ReturnByte, Reply::Byte(_)) => true,
        (Cont::Never, Reply::Done) => true,
        (Cont::TraceEntry { .. }, Reply::Entry(_)) => true,
        (Cont::TimeBuffer { .. }, Reply::Lengths(lengths)) => check_pieces(lengths),
        (Cont::HeapResized { task, size }, Reply::Flag(_)) => {
            if task.0 < kernel.tasks.len() {
                let process = kernel.tasks[task.0].process;
                let brk: isize = kernel.processes[process.0].inner.program_brk as isize;
                brk.checked_add(size as isize).is_some()
            } else {
                false
            }
        },
        (Cont::MutexProbed { .. }, Reply::Flag(_)) => true,
        (Cont::SemaphoreTaken { process, tid, sem_id }, Reply::Done) => process.0
            < kernel.processes.len() && check_record(
            &kernel.processes[process.0].inner,
            tid,
            sem_id,
        ),
        (Cont::ThreadStack { process, .. }, Reply::Stack(_)) => process.0 < kernel.processes.len()
            && check_thread(&kernel.processes[process.0].inner, &kernel.config),
        (Cont::ThreadTrapPage { .. }, Reply::Done) => true,
        (Cont::ThreadUserStack { process, .. }, Reply::Done) => process.0 < kernel.processes.len(),
        (Cont::ThreadFrame { process, thread }, Reply::Entry(entry)) => entry.is_some()
            && process.0 < kernel.processes.len() && thread.tid < usize::MAX,
        (Cont::ThreadReady { .. }, Reply::Done) => true,
        _ => false,
    }
}

/// Goes on with a call that stopped with `cont`, now that the service has given `reply`.
pub fn resume(kernel: &mut Kernel, cont: Cont, reply: Reply) -> (step: Step)
    requires
        old(kernel).wf(),
        resumable(*old(kernel), cont, reply),
    ensures
        final(kernel).wf(),
        final(kernel).keeps_threads(*old(kernel)),
        resumed(*old(kernel), *final(kernel), cont, reply, step),
{
    match (cont, reply) {
        (Cont::Return(result), Reply::Done) => Step::Done(result),
        (Cont::ReturnCode, Reply::Code(result)) => Step::Done(result),
        (Cont::ReturnCount, Reply::Count(count)) => Step::Done(count as isize),
        (Cont::ReturnByte, Reply::Byte(byte)) => Step::Done(byte as isize),
        (Cont::TraceEntry { write, offset, data }, Reply::Entry(entry)) => trace_entry_found(
            entry,
            write,
            offset,
            data,
        ),
        (Cont::TimeBuffer { token, ptr, sec, usec }, Reply::Lengths(lengths)) => fill_time_buffer(
            token,
            ptr,
            TimeVal { sec, usec },
            &lengths,
        ),
        (Cont::HeapResized { task, size }, Reply::Flag(resized)) => heap_resized(
            kernel,
            task,
            size,
            resized,
        ),
        (Cont::MutexProbed { process, mutex_id }, Reply::Flag(held)) => mutex_probed(
            process,
            mutex_id,
            held,
        ),
        (Cont::SemaphoreTaken { process, tid, sem_id }, Reply::Done) => semaphore_taken(
            kernel,
            process,
            tid,
            sem_id,
        ),
        (Cont::ThreadStack { process, entry, arg }, Reply::Stack(kernel_stack)) =>
            thread_stack_allocated(kernel, process, entry, arg, kernel_stack),
        (Cont::ThreadTrapPage { process, thread }, Reply::Done) => thread_trap_page_mapped(
            process,
            thread,
        ),
        (Cont::ThreadUserStack { process, thread }, Reply::Done) => thread_user_stack_mapped(
            kernel,
            process,
            thread,
        ),
        (Cont::ThreadFrame { process, thread }, Reply::Entry(Some(entry))) => thread_frame_found(
            kernel,
            process,
            thread,
            entry,
        ),
        (Cont::ThreadReady { task, tid }, Reply::Done) => thread_ready(task, tid),
        _ => Step::Fault,
    }
}

/// A thread's identifier is what its creation returned, for the thread's whole life: whatever calls
/// are made after the thread has been created, whenever it runs, what `sys_gettid` gives is the
/// number that `sys_thread_create` ended with.
pub proof fn law_creation_returns_the_identifier(
    before: Kernel,
    history: Seq<Kernel>,
    process: ProcessRef,
    thread: NewThread,
    entry: PageTableEntry,
    trap_cx: Service,
    ready: Cont,
    started: Kernel,
    add_task: Service,
    end: Cont,
)
    requires
        history.len() > 0,
        resumed(
            before,
            history.first(),
            Cont::ThreadFrame { process, thread },
            Reply::Entry(Some(entry)),
            Step::Call(trap_cx, ready),
        ),
        resumed(started, started, ready, Reply::Done, Step::Call(add_task, end)),
        threads_stay(history),
        history.last().running(),
        add_task == (Service::AddTask { task: history.last().current->0 }),
    ensures
        end == Cont::Return(own_identifier(history.last())),
        history.last().task().tid.0 == thread.tid,
        history.last().task().process == process,
{
    law_threads_stay_the_same(history);
    let created = before.tasks.len() as int;
    assert(history.last().tasks@[created].tid == history.first().tasks@[created].tid);
}

/// A call that only waited for a service returns what it said it would, or what the service
/// replied: a result, a count or a byte, whatever it is. It changes nothing. A call that was not
/// to go on cannot.
pub proof fn law_replies_are_returned(
    before: Kernel,
    after: Kernel,
    cont: Cont,
    reply: Reply,
    step: Step,
)
    requires
        resumable(before, cont, reply),
        resumed(before, after, cont, reply, step),
        cont is Return || cont is ReturnCode || cont is ReturnCount || cont is ReturnByte
            || cont is Never,
    ensures
        after == before,
        cont matches Cont::Return(result) ==> step == Step::Done(result) && reply == Reply::Done,
        cont is ReturnCode ==> (reply matches Reply::Code(result) && step == Step::Done(result)),
        cont is ReturnCount ==> (reply matches Reply::Count(n) && step == Step::Done(n as isize)),
        cont is ReturnByte ==> (reply matches Reply::Byte(byte) && (step matches Step::Done(r) && r
            == byte)),
        cont is Never ==> step == Step::Fault,
{
}

/// Tracing goes on with the page that was found, and changes nothing: the byte is read or written
/// only where user code may do so itself, and it is the byte at that place of that frame.
pub proof fn law_trace_goes_on(
    before: Kernel,
    after: Kernel,
    entry: Option<PageTableEntry>,
    write: bool,
    offset: usize,
    data: usize,
    step: Step,
)
    requires
        resumed(
            before,
            after,
            Cont::TraceEntry { write, offset, data },
            Reply::Entry(entry),
            step,
        ),
    ensures
        after == before,
        ({
            let allowed = entry matches Some(pte) && pte.user && (if write {
                pte.writable
            } else {
                pte.readable
            });
            &&& !allowed ==> (step matches Step::Done(r) && r == -1)
            &&& allowed && !write ==> {
                &&& step matches Step::Call(service, cont)
                &&& service matches Service::ReadByte { ppn, offset: at }
                &&& ppn == entry->0.ppn && at == offset && cont == Cont::ReturnByte
            }
            &&& allowed && write ==> {
                &&& step matches Step::Call(service, cont)
                &&& service matches Service::WriteByte { ppn, offset: at, value }
                &&& ppn == entry->0.ppn && at == offset && cont == Cont::Return(0)
                &&& value == data % 256
            }
        }),
{
    law_trace_reads_or_writes_the_byte(entry, write, offset, data);
}

/// Locking with deadlock detection ends as locking without it does, for the mutex that the call
/// named, in the caller's process: where the caller does not hold it, the step is the very one
/// that `sys_mutex_lock` gives without detection; where it does, the call returns -0xdead.
pub proof fn law_detected_lock_is_the_plain_lock(
    kernel: Kernel,
    plain: Kernel,
    mutex_id: usize,
    probe: Service,
    cont: Cont,
    before: Kernel,
    after: Kernel,
    held: bool,
    step: Step,
)
    requires
        kernel.running(),
        kernel.process().inner.deadlock_detect_enabled,
        plain.running(),
        plain.task().process == kernel.task().process,
        !plain.process().inner.deadlock_detect_enabled,
        lock_asked(kernel, mutex_id) == Step::Call(probe, cont),
        resumed(before, after, cont, Reply::Flag(held), step),
    ensures
        after == before,
        held ==> (step matches Step::Done(r) && r == -0xdead),
        !held ==> step == lock_asked(plain, mutex_id),
        !held ==> {
            &&& step matches Step::Call(service, next)
            &&& service matches Service::MutexLock { process, mutex_id: id }
            &&& process == kernel.tasks@[(kernel.current->0).0 as int].process
            &&& id == mutex_id && next == Cont::Return(0)
        },
{
    law_locks_are_named(kernel, 0, mutex_id);
    law_locks_are_named(plain, 0, mutex_id);
}

/// The time that was read is written to the user's buffer, byte by byte in order, the seconds
/// first, and the call returns zero. Byte `k` of piece `i` is the one after all that the pieces
/// before it got and `k` more.
pub proof fn law_time_is_written(
    before: Kernel,
    after: Kernel,
    token: usize,
    ptr: usize,
    sec: usize,
    usec: usize,
    lengths: Vec<usize>,
    step: Step,
    i: int,
    k: int,
)
    requires
        resumed(
            before,
            after,
            Cont::TimeBuffer { token, ptr, sec, usec },
            Reply::Lengths(lengths),
            step,
        ),
        bytes_before(lengths@, lengths.len() as int) <= 16,
        0 <= i < lengths.len(),
        0 <= k < lengths@[i],
    ensures
        after == before,
        ({
            &&& step matches Step::Call(service, cont)
            &&& cont == Cont::Return(0)
            &&& service matches Service::WriteBuffer { token: to, ptr: at, pieces }
            &&& to == token && at == ptr
            &&& pieces.len() == lengths.len()
            &&& pieces@[i].len() == lengths@[i]
            &&& ({
                let place = bytes_before(lengths@, i) + k;
                &&& 0 <= place < 16
                &&& pieces@[i]@[k] == if place < 8 {
                    (sec as int / vstd::arithmetic::power::pow(256, place as nat)) % 256
                } else {
                    (usec as int / vstd::arithmetic::power::pow(256, (place - 8) as nat)) % 256
                }
            })
        }),
{
    let time = TimeVal { sec, usec };
    let pieces = (step->Call_0)->pieces;
    law_time_lies_in_two_words(time, 0);
    law_pieces_are_filled_in_order(time_bytes(time), lengths@, pieces@, i, k);
    let place = bytes_before(lengths@, i) + k;
    lemma_bytes_before(lengths@, i);
    lemma_bytes_before(lengths@, i + 1);
    lemma_bytes_before(lengths@, lengths.len() as int);
    lemma_piece_start_monotone(lengths@, 0, i);
    lemma_piece_start_monotone(lengths@, i + 1, lengths.len() as int);
    if place < 8 {
        law_time_lies_in_two_words(time, place);
    } else {
        law_time_lies_in_two_words(time, place - 8);
    }
}

/// Resizing the heap and recording a unit go on in the process that the call was about, with what
/// it was about.
pub proof fn law_heap_and_units_go_on(
    before: Kernel,
    after: Kernel,
    task: TaskRef,
    size: i32,
    resized: bool,
    process: ProcessRef,
    tid: usize,
    sem_id: usize,
    step: Step,
)
    requires
        process.0 < before.processes.len(),
    ensures
        resumed(
            before,
            after,
            Cont::HeapResized { task, size },
            Reply::Flag(resized),
            step,
        ) ==> heap_moved(before, after, task, size, resized, step),
        resumed(
            before,
            after,
            Cont::SemaphoreTaken { process, tid, sem_id },
            Reply::Done,
            step,
        ) ==> {
            &&& rest_is_untouched(before, after, process)
            &&& unit_recorded(
                before.processes@[process.0 as int].inner,
                after.processes@[process.0 as int].inner,
                tid,
                sem_id,
            )
            &&& step matches Step::Done(r) && r == 0
        },
{
}

/// What creating a thread comes to from the call to its return, whatever other calls are made
/// between the steps. In the caller's process, the page of the trap context is mapped in the next
/// place below the others, and the user stack in the next place above the others, for user code.
/// The trap context is set up in the frame found for that page: it starts at `entry`, at the top
/// of that very user stack, with `arg`, whatever it is, in the first argument register, on the
/// kernel stack that was allocated. The thread is ready, listed under the next identifier and
/// entered among the tasks to run, and the call returns that identifier.
pub proof fn law_thread_runs_its_entry_with_its_argument(
    kernels: Seq<Kernel>,
    entry: usize,
    arg: usize,
    kernel_stack: KernelStack,
    page: PageTableEntry,
    services: Seq<Service>,
    conts: Seq<Cont>,
)
    requires
        kernels.len() == 11,
        services.len() == 6,
        conts.len() == 6,
        kernels[0].running(),
        thread_asked(kernels[0], entry, arg) == Step::Call(services[0], conts[0]),
        kernels[0].task().process.0 < kernels[1].processes.len(),
        resumable(kernels[1], conts[0], Reply::Stack(kernel_stack)),
        resumed(
            kernels[1],
            kernels[2],
            conts[0],
            Reply::Stack(kernel_stack),
            Step::Call(services[1], conts[1]),
        ),
        resumed(
            kernels[3],
            kernels[4],
            conts[1],
            Reply::Done,
            Step::Call(services[2], conts[2]),
        ),
        resumed(
            kernels[5],
            kernels[6],
            conts[2],
            Reply::Done,
            Step::Call(services[3], conts[3]),
        ),
        kernels[0].task().process.0 < kernels[7].processes.len(),
        resumed(
            kernels[7],
            kernels[8],
            conts[3],
            Reply::Entry(Some(page)),
            Step::Call(services[4], conts[4]),
        ),
        resumed(
            kernels[9],
            kernels[10],
            conts[4],
            Reply::Done,
            Step::Call(services[5], conts[5]),
        ),
    ensures
        ({
            let p = kernels[0].tasks@[(kernels[0].current->0).0 as int].process;
            let config = kernels[1].config;
            let old_inner = kernels[1].processes@[p.0 as int].inner;
            let tid = old_inner.next_tid;
            let trap_page = config.trap_context_base - tid * config.page_size;
            let stack_top = old_inner.next_ustack + config.user_stack_size;
            let new_inner = kernels[2].processes@[p.0 as int].inner;
            let created = kernels[7].tasks.len();
            &&& services[0] == Service::AllocKernelStack
            &&& rest_is_untouched(kernels[1], kernels[2], p)
            &&& new_inner == (ProcessControlBlockInner {
                next_tid: new_inner.next_tid,
                next_ustack: new_inner.next_ustack,
                ..old_inner
            })
            &&& new_inner.next_tid == tid + 1
            &&& new_inner.next_ustack == stack_top
            &&& kernels[4] == kernels[3] && kernels[6] == kernels[5] && kernels[10] == kernels[9]
            &&& services[1] matches Service::InsertFramedArea { process, start, end, user }
            &&& process == p && start == trap_page && end == trap_page + config.page_size && !user
            &&& services[2] matches Service::InsertFramedArea { process, start, end, user }
            &&& process == p && start == old_inner.next_ustack && end == stack_top && user
            &&& services[3] matches Service::Translate { token, va }
            &&& token == kernels[5].processes@[p.0 as int].inner.memory_set.token
            &&& va == trap_page
            &&& services[4] matches Service::InitTrapContext { ppn, context }
            &&& ppn == page.ppn
            &&& context.entry == entry
            &&& context.user_sp == stack_top
            &&& context.a0 == Some(arg)
            &&& context.a1 is None
            &&& context.kernel_sp == kernel_stack.top
            &&& context.kernel_satp == kernels[7].config.kernel_token
            &&& context.trap_handler == kernels[7].config.trap_handler
            &&& kernels[8].tasks.len() == created + 1
            &&& ready_to_start(
                kernels[8].tasks@[created as int],
                tid,
                p,
                kernel_stack,
                page.ppn,
                trap_page as usize,
            )
            &&& tid < kernels[8].processes@[p.0 as int].inner.tasks.len()
            &&& kernels[8].processes@[p.0 as int].inner.tasks@[tid as int] == Some(
                TaskRef(created),
            )
            &&& services[5] == (Service::AddTask { task: TaskRef(created) })
            &&& conts[5] == Cont::Return(tid as isize)
        }),
{
    let p = kernels[0].task().process;
    let inner = kernels[1].processes@[p.0 as int].inner;
    let config = kernels[1].config;
    law_thread_gets_the_next_places(inner, config, kernel_stack, entry, arg);
    law_others_are_untouched(kernels[1], kernels[2], p);
    let thread = next_thread(inner, config, kernel_stack, entry, arg);
    law_thread_has_what_was_reserved(kernels[7], kernels[8], p, thread, page.ppn);
}

/// A call can go on exactly where the reply is of the kind that it waits for and the state has
/// what it needs: the pieces of a buffer have no more bytes than a `TimeVal`, the heap's end does
/// not overflow, the tables have the entries of the thread and room for one more unit, a new
/// thread's places fit, and the page of its trap context is mapped.
pub proof fn law_what_can_go_on(kernel: Kernel, cont: Cont, reply: Reply)
    ensures
        resumable(kernel, cont, reply) <==> match cont {
            Cont::Return(_)
            | Cont::Never
            | Cont::ThreadTrapPage { .. }
            | Cont::ThreadReady { .. } => reply == Reply::Done,
            Cont::ReturnCode => reply is Code,
            Cont::ReturnCount => reply is Count,
            Cont::ReturnByte => reply is Byte,
            Cont::TraceEntry { .. } => reply is Entry,
            Cont::MutexProbed { .. } => reply is Flag,
            Cont::TimeBuffer { .. } => reply matches Reply::Lengths(lengths) && bytes_before(
                lengths@,
                lengths.len() as int,
            ) <= 16,
            Cont::HeapResized { task, size } => {
                &&& reply is Flag
                &&& task.0 < kernel.tasks.len()
                &&& ({
                    let p = kernel.tasks@[task.0 as int].process;
                    let target = (kernel.processes@[p.0 as int].inner.program_brk as isize) + size;
                    isize::MIN <= target <= isize::MAX
                })
            },
            Cont::SemaphoreTaken { process, tid, sem_id } => {
                let inner = kernel.processes@[process.0 as int].inner;
                &&& reply == Reply::Done
                &&& process.0 < kernel.processes.len()
                &&& tid < inner.sem_alloc.len()
                &&& tid < inner.sem_wait_for.len()
                &&& sem_id < inner.sem_alloc@[tid as int].len()
                &&& inner.sem_alloc@[tid as int]@[sem_id as int] < isize::MAX
            },
            Cont::ThreadStack { process, .. } => {
                let inner = kernel.processes@[process.0 as int].inner;
                let below = inner.next_tid * kernel.config.page_size;
                &&& reply is Stack
                &&& process.0 < kernel.processes.len()
                &&& inner.next_tid < usize::MAX
                &&& below <= kernel.config.trap_context_base
                &&& kernel.config.trap_context_base + kernel.config.page_size <= usize::MAX + below
                &&& inner.next_ustack + kernel.config.user_stack_size <= usize::MAX
            },
            Cont::ThreadUserStack { process, .. } => reply == Reply::Done && process.0
                < kernel.processes.len(),
            Cont::ThreadFrame { process, thread } => {
                &&& reply matches Reply::Entry(Some(_))
                &&& process.0 < kernel.processes.len()
                &&& thread.tid < usize::MAX
            },
        },
{
    if let Reply::Lengths(lengths) = reply {
        law_which_buffers_fit(lengths@);
    }
    if let Cont::ThreadStack { process, .. } = cont {
        law_when_a_thread_fits(kernel.processes@[process.0 as int].inner, kernel.config);
    }
}

} // verus!
