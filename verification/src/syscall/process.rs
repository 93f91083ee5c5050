//! Process management syscalls

use crate::kernel::{rest_is_untouched, Kernel};
use crate::objects::{PageTableEntry, TaskRef};
use crate::service::{Cont, Service, Step, FAILED};
use crate::task::{
    brk_changed, brk_request, law_heap_end_is_planned, law_heap_end_moves, moved_brk, BrkRequest,
    ProcessControlBlockInner, TaskControlBlock, TaskControlBlockInner,
};
use crate::timer::{
    clock_reads, get_time, law_readings_have_their_units, reading_us, time_us_at, MICRO_PER_SEC,
};
use vstd::prelude::*;

verus! {

/// A time, split into seconds and microseconds.
#[derive(Debug, Clone, Copy, PartialEq, Eq, Structural)]
pub struct TimeVal {
    pub sec: usize,
    pub usec: usize,
}

/// The number of bytes that a `TimeVal` takes in memory.
pub const TIME_VAL_SIZE: usize = 16;

/// The one difference between `after` and `before` is that the current task has submitted
/// `exit_code`.
pub open spec fn code_submitted(before: Kernel, after: Kernel, exit_code: i32) -> bool {
    let task = before.task();
    &&& after == (Kernel { tasks: after.tasks, ..before })
    &&& after.tasks@ == before.tasks@.update(
        (before.current->0).0 as int,
        TaskControlBlock { inner: TaskControlBlockInner { exit_code, ..task.inner }, ..task },
    )
}

/// What `sys_exit` comes to.
pub open spec fn exit_asked(before: Kernel, after: Kernel, exit_code: i32, step: Step) -> bool {
    &&& code_submitted(before, after, exit_code)
    &&& step == Step::Call(Service::ExitCurrentAndRunNext, Cont::Never)
}

/// task exits and submit an exit code
pub fn sys_exit(kernel: &mut Kernel, exit_code: i32) -> (step: Step)
    requires
        old(kernel).running(),
    ensures
        final(kernel).running(),
        exit_asked(*old(kernel), *final(kernel), exit_code, step),
        final(kernel).same_threads(*old(kernel)),
        final(kernel).keeps_reservations(*old(kernel)),
        forall|t: int|
            0 <= t < old(kernel).tasks.len() && t != (old(kernel).current->0).0
                ==> #[trigger] final(kernel).same_exit_code(*old(kernel), t),
{
    let task = kernel.current.unwrap();
    kernel.tasks[task.0].inner.exit_code = exit_code;
    Step::Call(Service::ExitCurrentAndRunNext, Cont::Never)
}

/// current task gives up resources for other tasks
pub fn sys_yield() -> (step: Step)
    ensures
        step == Step::Call(Service::SuspendCurrentAndRunNext, Cont::Return(0)),
{
    Step::Call(Service::SuspendCurrentAndRunNext, Cont::Return(0))
}

/// The `n` lowest bytes of `value`, the lowest first.
pub open spec fn le_bytes(value: nat, n: nat) -> Seq<u8>
    decreases n,
{
    if n == 0 {
        Seq::empty()
    } else {
        seq![(value % 256) as u8] + le_bytes(value / 256, (n - 1) as nat)
    }
}

/// The number whose bytes these are, the lowest first.
pub open spec fn le_value(bytes: Seq<u8>) -> nat
    decreases bytes.len(),
{
    if bytes.len() == 0 {
        0
    } else {
        bytes[0] as nat + 256 * le_value(bytes.skip(1))
    }
}

/// How a `TimeVal` lies in memory: two words, the lowest byte of each first.
pub open spec fn time_bytes(time: TimeVal) -> Seq<u8> {
    le_bytes(time.sec as nat, 8) + le_bytes(time.usec as nat, 8)
}

/// `us` microseconds, split.
pub open spec fn split_time(us: usize) -> TimeVal {
    TimeVal { sec: us / MICRO_PER_SEC, usec: us % MICRO_PER_SEC }
}

/// Where piece `i` of a buffer starts, with pieces of these sizes.
pub open spec fn piece_start(lengths: Seq<usize>, i: int) -> int
    decreases i,
{
    if i <= 0 {
        0
    } else {
        piece_start(lengths, i - 1) + lengths[i - 1]
    }
}

/// The sizes of the pieces add up to no more than a `TimeVal` takes.
pub open spec fn pieces_fit(lengths: Seq<usize>) -> bool {
    piece_start(lengths, lengths.len() as int) <= TIME_VAL_SIZE
}

/// `pieces` are `bytes`, cut into pieces of these sizes.
pub open spec fn cut(bytes: Seq<u8>, lengths: Seq<usize>, pieces: Seq<Vec<u8>>) -> bool {
    &&& pieces.len() == lengths.len()
    &&& forall|i: int|
        0 <= i < lengths.len() ==> #[trigger] pieces[i]@ == bytes.subrange(
            piece_start(lengths, i),
            piece_start(lengths, i + 1),
        )
}

/// What `sys_get_time` comes to while the clock reads `ticks`: the user's buffer is looked up, to
/// be filled with the time. Without a reading there is none.
pub open spec fn time_asked(kernel: Kernel, ticks: Option<usize>, ts: usize) -> Step {
    let token = kernel.process().inner.memory_set.token;
    match reading_us(ticks, kernel.config) {
        Some(us) => Step::Call(
            Service::TranslatedByteBuffer { token, ptr: ts, len: TIME_VAL_SIZE },
            Cont::TimeBuffer {
                token,
                ptr: ts,
                sec: split_time(us).sec,
                usec: split_time(us).usec,
            },
        ),
        None => Step::Fault,
    }
}

/// `sys_get_time` while the clock reads `ticks`.
pub fn get_time_at(kernel: &Kernel, ticks: Option<usize>, ts: usize) -> (step: Step)
    requires
        kernel.running(),
    ensures
        step == time_asked(*kernel, ticks, ts),
{
    match time_us_at(ticks, &kernel.config) {
        Some(us) => {
            let token: usize = kernel.current_task().get_user_token(&kernel.processes);
            let time = TimeVal { sec: us / MICRO_PER_SEC, usec: us % MICRO_PER_SEC };
            Step::Call(
                Service::TranslatedByteBuffer { token, ptr: ts, len: TIME_VAL_SIZE },
                Cont::TimeBuffer { token, ptr: ts, sec: time.sec, usec: time.usec },
            )
        },
        None => Step::Fault,
    }
}

/// get time syscall: writes the time to the `TimeVal` at `ts`
pub fn sys_get_time(kernel: &Kernel, ts: usize, _tz: usize) -> (step: Step)
    requires
        kernel.running(),
    ensures
        exists|ticks: Option<usize>| #[trigger]
            clock_reads(ticks) && step == time_asked(*kernel, ticks, ts),
{
    get_time_at(kernel, get_time(), ts)
}

/// Adds the lowest bytes of `value` to `bytes`.
fn push_le_bytes(bytes: &mut Vec<u8>, value: usize)
    ensures
        final(bytes)@ == old(bytes)@ + le_bytes(value as nat, 8),
{
    let ghost before = bytes@;
    let mut rest: usize = value;
    let mut n: usize = 8;
    while n > 0
        invariant
            n <= 8,
            bytes@ + le_bytes(rest as nat, n as nat) == before + le_bytes(value as nat, 8),
        decreases n,
    {
        let ghost earlier = bytes@;
        let byte: u8 = (rest % 256) as u8;
        bytes.push(byte);
        proof {
            assert(earlier + le_bytes(rest as nat, n as nat) =~= bytes@ + le_bytes(
                (rest / 256) as nat,
                (n - 1) as nat,
            ));
        }
        rest = rest / 256;
        n -= 1;
    }
    assert(bytes@ =~= bytes@ + le_bytes(rest as nat, 0));
}

impl TimeVal {
    /// The bytes of the value as they lie in memory.
    pub fn to_bytes(&self) -> (bytes: Vec<u8>)
        ensures
            bytes@ == time_bytes(*self),
    {
        let mut bytes: Vec<u8> = Vec::new();
        push_le_bytes(&mut bytes, self.sec);
        push_le_bytes(&mut bytes, self.usec);
        assert(bytes@ =~= time_bytes(*self));
        bytes
    }
}

proof fn lemma_le_bytes_len(value: nat, n: nat)
    ensures
        le_bytes(value, n).len() == n,
    decreases n,
{
    if n > 0 {
        lemma_le_bytes_len(value / 256, (n - 1) as nat);
    }
}

pub proof fn lemma_piece_start_monotone(lengths: Seq<usize>, i: int, j: int)
    requires
        0 <= i <= j,
    ensures
        0 <= piece_start(lengths, i) <= piece_start(lengths, j),
    decreases j,
{
    if i < j {
        lemma_piece_start_monotone(lengths, i, j - 1);
    } else if i > 0 {
        lemma_piece_start_monotone(lengths, i - 1, j - 1);
    }
}

/// Goes on with `sys_get_time`: cuts the time into pieces of the sizes in which the user's buffer
/// lies in physical memory.
pub fn fill_time_buffer(
    token: usize,
    ptr: usize,
    time: TimeVal,
    lengths: &Vec<usize>,
) -> (step: Step)
    requires
        pieces_fit(lengths@),
    ensures
        step matches Step::Call(service, cont) && cont == Cont::Return(0) && (service matches
        Service::WriteBuffer { token: t, ptr: p, pieces } && t == token && p == ptr && cut(
            time_bytes(time),
            lengths@,
            pieces@,
        )),
{
    let bytes = time.to_bytes();
    proof {
        lemma_le_bytes_len(time.sec as nat, 8);
        lemma_le_bytes_len(time.usec as nat, 8);
    }
    let mut pieces: Vec<Vec<u8>> = Vec::new();
    let mut offset: usize = 0;
    let mut i: usize = 0;
    while i < lengths.len()
        invariant
            i <= lengths.len(),
            bytes@ == time_bytes(time),
            bytes.len() == TIME_VAL_SIZE,
            pieces_fit(lengths@),
            offset == piece_start(lengths@, i as int),
            offset <= TIME_VAL_SIZE,
            pieces.len() == i,
            forall|k: int|
                0 <= k < i ==> #[trigger] pieces@[k]@ == time_bytes(time).subrange(
                    piece_start(lengths@, k),
                    piece_start(lengths@, k + 1),
                ),
        decreases lengths.len() - i,
    {
        proof {
            lemma_piece_start_monotone(lengths@, i as int + 1, lengths.len() as int);
        }
        let end: usize = offset + lengths[i];
        let mut piece: Vec<u8> = Vec::new();
        let mut at: usize = offset;
        while at < end
            invariant
                offset <= at <= end,
                end <= bytes.len(),
                piece@ == bytes@.subrange(offset as int, at as int),
            decreases end - at,
        {
            piece.push(bytes[at]);
            at += 1;
            assert(piece@ =~= bytes@.subrange(offset as int, at as int));
        }
        pieces.push(piece);
        offset = end;
        i += 1;
    }
    Step::Call(Service::WriteBuffer { token, ptr, pieces }, Cont::Return(0))
}

/// What `sys_trace` asks for.
pub open spec fn trace_asked(kernel: Kernel, trace_request: usize, id: usize, data: usize) -> Step {
    if trace_request == 0 || trace_request == 1 {
        Step::Call(
            Service::Translate { token: kernel.process().inner.memory_set.token, va: id },
            Cont::TraceEntry {
                write: trace_request == 1,
                offset: id % kernel.config.page_size,
                data,
            },
        )
    } else if trace_request == 2 {
        Step::Call(Service::SyscallCount { id }, Cont::ReturnCount)
    } else {
        Step::Done(FAILED)
    }
}

/// trace syscall: request 0 reads the byte of user memory at `id`, request 1 writes it, and
/// request 2 counts the calls of the system call `id`.
pub fn sys_trace(kernel: &Kernel, trace_request: usize, id: usize, data: usize) -> (step: Step)
    requires
        kernel.running(),
    ensures
        step == trace_asked(*kernel, trace_request, id, data),
{
    match trace_request {
        0 | 1 => {
            let token: usize = kernel.current_task().get_user_token(&kernel.processes);
            let offset: usize = id % kernel.config.page_size;
            Step::Call(
                Service::Translate { token, va: id },
                Cont::TraceEntry { write: trace_request == 1, offset, data },
            )
        },
        2 => Step::Call(Service::SyscallCount { id }, Cont::ReturnCount),
        _ => Step::Done(FAILED),
    }
}

/// How `sys_trace` goes on once it has the page-table entry: only what user code may itself read
/// or write is read or written.
pub open spec fn trace_step(
    entry: Option<PageTableEntry>,
    write: bool,
    offset: usize,
    data: usize,
) -> Step {
    match entry {
        Some(pte) => if !write && pte.user && pte.readable {
            Step::Call(Service::ReadByte { ppn: pte.ppn, offset }, Cont::ReturnByte)
        } else if write && pte.user && pte.writable {
            Step::Call(
                Service::WriteByte { ppn: pte.ppn, offset, value: data as u8 },
                Cont::Return(0),
            )
        } else {
            Step::Done(FAILED)
        },
        None => Step::Done(FAILED),
    }
}

/// Goes on with `sys_trace`.
pub fn trace_entry_found(
    entry: Option<PageTableEntry>,
    write: bool,
    offset: usize,
    data: usize,
) -> (step: Step)
    ensures
        step == trace_step(entry, write, offset, data),
{
    match entry {
        None => Step::Done(FAILED),
        Some(pte) => {
            if !write && pte.user && pte.readable {
                Step::Call(Service::ReadByte { ppn: pte.ppn, offset }, Cont::ReturnByte)
            } else if write && pte.user && pte.writable {
                let value: u8 = data as u8;
                Step::Call(Service::WriteByte { ppn: pte.ppn, offset, value }, Cont::Return(0))
            } else {
                Step::Done(FAILED)
            }
        },
    }
}

/// What `sys_mmap` asks for.
pub open spec fn mapping_asked(start: usize, len: usize, port: usize) -> Step {
    Step::Call(Service::MmapCurrent { start, len, port }, Cont::ReturnCode)
}

/// mmap syscall
pub fn sys_mmap(start: usize, len: usize, port: usize) -> (step: Step)
    ensures
        step == mapping_asked(start, len, port),
{
    Step::Call(Service::MmapCurrent { start, len, port }, Cont::ReturnCode)
}

/// What `sys_munmap` asks for.
pub open spec fn unmapping_asked(start: usize, len: usize) -> Step {
    Step::Call(Service::Munmap { start, len }, Cont::ReturnCode)
}

/// munmap syscall
pub fn sys_munmap(start: usize, len: usize) -> (step: Step)
    ensures
        step == unmapping_asked(start, len),
{
    Step::Call(Service::Munmap { start, len }, Cont::ReturnCode)
}

/// What `sys_sbrk` asks for.
pub open spec fn resize_asked(kernel: Kernel, size: i32) -> Step {
    let process = kernel.task().process;
    let heap_bottom = kernel.process().inner.heap_bottom;
    let cont = Cont::HeapResized { task: kernel.current->0, size };
    match brk_request(heap_bottom, kernel.process().inner.program_brk, size) {
        BrkRequest::Refused => Step::Done(FAILED),
        BrkRequest::Shrink(new_end) => Step::Call(
            Service::ShrinkTo { process, start: heap_bottom, new_end },
            cont,
        ),
        BrkRequest::Append(new_end) => Step::Call(
            Service::AppendTo { process, start: heap_bottom, new_end },
            cont,
        ),
    }
}

/// change data segment size
pub fn sys_sbrk(kernel: &Kernel, size: i32) -> (step: Step)
    requires
        kernel.running(),
        isize::MIN <= moved_brk(kernel.process().inner.program_brk, size) <= isize::MAX,
    ensures
        step == resize_asked(*kernel, size),
{
    let process = kernel.current_task().process;
    let start: usize = kernel.processes[process.0].inner.heap_bottom;
    let cont = Cont::HeapResized { task: kernel.current.unwrap(), size };
    match kernel.processes[process.0].inner.plan_program_brk(size) {
        BrkRequest::Refused => Step::Done(FAILED),
        BrkRequest::Shrink(new_end) => Step::Call(
            Service::ShrinkTo { process, start, new_end },
            cont,
        ),
        BrkRequest::Append(new_end) => Step::Call(
            Service::AppendTo { process, start, new_end },
            cont,
        ),
    }
}

/// Goes on with `sys_sbrk`: returns the old end of the heap, or -1 where it could not be resized.
pub fn heap_resized(kernel: &mut Kernel, task: TaskRef, size: i32, resized: bool) -> (step: Step)
    requires
        old(kernel).wf(),
        task.0 < old(kernel).tasks.len(),
        isize::MIN <= moved_brk(
            old(kernel).processes@[old(kernel).tasks@[task.0 as int].process.0 as
                int].inner.program_brk,
            size,
        ) <= isize::MAX,
    ensures
        final(kernel).wf(),
        final(kernel).keeps_threads(*old(kernel)),
        heap_moved(*old(kernel), *final(kernel), task, size, resized, step),
{
    let task = kernel.tasks[task.0];
    match task.change_program_brk(&mut kernel.processes, size, resized) {
        Some(old_brk) => Step::Done(old_brk as isize),
        None => Step::Done(FAILED),
    }
}

/// What resizing the heap of a task's process comes to.
pub open spec fn heap_moved(
    before: Kernel,
    after: Kernel,
    task: TaskRef,
    size: i32,
    resized: bool,
    step: Step,
) -> bool {
    let process = before.tasks@[task.0 as int].process;
    let old_inner = before.processes@[process.0 as int].inner;
    let new_inner = after.processes@[process.0 as int].inner;
    let old_break = if resized && brk_request(
        old_inner.heap_bottom,
        old_inner.program_brk,
        size,
    ) != BrkRequest::Refused {
        Some(old_inner.program_brk)
    } else {
        None
    };
    &&& after.same_but_process(before, process)
    &&& brk_changed(old_inner, new_inner, size, resized, old_break)
    &&& step == match old_break {
        Some(old_brk) => Step::Done(old_brk as isize),
        None => Step::Done(FAILED),
    }
}

/// The number of values that `n` bytes can tell apart.
spec fn byte_range(n: nat) -> nat
    decreases n,
{
    if n == 0 {
        1
    } else {
        256 * byte_range((n - 1) as nat)
    }
}

proof fn lemma_le_value(value: nat, n: nat)
    requires
        value < byte_range(n),
    ensures
        le_value(le_bytes(value, n)) == value,
    decreases n,
{
    if n > 0 {
        let rest = (n - 1) as nat;
        lemma_le_value(value / 256, rest);
        assert(le_bytes(value, n).skip(1) =~= le_bytes(value / 256, rest));
    }
}

/// A program that reads the bytes as two words finds the seconds and the microseconds.
pub proof fn law_time_reads_back(time: TimeVal)
    ensures
        time_bytes(time).len() == TIME_VAL_SIZE,
        le_value(time_bytes(time).take(8)) == time.sec,
        le_value(time_bytes(time).skip(8)) == time.usec,
{
    lemma_le_bytes_len(time.sec as nat, 8);
    lemma_le_bytes_len(time.usec as nat, 8);
    assert(byte_range(8) == 0x1_0000_0000_0000_0000) by {
        reveal_with_fuel(byte_range, 9);
    }
    lemma_le_value(time.sec as nat, 8);
    lemma_le_value(time.usec as nat, 8);
    assert(time_bytes(time).take(8) =~= le_bytes(time.sec as nat, 8));
    assert(time_bytes(time).skip(8) =~= le_bytes(time.usec as nat, 8));
}

/// Splitting a time loses nothing, and the microseconds are less than a second.
pub proof fn law_split_time_is_exact(us: usize)
    ensures
        split_time(us).sec * MICRO_PER_SEC + split_time(us).usec == us,
        split_time(us).usec < MICRO_PER_SEC,
{
}

/// Pieces put together again.
pub open spec fn joined(pieces: Seq<Vec<u8>>) -> Seq<u8>
    decreases pieces.len(),
{
    if pieces.len() == 0 {
        Seq::empty()
    } else {
        joined(pieces.drop_last()) + pieces.last()@
    }
}

proof fn lemma_joined(bytes: Seq<u8>, lengths: Seq<usize>, pieces: Seq<Vec<u8>>, n: int)
    requires
        cut(bytes, lengths, pieces),
        piece_start(lengths, lengths.len() as int) <= bytes.len(),
        0 <= n <= lengths.len(),
    ensures
        joined(pieces.take(n)) == bytes.take(piece_start(lengths, n)),
    decreases n,
{
    lemma_piece_start_monotone(lengths, n, lengths.len() as int);
    if n == 0 {
        assert(joined(pieces.take(0)) =~= bytes.take(0));
    } else {
        lemma_joined(bytes, lengths, pieces, n - 1);
        lemma_piece_start_monotone(lengths, n - 1, n);
        assert(pieces.take(n).drop_last() =~= pieces.take(n - 1));
        assert(pieces[n - 1]@ == bytes.subrange(
            piece_start(lengths, n - 1),
            piece_start(lengths, n),
        ));
        assert(joined(pieces.take(n)) =~= bytes.take(piece_start(lengths, n)));
    }
}

/// However the user's buffer lies in physical memory, the pieces written to it make up the whole
/// time: they are its bytes in order, none left out and none twice.
pub proof fn law_pieces_make_up_the_whole(
    time: TimeVal,
    lengths: Seq<usize>,
    pieces: Seq<Vec<u8>>,
)
    requires
        cut(time_bytes(time), lengths, pieces),
        piece_start(lengths, lengths.len() as int) == TIME_VAL_SIZE,
    ensures
        joined(pieces) == time_bytes(time),
{
    law_time_reads_back(time);
    lemma_joined(time_bytes(time), lengths, pieces, lengths.len() as int);
    assert(pieces.take(lengths.len() as int) =~= pieces);
    assert(time_bytes(time).take(TIME_VAL_SIZE as int) =~= time_bytes(time));
}

/// Tracing never reads or writes a byte that user code could not read or write itself.
pub proof fn law_trace_respects_permissions(
    entry: Option<PageTableEntry>,
    write: bool,
    offset: usize,
    data: usize,
)
    ensures
        trace_step(entry, write, offset, data) matches Step::Call(service, _) ==> {
            &&& entry matches Some(pte)
            &&& pte.user
            &&& service is ReadByte ==> !write && pte.readable
            &&& service is WriteByte ==> write && pte.writable
            &&& service is ReadByte || service is WriteByte
        },
{
}

/// Exiting submits the code that it is given, whatever it is, for the task that calls it, changes
/// nothing else of that task and nothing else at all, and asks for the task to be ended for good.
pub proof fn law_exit_submits_the_code(
    before: Kernel,
    after: Kernel,
    exit_code: i32,
    step: Step,
)
    requires
        before.running(),
        exit_asked(before, after, exit_code, step),
    ensures
        ({
            let t = (before.current->0).0 as int;
            let old_task = before.tasks@[t];
            let new_task = after.tasks@[t];
            &&& new_task.inner.exit_code == exit_code
            &&& new_task.inner == (TaskControlBlockInner {
                exit_code: new_task.inner.exit_code,
                ..old_task.inner
            })
            &&& new_task == (TaskControlBlock { inner: new_task.inner, ..old_task })
            &&& after.tasks.len() == before.tasks.len()
            &&& forall|u: int|
                0 <= u < before.tasks.len() && u != t ==> #[trigger] after.tasks@[u]
                    == before.tasks@[u]
            &&& after.config == before.config
            &&& after.processes == before.processes
            &&& after.current == before.current
            &&& after.timers == before.timers
            &&& step matches Step::Call(service, cont)
            &&& service == Service::ExitCurrentAndRunNext && cont == Cont::Never
        }),
{
}

/// Mapping and unmapping are about the addresses, the length and the rights that the call names,
/// and return what the memory manager replies.
pub proof fn law_mapping_is_passed_on(start: usize, len: usize, port: usize)
    ensures
        ({
            &&& mapping_asked(start, len, port) matches Step::Call(service, cont)
            &&& service matches Service::MmapCurrent { start: s, len: l, port: r }
            &&& s == start && l == len && r == port && cont == Cont::ReturnCode
        }),
        ({
            &&& unmapping_asked(start, len) matches Step::Call(service, cont)
            &&& service matches Service::Munmap { start: s, len: l }
            &&& s == start && l == len && cont == Cont::ReturnCode
        }),
{
}

/// Tracing a byte is about the byte at that very address of the caller's address space: its page
/// is looked up, and its place in the page is the rest of the address by the size of a page.
/// Counting is about that very system call. Anything else is refused.
pub proof fn law_trace_is_about_its_argument(
    kernel: Kernel,
    trace_request: usize,
    id: usize,
    data: usize,
)
    requires
        kernel.running(),
    ensures
        ({
            let p = kernel.tasks@[(kernel.current->0).0 as int].process;
            let step = trace_asked(kernel, trace_request, id, data);
            &&& trace_request <= 1 ==> {
                &&& step matches Step::Call(service, cont)
                &&& service matches Service::Translate { token, va }
                &&& token == kernel.processes@[p.0 as int].inner.memory_set.token && va == id
                &&& cont matches Cont::TraceEntry { write, offset, data: d }
                &&& write == (trace_request == 1) && d == data
                &&& offset < kernel.config.page_size
                &&& exists|page: int| offset + #[trigger] (page * kernel.config.page_size) == id
            }
            &&& trace_request == 2 ==> {
                &&& step matches Step::Call(service, cont)
                &&& service matches Service::SyscallCount { id: i }
                &&& i == id && cont == Cont::ReturnCount
            }
            &&& trace_request > 2 ==> (step matches Step::Done(r) && r == -1)
        }),
{
    let page_size = kernel.config.page_size as int;
    vstd::arithmetic::div_mod::lemma_fundamental_div_mod(id as int, page_size);
    let page = id as int / page_size;
    assert(page_size * page == page * page_size) by (nonlinear_arith);
    assert(id % kernel.config.page_size + page * page_size == id);
}

/// With the page found, a byte is read only from a page that user code may read, and written only
/// to one that it may write; it is the byte at that place of that frame, and what is written is
/// the lowest byte of the data. Otherwise tracing is refused.
pub proof fn law_trace_reads_or_writes_the_byte(
    entry: Option<PageTableEntry>,
    write: bool,
    offset: usize,
    data: usize,
)
    ensures
        ({
            let step = trace_step(entry, write, offset, data);
            let allowed = entry matches Some(pte) && pte.user && (if write {
                pte.writable
            } else {
                pte.readable
            });
            &&& !allowed ==> (step matches Step::Done(r) && r == -1)
            &&& allowed && !write ==> {
                &&& step matches Step::Call(service, cont)
                &&& service matches Service::ReadByte { ppn, offset: at }
                &&& ppn == entry->0.ppn && at == offset && cont == Cont::ReturnByte
            }
            &&& allowed && write ==> {
                &&& step matches Step::Call(service, cont)
                &&& service matches Service::WriteByte { ppn, offset: at, value }
                &&& ppn == entry->0.ppn && at == offset && cont == Cont::Return(0)
                &&& value == data % 256
            }
        }),
{
    assert(data as u8 == data % 256) by (bit_vector);
}

/// Resizing the heap is about the caller's process. The new end is the old one moved by `size`;
/// the heap is shrunk or grown to it from where it starts, or the call is refused where that
/// would be below the start.
pub proof fn law_resize_is_by_size(kernel: Kernel, size: i32)
    requires
        kernel.running(),
        isize::MIN <= (kernel.process().inner.program_brk as isize) + size <= isize::MAX,
    ensures
        ({
            let p = kernel.tasks@[(kernel.current->0).0 as int].process;
            let inner = kernel.processes@[p.0 as int].inner;
            let target = (inner.program_brk as isize) + size;
            let step = resize_asked(kernel, size);
            &&& target < inner.heap_bottom as isize ==> (step matches Step::Done(r) && r == -1)
            &&& target >= inner.heap_bottom as isize ==> {
                &&& step matches Step::Call(service, cont)
                &&& cont matches Cont::HeapResized { task, size: by }
                &&& Some(task) == kernel.current && by == size
                &&& size < 0 ==> {
                    &&& service matches Service::ShrinkTo { process, start, new_end }
                    &&& process == p && start == inner.heap_bottom && new_end as isize == target
                }
                &&& size >= 0 ==> {
                    &&& service matches Service::AppendTo { process, start, new_end }
                    &&& process == p && start == inner.heap_bottom && new_end as isize == target
                }
            }
        }),
{
    law_heap_end_is_planned(
        kernel.process().inner.heap_bottom,
        kernel.process().inner.program_brk,
        size,
    );
}

/// The heap's end moves by `size` in the process of the task that asked, and the old end is
/// returned; where the heap could not be resized, or its end would be below its start, nothing
/// changes and the call returns -1.
pub proof fn law_heap_is_resized(
    before: Kernel,
    after: Kernel,
    task: TaskRef,
    size: i32,
    resized: bool,
    step: Step,
)
    requires
        before.wf(),
        task.0 < before.tasks.len(),
        ({
            let p = before.tasks@[task.0 as int].process;
            isize::MIN <= (before.processes@[p.0 as int].inner.program_brk as isize) + size
                <= isize::MAX
        }),
        heap_moved(before, after, task, size, resized, step),
    ensures
        ({
            let p = before.tasks@[task.0 as int].process;
            let old_inner = before.processes@[p.0 as int].inner;
            let new_inner = after.processes@[p.0 as int].inner;
            let target = (old_inner.program_brk as isize) + size;
            &&& rest_is_untouched(before, after, p)
            &&& if resized && target >= old_inner.heap_bottom as isize {
                &&& step == Step::Done(old_inner.program_brk as isize)
                &&& new_inner.program_brk as isize == target
                &&& new_inner == (ProcessControlBlockInner {
                    program_brk: new_inner.program_brk,
                    ..old_inner
                })
            } else {
                &&& step matches Step::Done(r) && r == -1
                &&& new_inner == old_inner
            }
        }),
{
    let p = before.tasks@[task.0 as int].process;
    let old_inner = before.processes@[p.0 as int].inner;
    let new_inner = after.processes@[p.0 as int].inner;
    law_heap_end_is_planned(old_inner.heap_bottom, old_inner.program_brk, size);
    let old_break = if step == Step::Done(old_inner.program_brk as isize) && resized
        && moved_brk(old_inner.program_brk, size) >= old_inner.heap_bottom as isize {
        Some(old_inner.program_brk)
    } else {
        None
    };
    law_heap_end_moves(old_inner, new_inner, size, resized, old_break);
}

/// The time that is written is that of the clock: the seconds and microseconds add up to the
/// reading in microseconds, with less than a second in microseconds, and they are to be written
/// to the user's buffer in the caller's address space. Without a usable reading there is none.
pub proof fn law_time_is_that_of_the_clock(kernel: Kernel, ticks: Option<usize>, ts: usize)
    requires
        kernel.running(),
    ensures
        ({
            let p = kernel.tasks@[(kernel.current->0).0 as int].process;
            let user_token = kernel.processes@[p.0 as int].inner.memory_set.token;
            let step = time_asked(kernel, ticks, ts);
            if ticks matches Some(t) && t * 1_000_000 <= usize::MAX {
                &&& step matches Step::Call(service, cont)
                &&& service matches Service::TranslatedByteBuffer { token, ptr, len }
                &&& token == user_token && ptr == ts && len == 16
                &&& cont matches Cont::TimeBuffer { token, ptr, sec, usec }
                &&& token == user_token && ptr == ts
                &&& usec < 1_000_000
                &&& (sec * 1_000_000 + usec) * kernel.config.clock_freq <= ticks->0 * 1_000_000
                &&& ticks->0 * 1_000_000 < (sec * 1_000_000 + usec + 1) * kernel.config.clock_freq
            } else {
                step == Step::Fault
            }
        }),
{
    law_readings_have_their_units(ticks, kernel.config);
    if let Some(us) = reading_us(ticks, kernel.config) {
        law_split_time_is_exact(us);
    }
}

proof fn lemma_le_byte(value: nat, n: nat, k: int)
    requires
        0 <= k < n,
    ensures
        le_bytes(value, n).len() == n,
        le_bytes(value, n)[k] == (value as int / vstd::arithmetic::power::pow(256, k as nat))
            % 256,
    decreases n,
{
    lemma_le_bytes_len(value, n);
    let rest = (n - 1) as nat;
    lemma_le_bytes_len(value / 256, rest);
    vstd::arithmetic::power::lemma_pow0(256);
    if k > 0 {
        lemma_le_byte(value / 256, rest, k - 1);
        assert(le_bytes(value, n)[k] == le_bytes(value / 256, rest)[k - 1]);
        let power = vstd::arithmetic::power::pow(256, (k - 1) as nat);
        vstd::arithmetic::power::lemma_pow_positive(256, (k - 1) as nat);
        vstd::arithmetic::div_mod::lemma_div_denominator(value as int, 256, power);
        assert(vstd::arithmetic::power::pow(256, k as nat) == 256 * power) by {
            reveal(vstd::arithmetic::power::pow);
        }
    } else {
        assert(le_bytes(value, n)[0] == (value % 256) as u8);
    }
}

/// A `TimeVal` takes two words of eight bytes, the seconds first. Byte `k` of a word is what is
/// left of it by 256 after dividing `k` times by 256.
pub proof fn law_time_lies_in_two_words(time: TimeVal, k: int)
    requires
        0 <= k < 8,
    ensures
        time_bytes(time).len() == 16,
        time_bytes(time)[k] == (time.sec as int / vstd::arithmetic::power::pow(256, k as nat))
            % 256,
        time_bytes(time)[8 + k] == (time.usec as int / vstd::arithmetic::power::pow(
            256,
            k as nat,
        )) % 256,
{
    lemma_le_byte(time.sec as nat, 8, k);
    lemma_le_byte(time.usec as nat, 8, k);
}

/// How many bytes the first `n` pieces have together.
pub open spec fn bytes_before(lengths: Seq<usize>, n: int) -> int
    decreases n,
{
    if n <= 0 {
        0
    } else {
        bytes_before(lengths, n - 1) + lengths[n - 1]
    }
}

pub proof fn lemma_bytes_before(lengths: Seq<usize>, n: int)
    ensures
        bytes_before(lengths, n) == piece_start(lengths, n),
    decreases n,
{
    if n > 0 {
        lemma_bytes_before(lengths, n - 1);
    }
}

/// A buffer of these pieces can be filled exactly where they have no more than the sixteen bytes
/// of a `TimeVal` together.
pub proof fn law_which_buffers_fit(lengths: Seq<usize>)
    ensures
        pieces_fit(lengths) <==> bytes_before(lengths, lengths.len() as int) <= 16,
{
    lemma_bytes_before(lengths, lengths.len() as int);
}

/// The bytes go to the pieces in order: each piece gets as many as it is long, and byte `k` of
/// piece `i` is the one that comes after all that the pieces before it got and `k` more.
pub proof fn law_pieces_are_filled_in_order(
    bytes: Seq<u8>,
    lengths: Seq<usize>,
    pieces: Seq<Vec<u8>>,
    i: int,
    k: int,
)
    requires
        cut(bytes, lengths, pieces),
        bytes_before(lengths, lengths.len() as int) <= bytes.len(),
        0 <= i < lengths.len(),
        0 <= k < lengths[i],
    ensures
        pieces.len() == lengths.len(),
        pieces[i].len() == lengths[i],
        pieces[i]@[k] == bytes[bytes_before(lengths, i) + k],
{
    lemma_bytes_before(lengths, i);
    lemma_bytes_before(lengths, i + 1);
    lemma_bytes_before(lengths, lengths.len() as int);
    lemma_piece_start_monotone(lengths, 0, i);
    lemma_piece_start_monotone(lengths, i + 1, lengths.len() as int);
    assert(pieces[i]@ == bytes.subrange(piece_start(lengths, i), piece_start(lengths, i + 1)));
}

} // verus!
