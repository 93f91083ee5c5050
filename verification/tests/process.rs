use taskcore::config::Config;
use taskcore::kernel::Kernel;
use taskcore::objects::{
    KernelStack, MemorySet, PageTableEntry, PhysPageNum, PidHandle, ProcessRef, SignalActions,
    TaskRef,
};
use taskcore::service::{Cont, Reply, Service, Step};
use taskcore::syscall::process::{
    fill_time_buffer, get_time_at, sys_exit, sys_get_time, sys_mmap, sys_munmap, sys_sbrk,
    sys_trace, sys_yield, TimeVal,
};
use taskcore::syscall::resume::{can_resume, resume};
use taskcore::task::{Image, TaskControlBlock};
use taskcore::timer::{get_time, TimerQueue};

fn config() -> Config {
    Config {
        clock_freq: 12_500_000,
        page_size: 4096,
        trap_context_base: 0xffff_ffff_ffff_e000,
        user_stack_size: 8192,
        kernel_token: 77,
        trap_handler: 0x8020_1000,
    }
}

/// A kernel with one process, whose main thread runs.
fn kernel() -> Kernel {
    let mut kernel = Kernel {
        config: config(),
        processes: vec![],
        tasks: vec![],
        current: None,
        timers: TimerQueue::new(),
    };
    let image = Image {
        memory_set: MemorySet { token: 55 },
        user_sp: 0x10_000,
        entry_point: 0x1000,
        trap_cx_ppn: PhysPageNum(9),
    };
    let actions = SignalActions { table: vec![] };
    let stack = KernelStack { top: 0x9000 };
    let (task, _) = TaskControlBlock::new(&mut kernel, image, PidHandle(1), stack, actions);
    kernel.tasks.push(task);
    kernel.processes[0].inner.tasks.push(Some(TaskRef(0)));
    kernel.current = Some(TaskRef(0));
    kernel
}

#[test]
fn exiting_does_not_come_back() {
    let mut kernel = kernel();
    assert_eq!(
        sys_exit(&mut kernel, 3),
        Step::Call(Service::ExitCurrentAndRunNext, Cont::Never)
    );
    assert_eq!(resume(&mut kernel, Cont::Never, Reply::Done), Step::Fault);
}

#[test]
fn exiting_submits_the_exit_code() {
    let mut kernel = kernel();
    let before = kernel.tasks[0];
    sys_exit(&mut kernel, -7);
    let mut expected = before;
    expected.inner.exit_code = -7;
    assert_eq!(kernel.tasks, vec![expected]);
    assert_eq!(kernel.current, Some(TaskRef(0)));
    assert!(kernel.in_order());
}

#[test]
fn yielding_returns_zero() {
    let mut kernel = kernel();
    let cont = Cont::Return(0);
    assert_eq!(sys_yield(), Step::Call(Service::SuspendCurrentAndRunNext, cont));
    assert_eq!(resume(&mut kernel, cont, Reply::Done), Step::Done(0));
}

#[test]
fn the_time_is_split_and_written() {
    let mut kernel = kernel();
    // 3.000002 seconds
    let step = get_time_at(&kernel, Some(37_500_025), 0x5ff8);
    let cont = Cont::TimeBuffer { token: 55, ptr: 0x5ff8, sec: 3, usec: 2 };
    assert_eq!(
        step,
        Step::Call(
            Service::TranslatedByteBuffer { token: 55, ptr: 0x5ff8, len: 16 },
            cont
        )
    );
    let reply = Reply::Lengths(vec![10, 6]);
    assert!(can_resume(&kernel, &cont, &reply));
    let pieces = vec![vec![3, 0, 0, 0, 0, 0, 0, 0, 2, 0], vec![0, 0, 0, 0, 0, 0]];
    assert_eq!(
        resume(&mut kernel, cont, reply),
        Step::Call(
            Service::WriteBuffer { token: 55, ptr: 0x5ff8, pieces },
            Cont::Return(0)
        )
    );
    assert!(!can_resume(&kernel, &cont, &Reply::Lengths(vec![10, 7])));
    assert!(!can_resume(&kernel, &cont, &Reply::Lengths(vec![1, usize::MAX])));
}

#[test]
fn the_time_needs_a_clock() {
    let kernel = kernel();
    assert_eq!(get_time_at(&kernel, None, 0), Step::Fault);
    assert_eq!(get_time_at(&kernel, Some(usize::MAX), 0), Step::Fault);
    if get_time().is_none() {
        assert_eq!(sys_get_time(&kernel, 0x100, 0), Step::Fault);
    }
}

#[test]
fn times_are_little_endian() {
    let time = TimeVal { sec: 0x0102_0304_0506_0708, usec: 999_999 };
    let mut bytes = 0x0102_0304_0506_0708u64.to_le_bytes().to_vec();
    bytes.extend(999_999u64.to_le_bytes());
    assert_eq!(time.to_bytes(), bytes);
    match fill_time_buffer(1, 2, time, &vec![3, 0, 13]) {
        Step::Call(Service::WriteBuffer { token: 1, ptr: 2, pieces }, Cont::Return(0)) => {
            assert_eq!(pieces.concat(), bytes);
            assert_eq!(pieces[0].len(), 3);
        }
        _ => panic!("the time is not written"),
    }
}

fn entry(user: bool, readable: bool, writable: bool) -> Reply {
    Reply::Entry(Some(PageTableEntry { ppn: PhysPageNum(6), user, readable, writable }))
}

#[test]
fn tracing_reads_a_byte_of_user_memory() {
    let mut kernel = kernel();
    let cont = Cont::TraceEntry { write: false, offset: 0x123, data: 9 };
    let lookup = Service::Translate { token: 55, va: 0x7123 };
    assert_eq!(sys_trace(&kernel, 0, 0x7123, 9), Step::Call(lookup, cont));
    assert_eq!(
        resume(&mut kernel, cont, entry(true, true, false)),
        Step::Call(
            Service::ReadByte { ppn: PhysPageNum(6), offset: 0x123 },
            Cont::ReturnByte
        )
    );
    assert_eq!(resume(&mut kernel, Cont::ReturnByte, Reply::Byte(200)), Step::Done(200));
    assert_eq!(resume(&mut kernel, cont, entry(true, false, true)), Step::Done(-1));
    assert_eq!(resume(&mut kernel, cont, entry(false, true, true)), Step::Done(-1));
    assert_eq!(resume(&mut kernel, cont, Reply::Entry(None)), Step::Done(-1));
}

#[test]
fn tracing_writes_a_byte_of_user_memory() {
    let mut kernel = kernel();
    let cont = Cont::TraceEntry { write: true, offset: 0xfff, data: 0x1ff };
    let lookup = Service::Translate { token: 55, va: 0x7fff };
    assert_eq!(sys_trace(&kernel, 1, 0x7fff, 0x1ff), Step::Call(lookup, cont));
    assert_eq!(
        resume(&mut kernel, cont, entry(true, false, true)),
        Step::Call(
            Service::WriteByte { ppn: PhysPageNum(6), offset: 0xfff, value: 0xff },
            Cont::Return(0)
        )
    );
    assert_eq!(resume(&mut kernel, cont, entry(true, true, false)), Step::Done(-1));
    assert_eq!(resume(&mut kernel, cont, entry(false, true, true)), Step::Done(-1));
}

#[test]
fn tracing_counts_calls() {
    let mut kernel = kernel();
    assert_eq!(
        sys_trace(&kernel, 2, 64, 0),
        Step::Call(Service::SyscallCount { id: 64 }, Cont::ReturnCount)
    );
    assert_eq!(resume(&mut kernel, Cont::ReturnCount, Reply::Count(5)), Step::Done(5));
    assert_eq!(sys_trace(&kernel, 3, 64, 0), Step::Done(-1));
}

#[test]
fn mapping_is_passed_on() {
    let mut kernel = kernel();
    assert_eq!(
        sys_mmap(0x1000, 0x2000, 3),
        Step::Call(
            Service::MmapCurrent { start: 0x1000, len: 0x2000, port: 3 },
            Cont::ReturnCode
        )
    );
    assert_eq!(
        sys_munmap(0x1000, 0x2000),
        Step::Call(Service::Munmap { start: 0x1000, len: 0x2000 }, Cont::ReturnCode)
    );
    assert_eq!(resume(&mut kernel, Cont::ReturnCode, Reply::Code(-1)), Step::Done(-1));
    assert!(!can_resume(&kernel, &Cont::ReturnCode, &Reply::Done));
}

#[test]
fn the_heap_is_resized() {
    let mut kernel = kernel();
    let process = ProcessRef(0);
    let cont = Cont::HeapResized { task: TaskRef(0), size: 100 };
    assert_eq!(
        sys_sbrk(&kernel, 100),
        Step::Call(
            Service::AppendTo { process, start: 0x10_000, new_end: 0x10_064 },
            cont
        )
    );
    assert_eq!(resume(&mut kernel, cont, Reply::Flag(false)), Step::Done(-1));
    assert!(can_resume(&kernel, &cont, &Reply::Flag(true)));
    assert_eq!(resume(&mut kernel, cont, Reply::Flag(true)), Step::Done(0x10_000));
    assert_eq!(kernel.processes[0].inner.program_brk, 0x10_064);
    assert_eq!(
        sys_sbrk(&kernel, -50),
        Step::Call(
            Service::ShrinkTo { process, start: 0x10_000, new_end: 0x10_032 },
            Cont::HeapResized { task: TaskRef(0), size: -50 }
        )
    );
    assert_eq!(sys_sbrk(&kernel, -101), Step::Done(-1));
    kernel.processes[0].inner.program_brk = isize::MAX as usize;
    assert!(!can_resume(&kernel, &cont, &Reply::Flag(true)));
}
