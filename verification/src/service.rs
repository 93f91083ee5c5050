//! What the core asks of the rest of the kernel, and how a system call goes on from the answer.
//!
//! The scheduler, the memory manager and the locks themselves lie outside the core. A system call
//! runs in the core until it needs one of them. It then stops with a `Step::Call`, which names
//! the service wanted and how to go on, and is resumed with the reply.

use crate::objects::{KernelStack, PageTableEntry, PhysPageNum, ProcessRef, TaskRef, TrapContext};
use vstd::prelude::*;

verus! {

/// What a system call returns that cannot do what it is asked for.
pub const FAILED: isize = -1;

/// Something that another part of the kernel does for the core.
#[derive(Debug, PartialEq, Eq)]
pub enum Service {
    /// Put the current task back into the ready queue and run another.
    SuspendCurrentAndRunNext,
    /// End the current task and run another. Does not come back.
    ExitCurrentAndRunNext,
    /// Block the current task and run another, until someone wakes it.
    BlockCurrentAndRunNext,
    /// Put a task into the ready queue.
    AddTask { task: TaskRef },
    /// Map memory into the current address space. Replies with the call's own result.
    MmapCurrent { start: usize, len: usize, port: usize },
    /// Unmap memory from the current address space. Replies with the call's own result.
    Munmap { start: usize, len: usize },
    /// How often the current task has made the system call `id`.
    SyscallCount { id: usize },
    /// Look up the page that holds `va` in the address space `token`.
    Translate { token: usize, va: usize },
    /// Read one byte of a page frame.
    ReadByte { ppn: PhysPageNum, offset: usize },
    /// Write one byte of a page frame.
    WriteByte { ppn: PhysPageNum, offset: usize, value: u8 },
    /// Look up `len` bytes of user memory at `ptr`. Replies with the sizes of the pieces, in
    /// order, in which they lie in physical memory.
    TranslatedByteBuffer { token: usize, ptr: usize, len: usize },
    /// Fill the pieces of user memory at `ptr`, one by one.
    WriteBuffer { token: usize, ptr: usize, pieces: Vec<Vec<u8>> },
    /// Shrink the area that starts at `start` so that it ends at `new_end`.
    ShrinkTo { process: ProcessRef, start: usize, new_end: usize },
    /// Grow the area that starts at `start` so that it ends at `new_end`.
    AppendTo { process: ProcessRef, start: usize, new_end: usize },
    /// Map fresh page frames, readable and writable, and for user code where `user` is set.
    InsertFramedArea { process: ProcessRef, start: usize, end: usize, user: bool },
    /// Allocate a kernel stack.
    AllocKernelStack,
    /// Set up the trap context in the frame `ppn`.
    InitTrapContext { ppn: PhysPageNum, context: TrapContext },
    /// Set the kernel stack pointer of the trap context in the frame `ppn`.
    SetKernelSp { ppn: PhysPageNum, kernel_sp: usize },
    /// Whether the current task holds a mutex.
    MutexIsHeldByCurrent { process: ProcessRef, mutex_id: usize },
    /// Lock a mutex, waiting for it.
    MutexLock { process: ProcessRef, mutex_id: usize },
    /// Unlock a mutex.
    MutexUnlock { process: ProcessRef, mutex_id: usize },
    /// Give back a unit of a semaphore; may wake a blocked task.
    SemaphoreUp { process: ProcessRef, sem_id: usize },
    /// Take a unit of a semaphore, waiting for it.
    SemaphoreDown { process: ProcessRef, sem_id: usize },
    /// Wake a task that waits for a condition variable.
    CondvarSignal { process: ProcessRef, condvar_id: usize },
    /// Wait for a condition variable, giving up the mutex meanwhile.
    CondvarWait { process: ProcessRef, condvar_id: usize, mutex_id: usize },
}

/// What a service answers.
#[derive(Debug, PartialEq, Eq)]
pub enum Reply {
    /// It is done.
    Done,
    /// Yes or no.
    Flag(bool),
    /// The result of a system call.
    Code(isize),
    /// A number of calls.
    Count(usize),
    /// A page-table entry, if the page is mapped.
    Entry(Option<PageTableEntry>),
    /// A byte.
    Byte(u8),
    /// The sizes of the pieces of a buffer.
    Lengths(Vec<usize>),
    /// A kernel stack.
    Stack(KernelStack),
}

/// How a system call goes on once the service it asked for has replied.
#[derive(Debug, Clone, Copy, PartialEq, Eq, Structural)]
pub enum Cont {
    /// It returns this result.
    Return(isize),
    /// It returns the service's own result.
    ReturnCode,
    /// It returns the count.
    ReturnCount,
    /// It returns the byte that was read.
    ReturnByte,
    /// It does not go on: the service does not come back.
    Never,
    /// `sys_trace` has the page-table entry of the byte at `offset` of its page.
    TraceEntry { write: bool, offset: usize, data: usize },
    /// `sys_get_time` has the pieces of the user's buffer.
    TimeBuffer { token: usize, ptr: usize, sec: usize, usec: usize },
    /// `sys_sbrk` knows whether the heap could be resized.
    HeapResized { task: TaskRef, size: i32 },
    /// `sys_mutex_lock` knows whether the task holds the mutex already.
    MutexProbed { process: ProcessRef, mutex_id: usize },
    /// `sys_semaphore_down` has got its unit after it had to wait.
    SemaphoreTaken { process: ProcessRef, tid: usize, sem_id: usize },
    /// `sys_thread_create` has a kernel stack.
    ThreadStack { process: ProcessRef, entry: usize, arg: usize },
    /// `sys_thread_create` has mapped the page of the trap context.
    ThreadTrapPage { process: ProcessRef, thread: NewThread },
    /// `sys_thread_create` has mapped the user stack.
    ThreadUserStack { process: ProcessRef, thread: NewThread },
    /// `sys_thread_create` has the page-table entry of the trap context.
    ThreadFrame { process: ProcessRef, thread: NewThread },
    /// `sys_thread_create` has set up the trap context.
    ThreadReady { task: TaskRef, tid: usize },
}

/// A thread that is being created.
#[derive(Debug, Clone, Copy, PartialEq, Eq, Structural)]
pub struct NewThread {
    pub kernel_stack: KernelStack,
    pub entry: usize,
    pub arg: usize,
    pub tid: usize,
    /// Where the trap context is mapped.
    pub trap_cx_va: usize,
    pub ustack_bottom: usize,
    pub ustack_top: usize,
}

/// Where a system call stands.
#[derive(Debug, PartialEq, Eq)]
pub enum Step {
    /// It has returned.
    Done(isize),
    /// It waits for a service.
    Call(Service, Cont),
    /// It cannot go on: there is no usable reading of the clock, or a task went on that has
    /// exited. The kernel panics.
    Fault,
}

} // verus!
