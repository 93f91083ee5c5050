//! The plain values that task and process control blocks are made of.
//!
//! Control blocks live in the tables of a `Kernel` and are shared by reference: a `TaskRef` or a
//! `ProcessRef` is the index of the block in its table. Files, mutexes, semaphores and condition
//! variables are shared in the same way: a process names them by the slot they stand in.

use vstd::prelude::*;

verus! {

/// A shared reference to a task control block.
#[derive(Debug, Clone, Copy, PartialEq, Eq, Structural)]
pub struct TaskRef(pub usize);

/// A shared reference to a process control block.
#[derive(Debug, Clone, Copy, PartialEq, Eq, Structural)]
pub struct ProcessRef(pub usize);

/// A process identifier.
#[derive(Debug, Clone, Copy, PartialEq, Eq, Structural)]
pub struct PidHandle(pub usize);

/// A thread identifier within a process.
#[derive(Debug, Clone, Copy, PartialEq, Eq, Structural)]
pub struct TidHandle(pub usize);

/// The number of a physical page frame.
#[derive(Debug, Clone, Copy, PartialEq, Eq, Structural)]
pub struct PhysPageNum(pub usize);

/// A kernel stack, known by the address of its top.
#[derive(Debug, Clone, Copy, PartialEq, Eq, Structural)]
pub struct KernelStack {
    pub top: usize,
}

impl KernelStack {
    /// The address of the top of the stack.
    pub fn get_top(&self) -> (top: usize)
        ensures
            top == self.top,
    {
        self.top
    }
}

/// The saved kernel context of a task that is not running.
#[derive(Debug, Clone, Copy, PartialEq, Eq, Structural)]
pub struct TaskContext {
    /// Top of the kernel stack on which the task goes on.
    pub kernel_stack_top: usize,
}

impl TaskContext {
    /// The context of a task that returns to user mode when it is first switched to.
    pub fn goto_trap_return(kernel_stack_top: usize) -> (context: Self)
        ensures
            context == (TaskContext { kernel_stack_top }),
    {
        TaskContext { kernel_stack_top }
    }
}

/// What a trap context is set up from when a program or a thread is about to start.
#[derive(Debug, Clone, Copy, PartialEq, Eq, Structural)]
pub struct TrapContext {
    /// Address at which user code starts.
    pub entry: usize,
    /// The user stack pointer.
    pub user_sp: usize,
    /// Token of the kernel's address space.
    pub kernel_satp: usize,
    /// Top of the task's kernel stack.
    pub kernel_sp: usize,
    /// Address of the trap handler.
    pub trap_handler: usize,
    /// The first argument register (`x10`), where the program gets one.
    pub a0: Option<usize>,
    /// The second argument register (`x11`), where the program gets one.
    pub a1: Option<usize>,
}

impl TrapContext {
    /// The context of an application that starts at `entry` with no arguments.
    pub fn app_init_context(
        entry: usize,
        user_sp: usize,
        kernel_satp: usize,
        kernel_sp: usize,
        trap_handler: usize,
    ) -> (context: Self)
        ensures
            context == (TrapContext {
                entry,
                user_sp,
                kernel_satp,
                kernel_sp,
                trap_handler,
                a0: None,
                a1: None,
            }),
    {
        TrapContext { entry, user_sp, kernel_satp, kernel_sp, trap_handler, a0: None, a1: None }
    }
}

/// A set of signals, one bit each.
#[derive(Debug, Clone, Copy, PartialEq, Eq, Structural)]
pub struct SignalFlags {
    pub bits: u32,
}

impl SignalFlags {
    /// The set without any signal.
    pub fn empty() -> (flags: Self)
        ensures
            flags == (SignalFlags { bits: 0 }),
    {
        SignalFlags { bits: 0 }
    }
}

/// What a process does on one signal.
#[derive(Debug, Clone, Copy, PartialEq, Eq, Structural)]
pub struct SignalAction {
    /// Address of the handler.
    pub handler: usize,
    /// Signals that are blocked while the handler runs.
    pub mask: SignalFlags,
}

/// What a process does on each signal.
#[derive(Debug, PartialEq, Eq)]
pub struct SignalActions {
    pub table: Vec<SignalAction>,
}

impl SignalActions {
    /// A table of its own with the same actions.
    pub fn duplicate(&self) -> (copy: Self)
        ensures
            copy.table@ == self.table@,
    {
        let mut table: Vec<SignalAction> = Vec::new();
        let mut i: usize = 0;
        while i < self.table.len()
            invariant
                i <= self.table.len(),
                table@ == self.table@.take(i as int),
            decreases self.table.len() - i,
        {
            table.push(self.table[i]);
            i += 1;
        }
        SignalActions { table }
    }
}

/// An open file.
#[derive(Debug, Clone, Copy, PartialEq, Eq, Structural)]
pub enum FileRef {
    /// The console's input.
    Stdin,
    /// The console's output.
    Stdout,
    /// Any other file, by its place in the system's table of open files.
    Opened(usize),
}

/// An address space, known by its token.
#[derive(Debug, Clone, Copy, PartialEq, Eq, Structural)]
pub struct MemorySet {
    pub token: usize,
}

impl MemorySet {
    /// The token by which the hardware and the page tables know the address space.
    pub fn token(&self) -> (token: usize)
        ensures
            token == self.token,
    {
        self.token
    }
}

/// What a page-table entry says of the page it maps.
#[derive(Debug, Clone, Copy, PartialEq, Eq, Structural)]
pub struct PageTableEntry {
    pub ppn: PhysPageNum,
    /// User code may use the page.
    pub user: bool,
    pub readable: bool,
    pub writable: bool,
}

/// A mutex, by the way in which a thread waits for it.
#[derive(Debug, Clone, Copy, PartialEq, Eq, Structural)]
pub enum Mutex {
    /// The thread keeps trying.
    Spin,
    /// The thread is blocked.
    Blocking,
}

/// A semaphore.
#[derive(Debug, Clone, Copy, PartialEq, Eq, Structural)]
pub struct Semaphore {
    /// The number of free units; not positive while none is free.
    pub count: isize,
}

impl Semaphore {
    /// A semaphore with `res_count` free units.
    pub fn new(res_count: usize) -> (sem: Self)
        ensures
            sem == (Semaphore { count: res_count as isize }),
    {
        Semaphore { count: res_count as isize }
    }
}

/// A condition variable.
#[derive(Debug, Clone, Copy, PartialEq, Eq, Structural)]
pub struct Condvar;

} // verus!
