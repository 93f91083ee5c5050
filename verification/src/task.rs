//! Task and process control blocks.

use crate::argv::{
    args_size, law_arguments_are_found, law_stack_pointer_is_aligned, layout_args, ArgStack,
};
use crate::banker::{alloc_view, alloc_wf, none_negative};
use crate::config::Config;
use crate::kernel::Kernel;
use crate::objects::{
    Condvar, FileRef, KernelStack, MemorySet, Mutex, PhysPageNum, PidHandle, ProcessRef,
    Semaphore, SignalActions, SignalFlags, TaskContext, TaskRef, TidHandle, TrapContext,
};
use crate::service::{NewThread, Service};
use crate::slots;
use vstd::prelude::*;

verus! {

/// The state of a task.
#[derive(Debug, Copy, Clone, PartialEq, Eq, Structural)]
pub enum TaskStatus {
    /// Not initialised
    UnInit,
    /// Ready to run
    Ready,
    /// Running
    Running,
    /// Exited
    Zombie,
    /// Blocked
    Blocking,
}

/// The part of a task control block that changes while the task runs.
#[derive(Debug, Copy, Clone, PartialEq, Eq)]
pub struct TaskControlBlockInner {
    /// The page frame that holds the trap context.
    pub trap_cx_ppn: PhysPageNum,
    /// The virtual address of the trap context.
    pub trap_cx_va: usize,
    /// The saved task context.
    pub task_cx: TaskContext,
    /// The state of the task.
    pub task_status: TaskStatus,
    /// Set when the task exits.
    pub exit_code: i32,
    /// Priority for stride scheduling.
    pub priority: usize,
    /// Stride for stride scheduling.
    pub stride: usize,
}

/// A thread.
#[derive(Debug, Copy, Clone, PartialEq, Eq)]
pub struct TaskControlBlock {
    /// The thread's identifier in its process.
    pub tid: TidHandle,
    /// The thread's kernel stack.
    pub kernel_stack: KernelStack,
    /// What changes while the thread runs.
    pub inner: TaskControlBlockInner,
    /// The process that the thread belongs to.
    pub process: ProcessRef,
}

/// A process.
pub struct ProcessControlBlock {
    pub pid: PidHandle,
    /// What changes while the process runs.
    pub inner: ProcessControlBlockInner,
}

/// The part of a process control block that changes while the process runs.
pub struct ProcessControlBlockInner {
    /// The address space.
    pub memory_set: MemorySet,
    /// Application data lies below this address.
    pub base_size: usize,
    /// The task that forked this process.
    pub parent: Option<TaskRef>,
    /// The main tasks of the processes forked from this one.
    pub children: Vec<TaskRef>,
    pub fd_table: Vec<Option<FileRef>>,
    pub signals: SignalFlags,
    pub signal_mask: SignalFlags,
    /// The signal that is being handled.
    pub handling_sig: isize,
    pub signal_actions: SignalActions,
    /// The process has been killed.
    pub killed: bool,
    /// The process is stopped by a signal.
    pub frozen: bool,
    pub trap_ctx_backup: Option<TrapContext>,
    /// Where the heap starts.
    pub heap_bottom: usize,
    /// Where the heap ends.
    pub program_brk: usize,
    /// The threads, by their identifiers.
    pub tasks: Vec<Option<TaskRef>>,
    pub semaphore_list: Vec<Option<Semaphore>>,
    pub mutex_list: Vec<Option<Mutex>>,
    pub condvar_list: Vec<Option<Condvar>>,
    /// Where the next thread's user stack starts.
    pub next_ustack: usize,
    /// The next thread's identifier.
    pub next_tid: usize,
    /// Whether deadlocks are detected.
    pub deadlock_detect_enabled: bool,
    /// thread -> semaphore -> number of units held
    pub sem_alloc: Vec<Vec<isize>>,
    /// thread -> the semaphore that it is blocked on
    pub sem_wait_for: Vec<Option<usize>>,
}

/// What loading a program gives.
#[derive(Debug, Copy, Clone, PartialEq, Eq)]
pub struct Image {
    pub memory_set: MemorySet,
    /// Top of the user stack.
    pub user_sp: usize,
    pub entry_point: usize,
    /// The page frame that the main thread's place for a trap context is mapped to.
    pub trap_cx_ppn: PhysPageNum,
}

/// What `exec` asks of the memory manager.
#[derive(Debug, PartialEq, Eq)]
pub struct ExecRequest {
    /// The address space into which the arguments are to be written.
    pub token: usize,
    /// The arguments.
    pub stack: ArgStack,
    /// The trap context to set up.
    pub trap_cx: Service,
}

impl TaskControlBlockInner {
    /// The state of a thread that has not run yet.
    pub open spec fn fresh(
        trap_cx_ppn: PhysPageNum,
        trap_cx_va: usize,
        kernel_stack: KernelStack,
    ) -> TaskControlBlockInner {
        TaskControlBlockInner {
            trap_cx_ppn,
            trap_cx_va,
            task_cx: TaskContext { kernel_stack_top: kernel_stack.top },
            task_status: TaskStatus::Ready,
            exit_code: 0,
            priority: 16,
            stride: 0,
        }
    }

    /// The state of a thread that has not run yet.
    fn new(trap_cx_ppn: PhysPageNum, trap_cx_va: usize, kernel_stack: KernelStack) -> (inner: Self)
        ensures
            inner == TaskControlBlockInner::fresh(trap_cx_ppn, trap_cx_va, kernel_stack),
    {
        TaskControlBlockInner {
            trap_cx_ppn,
            trap_cx_va,
            task_cx: TaskContext::goto_trap_return(kernel_stack.get_top()),
            task_status: TaskStatus::Ready,
            exit_code: 0,
            priority: 16,
            stride: 0,
        }
    }

    /// Where the trap context is: the page frame that holds it.
    pub fn get_trap_cx(&self) -> (ppn: PhysPageNum)
        ensures
            ppn == self.trap_cx_ppn,
    {
        self.trap_cx_ppn
    }

    fn get_status(&self) -> (status: TaskStatus)
        ensures
            status == self.task_status,
    {
        self.task_status
    }

    /// Whether the task has exited.
    pub fn is_zombie(&self) -> (zombie: bool)
        ensures
            zombie == (self.task_status == TaskStatus::Zombie),
    {
        self.get_status() == TaskStatus::Zombie
    }
}

/// How the end of the heap is to move.
#[derive(Debug, Copy, Clone, PartialEq, Eq, Structural)]
pub enum BrkRequest {
    /// Not at all: it would come to lie below the heap's start.
    Refused,
    /// Down to this address.
    Shrink(usize),
    /// Up to this address.
    Append(usize),
}

/// The end of the heap after a change by `size`, as a signed number.
pub open spec fn moved_brk(program_brk: usize, size: i32) -> int {
    (program_brk as isize) + size
}

/// How the end of the heap is to move for a change by `size`.
pub open spec fn brk_request(heap_bottom: usize, program_brk: usize, size: i32) -> BrkRequest {
    let new_brk = moved_brk(program_brk, size);
    if new_brk < heap_bottom as isize {
        BrkRequest::Refused
    } else if size < 0 {
        BrkRequest::Shrink(new_brk as isize as usize)
    } else {
        BrkRequest::Append(new_brk as isize as usize)
    }
}

impl ProcessControlBlockInner {
    /// Every task that the process refers to exists, of the `task_count` there are, and no thread
    /// holds a negative number of semaphore units.
    pub open spec fn wf(&self, task_count: nat) -> bool {
        &&& self.parent is Some ==> (self.parent->0).0 < task_count
        &&& forall|i: int|
            0 <= i < self.children.len() ==> (#[trigger] self.children@[i]).0 < task_count
        &&& forall|i: int|
            0 <= i < self.tasks.len() && self.tasks@[i] is Some ==> ((
            #[trigger] self.tasks@[i])->0).0 < task_count
        &&& alloc_wf(alloc_view(self.sem_alloc@))
    }

    /// Whether every task that the process refers to exists, of the `task_count` there are, and no
    /// thread holds a negative number of semaphore units.
    pub fn in_order(&self, task_count: usize) -> (ok: bool)
        ensures
            ok == self.wf(task_count as nat),
    {
        if let Some(parent) = self.parent {
            if parent.0 >= task_count {
                return false;
            }
        }
        let mut i: usize = 0;
        while i < self.children.len()
            invariant
                i <= self.children.len(),
                forall|k: int| 0 <= k < i ==> (#[trigger] self.children@[k]).0 < task_count,
            decreases self.children.len() - i,
        {
            if self.children[i].0 >= task_count {
                return false;
            }
            i += 1;
        }
        let mut j: usize = 0;
        while j < self.tasks.len()
            invariant
                j <= self.tasks.len(),
                forall|k: int|
                    0 <= k < j && self.tasks@[k] is Some ==> ((#[trigger] self.tasks@[k])->0).0
                        < task_count,
            decreases self.tasks.len() - j,
        {
            if let Some(task) = self.tasks[j] {
                if task.0 >= task_count {
                    return false;
                }
            }
            j += 1;
        }
        none_negative(&self.sem_alloc)
    }

    /// The token of the address space.
    pub fn get_user_token(&self) -> (token: usize)
        ensures
            token == self.memory_set.token,
    {
        self.memory_set.token()
    }

    /// Finds the lowest free file descriptor, adding one to the table where all are in use. The
    /// descriptor stays free.
    pub fn alloc_fd(&mut self) -> (fd: usize)
        ensures
            descriptor_found(*old(self), *final(self), fd),
    {
        slots::place(&mut self.fd_table, None)
    }

    /// How the heap is to be resized for a change of its end by `size`.
    pub fn plan_program_brk(&self, size: i32) -> (request: BrkRequest)
        requires
            isize::MIN <= moved_brk(self.program_brk, size) <= isize::MAX,
        ensures
            request == brk_request(self.heap_bottom, self.program_brk, size),
    {
        let new_brk: isize = self.program_brk as isize + size as isize;
        if new_brk < self.heap_bottom as isize {
            BrkRequest::Refused
        } else if size < 0 {
            BrkRequest::Shrink(new_brk as usize)
        } else {
            BrkRequest::Append(new_brk as usize)
        }
    }
}

/// `fd` is the lowest free file descriptor, and the one difference between `after` and `before` is
/// that the table has it.
pub open spec fn descriptor_found(
    before: ProcessControlBlockInner,
    after: ProcessControlBlockInner,
    fd: usize,
) -> bool {
    &&& slots::lowest_free(before.fd_table@, fd as int)
    &&& after.fd_table@ == slots::placed(before.fd_table@, fd as int, None)
    &&& after == (ProcessControlBlockInner { fd_table: after.fd_table, ..before })
}

/// There is room for one more thread: its trap context, its user stack and its identifier fit.
pub open spec fn thread_fits(process: ProcessControlBlockInner, config: Config) -> bool {
    &&& process.next_tid < usize::MAX
    &&& process.next_tid * config.page_size <= config.trap_context_base
    &&& config.trap_context_base - process.next_tid * config.page_size + config.page_size
        <= usize::MAX
    &&& process.next_ustack + config.user_stack_size <= usize::MAX
}

/// The next thread of a process.
pub open spec fn next_thread(
    process: ProcessControlBlockInner,
    config: Config,
    kernel_stack: KernelStack,
    entry: usize,
    arg: usize,
) -> NewThread {
    NewThread {
        kernel_stack,
        entry,
        arg,
        tid: process.next_tid,
        trap_cx_va: (config.trap_context_base - process.next_tid * config.page_size) as usize,
        ustack_bottom: process.next_ustack,
        ustack_top: (process.next_ustack + config.user_stack_size) as usize,
    }
}

impl ProcessControlBlockInner {
    /// Sets aside an identifier, a place for the trap context and a user stack for a new thread.
    pub fn reserve_thread(
        &mut self,
        config: &Config,
        kernel_stack: KernelStack,
        entry: usize,
        arg: usize,
    ) -> (thread: NewThread)
        requires
            thread_fits(*old(self), *config),
        ensures
            thread == next_thread(*old(self), *config, kernel_stack, entry, arg),
            *final(self) == (ProcessControlBlockInner {
                next_tid: (old(self).next_tid + 1) as usize,
                next_ustack: thread.ustack_top,
                ..*old(self)
            }),
    {
        let tid: usize = self.next_tid;
        self.next_tid = tid + 1;
        let trap_cx_va: usize = config.trap_context_base - tid * config.page_size;
        let ustack_bottom: usize = self.next_ustack;
        let ustack_top: usize = ustack_bottom + config.user_stack_size;
        self.next_ustack = ustack_top;
        NewThread { kernel_stack, entry, arg, tid, trap_cx_va, ustack_bottom, ustack_top }
    }

    /// The state of the first process after it has been loaded.
    pub open spec fn is_initial(&self, image: Image, signal_actions: SignalActions) -> bool {
        &&& self.memory_set == image.memory_set
        &&& self.base_size == image.user_sp
        &&& self.parent is None
        &&& self.children@ == Seq::<TaskRef>::empty()
        &&& self.fd_table@ == seq![
            Some(FileRef::Stdin),
            Some(FileRef::Stdout),
            Some(FileRef::Stdout),
        ]
        &&& self.signals == (SignalFlags { bits: 0 })
        &&& self.signal_mask == (SignalFlags { bits: 0 })
        &&& self.signal_actions == signal_actions
        &&& self.heap_bottom == image.user_sp
        &&& self.program_brk == image.user_sp
        &&& self.tasks@ == Seq::<Option<TaskRef>>::empty()
        &&& self.next_ustack == image.user_sp
        &&& self.starts_without_threads()
    }

    /// No signal is being handled, and there are no locks, no threads but the main one, and no
    /// deadlock detection.
    pub open spec fn starts_without_threads(&self) -> bool {
        &&& self.handling_sig == -1
        &&& !self.killed
        &&& !self.frozen
        &&& self.trap_ctx_backup is None
        &&& self.semaphore_list@ == Seq::<Option<Semaphore>>::empty()
        &&& self.mutex_list@ == Seq::<Option<Mutex>>::empty()
        &&& self.condvar_list@ == Seq::<Option<Condvar>>::empty()
        &&& self.next_tid == 1
        &&& !self.deadlock_detect_enabled
        &&& self.sem_alloc@ == Seq::<Vec<isize>>::empty()
        &&& self.sem_wait_for@ == Seq::<Option<usize>>::empty()
    }

    /// The state of a process that the task `forker` has just forked from one in state `parent`:
    /// the same files, signal mask, signal actions and memory layout in the copied address space
    /// `memory_set`, no pending signals, and the task `main` as its one thread.
    pub open spec fn is_forked_from(
        &self,
        parent: ProcessControlBlockInner,
        forker: TaskRef,
        memory_set: MemorySet,
        main: TaskRef,
    ) -> bool {
        &&& self.memory_set == memory_set
        &&& self.base_size == parent.base_size
        &&& self.parent == Some(forker)
        &&& self.children@ == Seq::<TaskRef>::empty()
        &&& self.fd_table@ == parent.fd_table@
        &&& self.signals == (SignalFlags { bits: 0 })
        &&& self.signal_mask == parent.signal_mask
        &&& self.signal_actions.table@ == parent.signal_actions.table@
        &&& self.heap_bottom == parent.heap_bottom
        &&& self.program_brk == parent.program_brk
        &&& self.tasks@ == seq![Some(main)]
        &&& self.next_ustack == parent.next_ustack
        &&& self.starts_without_threads()
    }

    /// The state of a process after it has loaded `image` in state `before`.
    pub open spec fn is_reloaded(&self, before: ProcessControlBlockInner, image: Image) -> bool {
        &&& *self == (ProcessControlBlockInner {
            memory_set: image.memory_set,
            heap_bottom: image.user_sp,
            program_brk: image.user_sp,
            next_ustack: image.user_sp,
            next_tid: 1,
            deadlock_detect_enabled: false,
            sem_alloc: self.sem_alloc,
            sem_wait_for: self.sem_wait_for,
            ..before
        })
        &&& self.sem_alloc@ == Seq::<Vec<isize>>::empty()
        &&& self.sem_wait_for@ == Seq::<Option<usize>>::empty()
    }
}

/// Copies a table of open files.
fn copy_files(files: &Vec<Option<FileRef>>) -> (copy: Vec<Option<FileRef>>)
    ensures
        copy@ == files@,
{
    let mut copy: Vec<Option<FileRef>> = Vec::new();
    let mut i: usize = 0;
    while i < files.len()
        invariant
            i <= files.len(),
            copy@ == files@.take(i as int),
        decreases files.len() - i,
    {
        copy.push(files[i]);
        i += 1;
    }
    copy
}

impl ProcessControlBlock {
    /// Access to the part that changes.
    pub fn inner_exclusive_access(&mut self) -> (inner: &mut ProcessControlBlockInner)
        ensures
            *inner == old(self).inner,
            *final(self) == (ProcessControlBlock { inner: *final(inner), ..*old(self) }),
    {
        &mut self.inner
    }

    /// The token of the address space.
    pub fn get_user_token(&self) -> (token: usize)
        ensures
            token == self.inner.memory_set.token,
    {
        self.inner.get_user_token()
    }
}

impl TaskControlBlock {
    /// Access to the part that changes.
    pub fn inner_exclusive_access(&mut self) -> (inner: &mut TaskControlBlockInner)
        ensures
            *inner == old(self).inner,
            *final(self) == (TaskControlBlock { inner: *final(inner), ..*old(self) }),
    {
        &mut self.inner
    }

    /// The token of the address space that the task runs in.
    pub fn get_user_token(&self, processes: &Vec<ProcessControlBlock>) -> (token: usize)
        requires
            self.process.0 < processes.len(),
        ensures
            token == processes@[self.process.0 as int].inner.memory_set.token,
    {
        processes[self.process.0].get_user_token()
    }

    /// The identifier of the process that the task belongs to.
    pub open spec fn pid_among(&self, processes: Seq<ProcessControlBlock>) -> usize {
        processes[self.process.0 as int].pid.0
    }

    /// The identifier of the process that the task belongs to.
    pub fn getpid(&self, processes: &Vec<ProcessControlBlock>) -> (pid: usize)
        requires
            self.process.0 < processes.len(),
        ensures
            pid == self.pid_among(processes@),
    {
        processes[self.process.0].pid.0
    }

    /// Moves the end of the heap by `size`, where `resized` says whether the memory manager could
    /// resize the heap as `plan_program_brk` asked. Returns the old end, or `None` where nothing
    /// moved.
    pub fn change_program_brk(
        &self,
        processes: &mut Vec<ProcessControlBlock>,
        size: i32,
        resized: bool,
    ) -> (old_break: Option<usize>)
        requires
            self.process.0 < old(processes).len(),
            isize::MIN <= moved_brk(
                old(processes)@[self.process.0 as int].inner.program_brk,
                size,
            ) <= isize::MAX,
        ensures
            brk_changed(
                old(processes)@[self.process.0 as int].inner,
                final(processes)@[self.process.0 as int].inner,
                size,
                resized,
                old_break,
            ),
            final(processes)@ == old(processes)@.update(
                self.process.0 as int,
                final(processes)@[self.process.0 as int],
            ),
            final(processes)@[self.process.0 as int].pid == old(
                processes,
            )@[self.process.0 as int].pid,
    {
        let p: usize = self.process.0;
        let old_break: usize = processes[p].inner.program_brk;
        let new_brk: usize = match processes[p].inner.plan_program_brk(size) {
            BrkRequest::Refused => {
                return None;
            },
            BrkRequest::Shrink(new_brk) => new_brk,
            BrkRequest::Append(new_brk) => new_brk,
        };
        if resized {
            processes[p].inner.program_brk = new_brk;
            Some(old_break)
        } else {
            None
        }
    }

    /// Creates the control blocks of a process from a loaded program. Only used for the first
    /// process. Returns its main thread, and the trap context to set up for it. The caller enters
    /// the thread into the table of tasks and lists it among the threads of its process.
    pub fn new(
        kernel: &mut Kernel,
        image: Image,
        pid: PidHandle,
        kernel_stack: KernelStack,
        signal_actions: SignalActions,
    ) -> (created: (TaskControlBlock, Service))
        requires
            old(kernel).wf(),
        ensures
            final(kernel).wf(),
            final(kernel).keeps_threads(*old(kernel)),
            process_created(
                *old(kernel),
                *final(kernel),
                image,
                pid,
                kernel_stack,
                signal_actions,
                created,
            ),
    {
        let process = ProcessRef(kernel.processes.len());
        let fd_table: Vec<Option<FileRef>> = vec![
            Some(FileRef::Stdin),
            Some(FileRef::Stdout),
            Some(FileRef::Stdout),
        ];
        kernel.processes.push(
            ProcessControlBlock {
                pid,
                inner: ProcessControlBlockInner {
                    memory_set: image.memory_set,
                    base_size: image.user_sp,
                    parent: None,
                    children: Vec::new(),
                    fd_table,
                    signals: SignalFlags::empty(),
                    signal_mask: SignalFlags::empty(),
                    handling_sig: -1,
                    signal_actions,
                    killed: false,
                    frozen: false,
                    trap_ctx_backup: None,
                    heap_bottom: image.user_sp,
                    program_brk: image.user_sp,
                    tasks: Vec::new(),
                    semaphore_list: Vec::new(),
                    mutex_list: Vec::new(),
                    condvar_list: Vec::new(),
                    next_ustack: image.user_sp,
                    next_tid: 1,
                    deadlock_detect_enabled: false,
                    sem_alloc: Vec::new(),
                    sem_wait_for: Vec::new(),
                },
            },
        );
        let trap_context_base: usize = kernel.config.trap_context_base;
        let task = TaskControlBlock {
            tid: TidHandle(0),
            kernel_stack,
            inner: TaskControlBlockInner::new(image.trap_cx_ppn, trap_context_base, kernel_stack),
            process,
        };
        let context = TrapContext::app_init_context(
            image.entry_point,
            image.user_sp,
            kernel.config.kernel_token,
            kernel_stack.get_top(),
            kernel.config.trap_handler,
        );
        let trap_cx = Service::InitTrapContext { ppn: task.inner.get_trap_cx(), context };
        (task, trap_cx)
    }

    /// Replaces the program of the process of `task` by a loaded one, to run with `args`. Returns
    /// the arguments to write onto the new user stack and the trap context to set up.
    pub fn exec(kernel: &mut Kernel, task: TaskRef, image: Image, args: Vec<String>) -> (request:
        ExecRequest)
        requires
            old(kernel).wf(),
            task.0 < old(kernel).tasks.len(),
            args_size(args@) <= image.user_sp,
        ensures
            final(kernel).wf(),
            final(kernel).same_threads(*old(kernel)),
            forall|t: int|
                0 <= t < old(kernel).tasks.len() ==> #[trigger] final(kernel).same_exit_code(
                    *old(kernel),
                    t,
                ),
            program_loaded(*old(kernel), *final(kernel), task, image, args@, request),
    {
        let stack = layout_args(image.user_sp, &args);
        let config = kernel.config;
        let p: usize = kernel.tasks[task.0].process.0;
        kernel.processes[p].inner.memory_set = image.memory_set;
        kernel.processes[p].inner.heap_bottom = image.user_sp;
        kernel.processes[p].inner.program_brk = image.user_sp;
        kernel.processes[p].inner.next_ustack = image.user_sp;
        kernel.processes[p].inner.next_tid = 1;
        kernel.processes[p].inner.deadlock_detect_enabled = false;
        kernel.processes[p].inner.sem_alloc = Vec::new();
        kernel.processes[p].inner.sem_wait_for = Vec::new();
        kernel.tasks[task.0].inner.trap_cx_ppn = image.trap_cx_ppn;
        kernel.tasks[task.0].inner.trap_cx_va = config.trap_context_base;
        let mut context = TrapContext::app_init_context(
            image.entry_point,
            stack.user_sp,
            config.kernel_token,
            kernel.tasks[task.0].kernel_stack.get_top(),
            config.trap_handler,
        );
        context.a0 = Some(args.len());
        context.a1 = Some(stack.argv_base);
        let ppn = kernel.tasks[task.0].inner.get_trap_cx();
        let trap_cx = Service::InitTrapContext { ppn, context };
        proof {
            assert(kernel.processes@ =~= old(kernel).processes@.update(
                p as int,
                kernel.processes@[p as int],
            ));
            assert(kernel.tasks@ =~= old(kernel).tasks@.update(
                task.0 as int,
                kernel.tasks@[task.0 as int],
            ));
        }
        ExecRequest { token: image.memory_set.token(), stack, trap_cx }
    }

    /// Forks the process of the task `forker`: `memory_set` is a copy of its address space and
    /// `trap_cx_ppn` the page frame of the trap context in it. Returns the child's main thread,
    /// and the change that its trap context needs.
    pub fn fork(
        kernel: &mut Kernel,
        forker: TaskRef,
        memory_set: MemorySet,
        trap_cx_ppn: PhysPageNum,
        pid: PidHandle,
        kernel_stack: KernelStack,
    ) -> (forked: (TaskRef, Service))
        requires
            old(kernel).wf(),
            forker.0 < old(kernel).tasks.len(),
        ensures
            final(kernel).wf(),
            final(kernel).keeps_threads(*old(kernel)),
            process_forked(
                *old(kernel),
                *final(kernel),
                forker,
                memory_set,
                trap_cx_ppn,
                pid,
                kernel_stack,
                forked,
            ),
    {
        let parent: usize = kernel.tasks[forker.0].process.0;
        let process = ProcessRef(kernel.processes.len());
        let child = TaskRef(kernel.tasks.len());
        let fd_table = copy_files(&kernel.processes[parent].inner.fd_table);
        let signal_actions = kernel.processes[parent].inner.signal_actions.duplicate();
        let mut tasks: Vec<Option<TaskRef>> = Vec::new();
        slots::put_at(&mut tasks, 0, child);
        assert(tasks@ =~= seq![Some(child)]);
        let inner = ProcessControlBlockInner {
            memory_set,
            base_size: kernel.processes[parent].inner.base_size,
            parent: Some(forker),
            children: Vec::new(),
            fd_table,
            signals: SignalFlags::empty(),
            signal_mask: kernel.processes[parent].inner.signal_mask,
            handling_sig: -1,
            signal_actions,
            killed: false,
            frozen: false,
            trap_ctx_backup: None,
            heap_bottom: kernel.processes[parent].inner.heap_bottom,
            program_brk: kernel.processes[parent].inner.program_brk,
            tasks,
            semaphore_list: Vec::new(),
            mutex_list: Vec::new(),
            condvar_list: Vec::new(),
            next_ustack: kernel.processes[parent].inner.next_ustack,
            next_tid: 1,
            deadlock_detect_enabled: false,
            sem_alloc: Vec::new(),
            sem_wait_for: Vec::new(),
        };
        let trap_context_base: usize = kernel.config.trap_context_base;
        let task = TaskControlBlock {
            tid: TidHandle(0),
            kernel_stack,
            inner: TaskControlBlockInner::new(trap_cx_ppn, trap_context_base, kernel_stack),
            process,
        };
        kernel.processes[parent].inner.children.push(child);
        kernel.processes.push(ProcessControlBlock { pid, inner });
        kernel.tasks.push(task);
        (
            child,
            Service::SetKernelSp {
                ppn: task.inner.get_trap_cx(),
                kernel_sp: kernel_stack.get_top(),
            },
        )
    }

    /// Creates a thread of `process` as it was reserved; its trap context has been mapped to the
    /// page frame `trap_cx_ppn`. Returns the thread, and the trap context to set up for it.
    pub fn new_thread(
        kernel: &mut Kernel,
        process: ProcessRef,
        thread: NewThread,
        trap_cx_ppn: PhysPageNum,
    ) -> (created: (TaskRef, Service))
        requires
            old(kernel).wf(),
            process.0 < old(kernel).processes.len(),
            thread.tid < usize::MAX,
        ensures
            final(kernel).wf(),
            final(kernel).keeps_threads(*old(kernel)),
            thread_created(*old(kernel), *final(kernel), process, thread, trap_cx_ppn),
            created.0 == TaskRef(old(kernel).tasks.len()),
            created.1 == thread_context(old(kernel).config, thread, trap_cx_ppn),
    {
        let created = TaskRef(kernel.tasks.len());
        let task = TaskControlBlock {
            tid: TidHandle(thread.tid),
            kernel_stack: thread.kernel_stack,
            inner: TaskControlBlockInner::new(trap_cx_ppn, thread.trap_cx_va, thread.kernel_stack),
            process,
        };
        kernel.tasks.push(task);
        let mut context = TrapContext::app_init_context(
            thread.entry,
            thread.ustack_top,
            kernel.config.kernel_token,
            thread.kernel_stack.get_top(),
            kernel.config.trap_handler,
        );
        context.a0 = Some(thread.arg);
        slots::put_at(&mut kernel.processes[process.0].inner.tasks, thread.tid, created);
        (created, Service::InitTrapContext { ppn: task.inner.get_trap_cx(), context })
    }
}

impl Kernel {
    /// What differs from `old_kernel` is that the process of `task` has loaded `image`, and that
    /// the task has its trap context in the main thread's place in the new address space.
    pub open spec fn same_but_program(
        &self,
        old_kernel: Kernel,
        task: TaskRef,
        image: Image,
    ) -> bool {
        let old_task = old_kernel.tasks@[task.0 as int];
        let p = old_task.process.0 as int;
        &&& self.config == old_kernel.config
        &&& self.current == old_kernel.current
        &&& self.timers == old_kernel.timers
        &&& self.tasks@ == old_kernel.tasks@.update(
            task.0 as int,
            TaskControlBlock {
                inner: TaskControlBlockInner {
                    trap_cx_ppn: image.trap_cx_ppn,
                    trap_cx_va: old_kernel.config.trap_context_base,
                    ..old_task.inner
                },
                ..old_task
            },
        )
        &&& self.processes@ == old_kernel.processes@.update(p, self.processes@[p])
        &&& self.processes@[p].pid == old_kernel.processes@[p].pid
        &&& self.processes@[p].inner.is_reloaded(old_kernel.processes@[p].inner, image)
    }
}

/// The one difference between `after` and `before` is the new process, made from a loaded program;
/// `created` is its main thread and the trap context to set up for it.
pub open spec fn process_created(
    before: Kernel,
    after: Kernel,
    image: Image,
    pid: PidHandle,
    kernel_stack: KernelStack,
    signal_actions: SignalActions,
    created: (TaskControlBlock, Service),
) -> bool {
    &&& after.config == before.config
    &&& after.tasks == before.tasks
    &&& after.current == before.current
    &&& after.timers == before.timers
    &&& after.processes@ == before.processes@.push(after.processes@.last())
    &&& after.processes@.last().pid == pid
    &&& after.processes@.last().inner.is_initial(image, signal_actions)
    &&& created.0 == (TaskControlBlock {
        tid: TidHandle(0),
        kernel_stack,
        inner: TaskControlBlockInner::fresh(
            image.trap_cx_ppn,
            before.config.trap_context_base,
            kernel_stack,
        ),
        process: ProcessRef(before.processes.len()),
    })
    &&& created.1 == (Service::InitTrapContext {
        ppn: image.trap_cx_ppn,
        context: TrapContext {
            entry: image.entry_point,
            user_sp: image.user_sp,
            kernel_satp: before.config.kernel_token,
            kernel_sp: kernel_stack.top,
            trap_handler: before.config.trap_handler,
            a0: None,
            a1: None,
        },
    })
}

/// The process of `task` has loaded `image`, and `request` asks for the arguments `args` to be
/// written onto the new user stack and for the trap context to be set up.
pub open spec fn program_loaded(
    before: Kernel,
    after: Kernel,
    task: TaskRef,
    image: Image,
    args: Seq<String>,
    request: ExecRequest,
) -> bool {
    &&& after.same_but_program(before, task, image)
    &&& request.token == image.memory_set.token
    &&& request.stack.holds(image.user_sp as int, args)
    &&& request.trap_cx == (Service::InitTrapContext {
        ppn: image.trap_cx_ppn,
        context: TrapContext {
            entry: image.entry_point,
            user_sp: request.stack.user_sp,
            kernel_satp: before.config.kernel_token,
            kernel_sp: before.tasks@[task.0 as int].kernel_stack.top,
            trap_handler: before.config.trap_handler,
            a0: Some(args.len() as usize),
            a1: Some(request.stack.argv_base),
        },
    })
}

/// The one difference between `after` and `before` is the process forked by the task `forker`:
/// its control blocks, and its place among its parent's children. `forked` is its main thread and
/// the change that its trap context needs.
pub open spec fn process_forked(
    before: Kernel,
    after: Kernel,
    forker: TaskRef,
    memory_set: MemorySet,
    trap_cx_ppn: PhysPageNum,
    pid: PidHandle,
    kernel_stack: KernelStack,
    forked: (TaskRef, Service),
) -> bool {
    let parent = before.tasks@[forker.0 as int].process;
    &&& after.config == before.config
    &&& after.current == before.current
    &&& after.timers == before.timers
    &&& forked.0 == TaskRef(before.tasks.len())
    &&& after.tasks@ == before.tasks@.push(
        TaskControlBlock {
            tid: TidHandle(0),
            kernel_stack,
            inner: TaskControlBlockInner::fresh(
                trap_cx_ppn,
                before.config.trap_context_base,
                kernel_stack,
            ),
            process: ProcessRef(before.processes.len()),
        },
    )
    &&& parent_and_child(before, after, parent, forked.0)
    &&& after.processes@.last().pid == pid
    &&& after.processes@.last().inner.is_forked_from(
        before.processes@[parent.0 as int].inner,
        forker,
        memory_set,
        forked.0,
    )
    &&& forked.1 == (Service::SetKernelSp { ppn: trap_cx_ppn, kernel_sp: kernel_stack.top })
}

/// The trap context that a new thread starts with.
pub open spec fn thread_context(
    config: Config,
    thread: NewThread,
    trap_cx_ppn: PhysPageNum,
) -> Service {
    Service::InitTrapContext {
        ppn: trap_cx_ppn,
        context: TrapContext {
            entry: thread.entry,
            user_sp: thread.ustack_top,
            kernel_satp: config.kernel_token,
            kernel_sp: thread.kernel_stack.top,
            trap_handler: config.trap_handler,
            a0: Some(thread.arg),
            a1: None,
        },
    }
}

/// The one difference between `after` and `before` is the new thread of `process`: its control
/// block, and its entry among the process's threads.
pub open spec fn thread_created(
    before: Kernel,
    after: Kernel,
    process: ProcessRef,
    thread: NewThread,
    trap_cx_ppn: PhysPageNum,
) -> bool {
    let p = process.0 as int;
    &&& after.config == before.config
    &&& after.current == before.current
    &&& after.timers == before.timers
    &&& after.tasks@ == before.tasks@.push(
        TaskControlBlock {
            tid: TidHandle(thread.tid),
            kernel_stack: thread.kernel_stack,
            inner: TaskControlBlockInner::fresh(
                trap_cx_ppn,
                thread.trap_cx_va,
                thread.kernel_stack,
            ),
            process,
        },
    )
    &&& after.processes@ == before.processes@.update(p, after.processes@[p])
    &&& after.processes@[p] == (ProcessControlBlock {
        inner: ProcessControlBlockInner {
            tasks: after.processes@[p].inner.tasks,
            ..before.processes@[p].inner
        },
        ..before.processes@[p]
    })
    &&& after.processes@[p].inner.tasks@ == slots::filed(
        before.processes@[p].inner.tasks@,
        thread.tid as int,
        TaskRef(before.tasks.len()),
    )
}

/// The process table has one more entry, and `parent` has `child` as its latest child; nothing
/// else in the table differs.
pub open spec fn parent_and_child(
    before: Kernel,
    after: Kernel,
    parent: ProcessRef,
    child: TaskRef,
) -> bool {
    let p = parent.0 as int;
    &&& after.processes@ == before.processes@.update(p, after.processes@[p]).push(
        after.processes@.last(),
    )
    &&& after.processes@[p] == (ProcessControlBlock {
        inner: ProcessControlBlockInner {
            children: after.processes@[p].inner.children,
            ..before.processes@[p].inner
        },
        ..before.processes@[p]
    })
    &&& after.processes@[p].inner.children@ == before.processes@[p].inner.children@.push(child)
}

/// What moving the end of the heap by `size` comes to.
pub open spec fn brk_changed(
    before: ProcessControlBlockInner,
    after: ProcessControlBlockInner,
    size: i32,
    resized: bool,
    old_break: Option<usize>,
) -> bool {
    if resized && brk_request(before.heap_bottom, before.program_brk, size)
        != BrkRequest::Refused {
        &&& old_break == Some(before.program_brk)
        &&& after == (ProcessControlBlockInner {
            program_brk: moved_brk(before.program_brk, size) as isize as usize,
            ..before
        })
    } else {
        &&& old_break is None
        &&& after == before
    }
}

/// The heap never ends below its start: where its end moves at all, it moves to an address that is
/// not below the start.
pub proof fn law_heap_end_stays_above_start(
    before: ProcessControlBlockInner,
    after: ProcessControlBlockInner,
    size: i32,
    resized: bool,
    old_break: Option<usize>,
)
    requires
        isize::MIN <= moved_brk(before.program_brk, size) <= isize::MAX,
        brk_changed(before, after, size, resized, old_break),
        before.program_brk as isize >= before.heap_bottom as isize,
    ensures
        after.program_brk as isize >= after.heap_bottom as isize,
        after.heap_bottom == before.heap_bottom,
{
    lemma_signed_round_trip(moved_brk(before.program_brk, size) as isize);
}

/// Moving the end of the heap and moving it back by as much leaves everything as it was, and each
/// move returns the end before it.
pub proof fn law_heap_moves_back(
    before: ProcessControlBlockInner,
    between: ProcessControlBlockInner,
    after: ProcessControlBlockInner,
    size: i32,
    there: Option<usize>,
    back: Option<usize>,
)
    requires
        size > i32::MIN,
        isize::MIN <= moved_brk(before.program_brk, size) <= isize::MAX,
        before.program_brk as isize >= before.heap_bottom as isize,
        brk_changed(before, between, size, true, there),
        there is Some,
        brk_changed(between, after, (-size) as i32, true, back),
    ensures
        after == before,
        there == Some(before.program_brk),
        back == Some(between.program_brk),
{
    lemma_signed_round_trip(moved_brk(before.program_brk, size) as isize);
    lemma_unsigned_round_trip(before.program_brk);
}

/// An address read as a signed number and back is the same number.
proof fn lemma_signed_round_trip(value: isize)
    ensures
        (value as usize) as isize == value,
{
    assert((value as usize) as isize == value) by (bit_vector);
}

/// A signed number read as an address and back is the same address.
proof fn lemma_unsigned_round_trip(value: usize)
    ensures
        (value as isize) as usize == value,
{
    assert((value as isize) as usize == value) by (bit_vector);
}

/// The page of a trap context lies below the pages of those with lower identifiers.
pub proof fn lemma_trap_pages_apart(first_tid: usize, later_tid: usize, page_size: usize)
    requires
        first_tid < later_tid,
    ensures
        first_tid * page_size + page_size <= later_tid * page_size,
{
    assert((first_tid + 1) * page_size <= later_tid * page_size) by (nonlinear_arith)
        requires
            first_tid + 1 <= later_tid,
    ;
    assert((first_tid + 1) * page_size == first_tid * page_size + page_size) by (nonlinear_arith);
}

/// The end of the heap is planned to move by `size`, seen as a signed number: not at all where it
/// would come to lie below the start, otherwise down or up to that address.
pub proof fn law_heap_end_is_planned(heap_bottom: usize, program_brk: usize, size: i32)
    requires
        isize::MIN <= (program_brk as isize) + size <= isize::MAX,
    ensures
        ({
            let target = (program_brk as isize) + size;
            match brk_request(heap_bottom, program_brk, size) {
                BrkRequest::Refused => target < heap_bottom as isize,
                BrkRequest::Shrink(end) => {
                    &&& target >= heap_bottom as isize
                    &&& size < 0
                    &&& end as isize == target
                },
                BrkRequest::Append(end) => {
                    &&& target >= heap_bottom as isize
                    &&& size >= 0
                    &&& end as isize == target
                },
            }
        }),
{
    lemma_signed_round_trip(((program_brk as isize) + size) as isize);
}

/// Where the heap can be resized, its end moves by `size` and the old end is returned; where it
/// cannot, or the end would lie below the start, nothing changes. Nothing else of the process
/// changes.
pub proof fn law_heap_end_moves(
    before: ProcessControlBlockInner,
    after: ProcessControlBlockInner,
    size: i32,
    resized: bool,
    old_break: Option<usize>,
)
    requires
        isize::MIN <= (before.program_brk as isize) + size <= isize::MAX,
        brk_changed(before, after, size, resized, old_break),
    ensures
        ({
            let target = (before.program_brk as isize) + size;
            if resized && target >= before.heap_bottom as isize {
                &&& old_break == Some(before.program_brk)
                &&& after.program_brk as isize == target
                &&& after == (ProcessControlBlockInner {
                    program_brk: after.program_brk,
                    ..before
                })
            } else {
                old_break is None && after == before
            }
        }),
{
    law_heap_end_is_planned(before.heap_bottom, before.program_brk, size);
    lemma_signed_round_trip(((before.program_brk as isize) + size) as isize);
}

/// What every new thread starts with, whatever else it has: it is ready, goes on on its own kernel
/// stack, has submitted nothing, and has the usual priority.
pub open spec fn ready_to_start(
    task: TaskControlBlock,
    tid: usize,
    process: ProcessRef,
    kernel_stack: KernelStack,
    trap_cx_ppn: PhysPageNum,
    trap_cx_va: usize,
) -> bool {
    &&& task.tid.0 == tid
    &&& task.process == process
    &&& task.kernel_stack == kernel_stack
    &&& task.inner.trap_cx_ppn == trap_cx_ppn
    &&& task.inner.trap_cx_va == trap_cx_va
    &&& task.inner.task_cx.kernel_stack_top == kernel_stack.top
    &&& task.inner.task_status == TaskStatus::Ready
    &&& task.inner.exit_code == 0
    &&& task.inner.priority == 16
    &&& task.inner.stride == 0
}

/// What every new process starts with: no pending or handled signal, no locks, no children, and no
/// deadlock detection; its next thread is the first after the main one.
pub open spec fn new_and_empty(inner: ProcessControlBlockInner) -> bool {
    &&& inner.children.len() == 0
    &&& inner.signals.bits == 0
    &&& inner.handling_sig == -1
    &&& !inner.killed
    &&& !inner.frozen
    &&& inner.trap_ctx_backup is None
    &&& inner.semaphore_list.len() == 0
    &&& inner.mutex_list.len() == 0
    &&& inner.condvar_list.len() == 0
    &&& inner.next_tid == 1
    &&& !inner.deadlock_detect_enabled
    &&& inner.sem_alloc.len() == 0
    &&& inner.sem_wait_for.len() == 0
}

/// The first process has the loaded program's address space, with the heap and the threads' stacks
/// starting where the first stack ends, the console as its three files, the given signal actions
/// and nothing else. Its main thread starts the program where it begins, on that stack, with its
/// trap context in the main thread's place. All other processes and tasks are as they were.
pub proof fn law_first_process_runs_its_program(
    before: Kernel,
    after: Kernel,
    image: Image,
    pid: PidHandle,
    kernel_stack: KernelStack,
    signal_actions: SignalActions,
    created: (TaskControlBlock, Service),
)
    requires
        process_created(before, after, image, pid, kernel_stack, signal_actions, created),
    ensures
        after.config == before.config,
        after.tasks == before.tasks,
        after.current == before.current,
        after.timers == before.timers,
        after.processes.len() == before.processes.len() + 1,
        forall|q: int|
            0 <= q < before.processes.len() ==> #[trigger] after.processes@[q]
                == before.processes@[q],
        ready_to_start(
            created.0,
            0,
            ProcessRef(before.processes.len()),
            kernel_stack,
            image.trap_cx_ppn,
            before.config.trap_context_base,
        ),
        created.0.pid_among(after.processes@) == pid.0,
        ({
            let process = after.processes@[before.processes.len() as int];
            let inner = process.inner;
            &&& process.pid == pid
            &&& new_and_empty(inner)
            &&& inner.memory_set == image.memory_set
            &&& inner.base_size == image.user_sp
            &&& inner.heap_bottom == image.user_sp
            &&& inner.program_brk == image.user_sp
            &&& inner.next_ustack == image.user_sp
            &&& inner.parent is None
            &&& inner.fd_table.len() == 3
            &&& inner.fd_table@[0] == Some(FileRef::Stdin)
            &&& inner.fd_table@[1] == Some(FileRef::Stdout)
            &&& inner.fd_table@[2] == Some(FileRef::Stdout)
            &&& inner.signal_mask.bits == 0
            &&& inner.signal_actions == signal_actions
            &&& inner.tasks.len() == 0
        }),
        ({
            &&& created.1 matches Service::InitTrapContext { ppn, context }
            &&& ppn == image.trap_cx_ppn
            &&& context.entry == image.entry_point
            &&& context.user_sp == image.user_sp
            &&& context.kernel_satp == before.config.kernel_token
            &&& context.kernel_sp == kernel_stack.top
            &&& context.trap_handler == before.config.trap_handler
            &&& context.a0 is None && context.a1 is None
        }),
{
}

/// A forked child has every descriptor of its parent: its table has as many entries, and each
/// stands for the same file, or is empty where the parent's is.
pub proof fn law_child_has_every_descriptor(
    child: ProcessControlBlockInner,
    parent: ProcessControlBlockInner,
    forker: TaskRef,
    memory_set: MemorySet,
    main: TaskRef,
)
    requires
        child.is_forked_from(parent, forker, memory_set, main),
    ensures
        child.fd_table.len() == parent.fd_table.len(),
        forall|fd: int|
            0 <= fd < parent.fd_table.len() ==> #[trigger] child.fd_table@[fd]
                == parent.fd_table@[fd],
{
}

/// A forked child is a copy of its parent in what a child inherits: the copied address space with
/// the same layout, every descriptor, the signal mask and the action on every signal. It has its
/// own main thread, which it lists and which starts in the main thread's place of the copy, no
/// pending signals and no locks. Its parent is the task that forked it and has the new thread as
/// its last child. Nothing else differs, in the parent or anywhere.
pub proof fn law_fork_copies_the_process(
    before: Kernel,
    after: Kernel,
    forker: TaskRef,
    memory_set: MemorySet,
    trap_cx_ppn: PhysPageNum,
    pid: PidHandle,
    kernel_stack: KernelStack,
    forked: (TaskRef, Service),
)
    requires
        before.wf(),
        forker.0 < before.tasks.len(),
        process_forked(
            before,
            after,
            forker,
            memory_set,
            trap_cx_ppn,
            pid,
            kernel_stack,
            forked,
        ),
    ensures
        after.config == before.config,
        after.current == before.current,
        after.timers == before.timers,
        forked.0.0 == before.tasks.len(),
        after.tasks.len() == before.tasks.len() + 1,
        forall|t: int|
            0 <= t < before.tasks.len() ==> #[trigger] after.tasks@[t] == before.tasks@[t],
        ready_to_start(
            after.tasks@[before.tasks.len() as int],
            0,
            ProcessRef(before.processes.len()),
            kernel_stack,
            trap_cx_ppn,
            before.config.trap_context_base,
        ),
        after.processes.len() == before.processes.len() + 1,
        ({
            let p = before.tasks@[forker.0 as int].process.0 as int;
            let old_parent = before.processes@[p];
            let parent = after.processes@[p];
            &&& forall|q: int|
                0 <= q < before.processes.len() && q != p ==> #[trigger] after.processes@[q]
                    == before.processes@[q]
            &&& parent.pid == old_parent.pid
            &&& parent.inner == (ProcessControlBlockInner {
                children: parent.inner.children,
                ..old_parent.inner
            })
            &&& parent.inner.children.len() == old_parent.inner.children.len() + 1
            &&& parent.inner.children@.last() == forked.0
            &&& forall|c: int|
                0 <= c < old_parent.inner.children.len() ==> #[trigger] parent.inner.children@[c]
                    == old_parent.inner.children@[c]
        }),
        ({
            let parent = before.processes@[before.tasks@[forker.0 as int].process.0 as int].inner;
            let process = after.processes@[before.processes.len() as int];
            let child = process.inner;
            &&& process.pid == pid
            &&& new_and_empty(child)
            &&& child.memory_set == memory_set
            &&& child.base_size == parent.base_size
            &&& child.heap_bottom == parent.heap_bottom
            &&& child.program_brk == parent.program_brk
            &&& child.next_ustack == parent.next_ustack
            &&& child.parent == Some(forker)
            &&& child.fd_table.len() == parent.fd_table.len()
            &&& forall|fd: int|
                0 <= fd < parent.fd_table.len() ==> #[trigger] child.fd_table@[fd]
                    == parent.fd_table@[fd]
            &&& child.signal_mask.bits == parent.signal_mask.bits
            &&& child.signal_actions.table.len() == parent.signal_actions.table.len()
            &&& forall|sig: int|
                0 <= sig < parent.signal_actions.table.len()
                    ==> #[trigger] child.signal_actions.table@[sig]
                    == parent.signal_actions.table@[sig]
            &&& child.tasks.len() == 1
            &&& child.tasks@[0] == Some(forked.0)
        }),
        after.tasks@[before.tasks.len() as int].pid_among(after.processes@) == pid.0,
        ({
            &&& forked.1 matches Service::SetKernelSp { ppn, kernel_sp }
            &&& ppn == trap_cx_ppn && kernel_sp == kernel_stack.top
        }),
{
}

/// A program that is loaded runs from its entry with its arguments: the trap context starts there,
/// below what was put onto the new stack, with the number of arguments and the address of `argv`
/// in the argument registers, on the task's own kernel stack. The process has the program's
/// address space, with the heap and the threads' stacks starting where the first stack ends, and
/// its threads and units are counted afresh; files, signals, locks and relatives stay. The task
/// keeps everything but its trap context, which is in the main thread's place. No other task or
/// process differs.
pub proof fn law_exec_runs_the_program(
    before: Kernel,
    after: Kernel,
    task: TaskRef,
    image: Image,
    args: Seq<String>,
    request: ExecRequest,
)
    requires
        before.wf(),
        task.0 < before.tasks.len(),
        args_size(args) <= image.user_sp,
        program_loaded(before, after, task, image, args, request),
    ensures
        after.config == before.config,
        after.current == before.current,
        after.timers == before.timers,
        after.tasks.len() == before.tasks.len(),
        forall|t: int|
            0 <= t < before.tasks.len() && t != task.0 ==> #[trigger] after.tasks@[t]
                == before.tasks@[t],
        ({
            let old_task = before.tasks@[task.0 as int];
            let new_task = after.tasks@[task.0 as int];
            &&& new_task == (TaskControlBlock { inner: new_task.inner, ..old_task })
            &&& new_task.inner == (TaskControlBlockInner {
                trap_cx_ppn: new_task.inner.trap_cx_ppn,
                trap_cx_va: new_task.inner.trap_cx_va,
                ..old_task.inner
            })
            &&& new_task.inner.trap_cx_ppn == image.trap_cx_ppn
            &&& new_task.inner.trap_cx_va == before.config.trap_context_base
        }),
        after.processes.len() == before.processes.len(),
        ({
            let p = before.tasks@[task.0 as int].process.0 as int;
            let old_inner = before.processes@[p].inner;
            let inner = after.processes@[p].inner;
            &&& forall|q: int|
                0 <= q < before.processes.len() && q != p ==> #[trigger] after.processes@[q]
                    == before.processes@[q]
            &&& after.processes@[p].pid == before.processes@[p].pid
            &&& inner.memory_set == image.memory_set
            &&& inner.heap_bottom == image.user_sp
            &&& inner.program_brk == image.user_sp
            &&& inner.next_ustack == image.user_sp
            &&& inner.next_tid == 1
            &&& !inner.deadlock_detect_enabled
            &&& inner.sem_alloc.len() == 0
            &&& inner.sem_wait_for.len() == 0
            &&& inner == (ProcessControlBlockInner {
                memory_set: inner.memory_set,
                heap_bottom: inner.heap_bottom,
                program_brk: inner.program_brk,
                next_ustack: inner.next_ustack,
                next_tid: inner.next_tid,
                deadlock_detect_enabled: inner.deadlock_detect_enabled,
                sem_alloc: inner.sem_alloc,
                sem_wait_for: inner.sem_wait_for,
                ..old_inner
            })
        }),
        request.token == image.memory_set.token,
        request.stack.argv_base + 8 * (args.len() + 1) == image.user_sp,
        request.stack.argv.len() == args.len() + 1,
        request.stack.strings.len() == args.len(),
        request.stack.user_sp <= request.stack.argv_base,
        ({
            &&& request.trap_cx matches Service::InitTrapContext { ppn, context }
            &&& ppn == image.trap_cx_ppn
            &&& context.entry == image.entry_point
            &&& context.user_sp == request.stack.user_sp
            &&& context.kernel_satp == before.config.kernel_token
            &&& context.kernel_sp == before.tasks@[task.0 as int].kernel_stack.top
            &&& context.trap_handler == before.config.trap_handler
            &&& context.a0 matches Some(argc) && argc == args.len()
            &&& context.a1 == Some(request.stack.argv_base)
        }),
{
    law_arguments_are_found(request.stack, image.user_sp as int, args);
    law_stack_pointer_is_aligned(request.stack, image.user_sp as int, args);
}

/// A thread that is created has everything it was reserved with: its control block is the last,
/// ready to start, and listed under its identifier; its trap context starts its entry at the top
/// of its own user stack with its argument in the first argument register. Nothing else differs.
pub proof fn law_thread_has_what_was_reserved(
    before: Kernel,
    after: Kernel,
    process: ProcessRef,
    thread: NewThread,
    trap_cx_ppn: PhysPageNum,
)
    requires
        process.0 < before.processes.len(),
        thread_created(before, after, process, thread, trap_cx_ppn),
    ensures
        after.config == before.config,
        after.current == before.current,
        after.timers == before.timers,
        after.tasks.len() == before.tasks.len() + 1,
        forall|t: int|
            0 <= t < before.tasks.len() ==> #[trigger] after.tasks@[t] == before.tasks@[t],
        ready_to_start(
            after.tasks@[before.tasks.len() as int],
            thread.tid,
            process,
            thread.kernel_stack,
            trap_cx_ppn,
            thread.trap_cx_va,
        ),
        after.processes.len() == before.processes.len(),
        forall|q: int|
            0 <= q < before.processes.len() && q != process.0 ==> #[trigger] after.processes@[q]
                == before.processes@[q],
        ({
            let old_process = before.processes@[process.0 as int];
            let new_process = after.processes@[process.0 as int];
            let old_list = old_process.inner.tasks@;
            let new_list = new_process.inner.tasks@;
            &&& new_process.pid == old_process.pid
            &&& new_process.inner == (ProcessControlBlockInner {
                tasks: new_process.inner.tasks,
                ..old_process.inner
            })
            &&& thread.tid < new_list.len()
            &&& new_list[thread.tid as int] == Some(TaskRef(before.tasks.len()))
            &&& old_list.len() <= new_list.len()
            &&& new_list.len() > old_list.len() ==> new_list.len() == thread.tid + 1
            &&& forall|i: int|
                0 <= i < old_list.len() && i != thread.tid ==> #[trigger] new_list[i]
                    == old_list[i]
            &&& forall|i: int|
                old_list.len() <= i < thread.tid ==> #[trigger] new_list[i] is None
        }),
        ({
            &&& thread_context(before.config, thread, trap_cx_ppn) matches
                Service::InitTrapContext { ppn, context }
            &&& ppn == trap_cx_ppn
            &&& context.entry == thread.entry
            &&& context.user_sp == thread.ustack_top
            &&& context.kernel_satp == before.config.kernel_token
            &&& context.kernel_sp == thread.kernel_stack.top
            &&& context.trap_handler == before.config.trap_handler
            &&& context.a0 == Some(thread.arg)
            &&& context.a1 is None
        }),
{
    let list = before.processes@[process.0 as int].inner.tasks@;
    slots::law_filing_keeps_the_rest(list, thread.tid as int, TaskRef(before.tasks.len()));
}

/// A thread is reserved with what it is to run and the next places of its process: its identifier
/// is the next one, the page of its trap context lies that many pages below the main thread's, and
/// its user stack starts where the next one is to start and is as large as user stacks are.
pub proof fn law_thread_gets_the_next_places(
    process: ProcessControlBlockInner,
    config: Config,
    kernel_stack: KernelStack,
    entry: usize,
    arg: usize,
)
    requires
        thread_fits(process, config),
    ensures
        ({
            let thread = next_thread(process, config, kernel_stack, entry, arg);
            &&& thread.kernel_stack == kernel_stack
            &&& thread.entry == entry
            &&& thread.arg == arg
            &&& thread.tid == process.next_tid
            &&& thread.trap_cx_va + process.next_tid * config.page_size
                == config.trap_context_base
            &&& thread.ustack_bottom == process.next_ustack
            &&& thread.ustack_top == process.next_ustack + config.user_stack_size
        }),
{
}

/// There is room for a thread exactly where its identifier is not the last word, the page of its
/// trap context does not lie below zero nor end above the last address, and its user stack does
/// not end above the last address.
pub proof fn law_when_a_thread_fits(process: ProcessControlBlockInner, config: Config)
    ensures
        thread_fits(process, config) <==> {
            &&& process.next_tid < usize::MAX
            &&& process.next_tid * config.page_size <= config.trap_context_base
            &&& config.trap_context_base + config.page_size <= usize::MAX + process.next_tid
                * config.page_size
            &&& process.next_ustack + config.user_stack_size <= usize::MAX
        },
{
}

/// The descriptor that is found is in the table and free, every lower one is in use, every one
/// that there was stands for what it stood for, at most this one is added, and nothing else of the
/// process changes.
pub proof fn law_descriptor_is_the_lowest_free(
    before: ProcessControlBlockInner,
    after: ProcessControlBlockInner,
    fd: usize,
)
    requires
        descriptor_found(before, after, fd),
    ensures
        after == (ProcessControlBlockInner { fd_table: after.fd_table, ..before }),
        fd < after.fd_table.len(),
        after.fd_table@[fd as int] is None,
        forall|i: int| 0 <= i < fd ==> #[trigger] before.fd_table@[i] is Some,
        forall|i: int|
            0 <= i < before.fd_table.len() ==> #[trigger] after.fd_table@[i]
                == before.fd_table@[i],
        after.fd_table.len() == before.fd_table.len() || (after.fd_table.len()
            == before.fd_table.len() + 1 && fd == before.fd_table.len()),
{
    slots::law_free_slot_is_the_lowest(before.fd_table@, after.fd_table@, fd as int);
}

} // verus!
