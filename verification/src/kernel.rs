//! The state of the core.

use crate::config::Config;
use crate::objects::{ProcessRef, TaskRef};
use crate::task::{ProcessControlBlock, TaskControlBlock};
use crate::timer::{due, due_before, expired_times, still_waiting, waiting_at, TimerQueue};
use vstd::prelude::*;

verus! {

/// All that the core keeps.
pub struct Kernel {
    pub config: Config,
    /// The processes, by their references.
    pub processes: Vec<ProcessControlBlock>,
    /// The tasks, by their references.
    pub tasks: Vec<TaskControlBlock>,
    /// The task that runs.
    pub current: Option<TaskRef>,
    /// The tasks that sleep.
    pub timers: TimerQueue,
}

/// Every task in the queue exists, of the `task_count` there are.
pub open spec fn timers_wf(queue: Map<usize, Seq<TaskRef>>, task_count: nat) -> bool {
    forall|time: usize, i: int|
        queue.contains_key(time) && 0 <= i < queue[time].len() ==> (#[trigger] queue[time][i]).0
            < task_count
}

/// Whether every task in the queue exists, of the `task_count` there are.
pub fn timers_in_order(queue: &TimerQueue, task_count: usize) -> (ok: bool)
    ensures
        ok == timers_wf(queue@, task_count as nat),
{
    let times: Vec<usize> = expired_times(queue, usize::MAX);
    let mut i: usize = 0;
    while i < times.len()
        invariant
            i <= times.len(),
            forall|time: usize| #[trigger] times@.contains(time) <==> queue@.contains_key(time),
            forall|k: int, n: int|
                0 <= k < i && 0 <= n < queue@[times@[k]].len() ==> (
                #[trigger] queue@[times@[k]][n]).0 < task_count,
        decreases times.len() - i,
    {
        let time: usize = times[i];
        assert(times@.contains(time));
        if let Some(tasks) = queue.entries.get(&time) {
            assert(tasks@ == queue@[time]);
            let mut n: usize = 0;
            while n < tasks.len()
                invariant
                    n <= tasks.len(),
                    queue@.contains_key(time),
                    tasks@ == queue@[time],
                    forall|k: int| 0 <= k < n ==> (#[trigger] tasks@[k]).0 < task_count,
                decreases tasks.len() - n,
            {
                if tasks[n].0 >= task_count {
                    assert(queue@[time][n as int].0 >= task_count);
                    return false;
                }
                n += 1;
            }
        }
        i += 1;
    }
    proof {
        assert forall|time: usize, n: int|
            queue@.contains_key(time) && 0 <= n < queue@[time].len() implies (
        #[trigger] queue@[time][n]).0 < task_count by {
            assert(times@.contains(time));
            let k = times@.index_of(time);
            assert(queue@[times@[k]][n].0 < task_count);
        }
    }
    true
}

impl Kernel {
    /// Every reference leads to a control block, and a thread that a process lists is a thread of
    /// that process and has the identifier under which it is listed.
    pub open spec fn wf(&self) -> bool {
        &&& self.config.wf()
        &&& forall|t: int|
            0 <= t < self.tasks.len() ==> (#[trigger] self.tasks@[t]).process.0
                < self.processes.len()
        &&& forall|p: int|
            0 <= p < self.processes.len() ==> (#[trigger] self.processes@[p]).inner.wf(
                self.tasks@.len(),
            )
        &&& forall|p: int, i: int|
            0 <= p < self.processes.len() && 0 <= i < self.processes@[p].inner.tasks.len()
                ==> self.lists_rightly(p, #[trigger] self.processes@[p].inner.tasks@[i], i)
        &&& self.current is Some ==> (self.current->0).0 < self.tasks.len()
        &&& timers_wf(self.timers@, self.tasks@.len())
    }

    /// Slot `i` of the threads of process `p` may hold `slot`: nothing, or the process's thread
    /// with the identifier `i`.
    pub open spec fn lists_rightly(&self, p: int, slot: Option<TaskRef>, i: int) -> bool {
        slot matches Some(task) ==> {
            &&& self.tasks@[task.0 as int].tid.0 == i
            &&& self.tasks@[task.0 as int].process.0 == p
        }
    }

    /// Whether process `p` is in order: every task that it refers to exists, and it lists its
    /// threads under their identifiers.
    fn process_in_order(&self, p: usize) -> (ok: bool)
        requires
            p < self.processes.len(),
        ensures
            ok == {
                &&& self.processes@[p as int].inner.wf(self.tasks@.len())
                &&& forall|i: int|
                    0 <= i < self.processes@[p as int].inner.tasks.len() ==> self.lists_rightly(
                        p as int,
                        #[trigger] self.processes@[p as int].inner.tasks@[i],
                        i,
                    )
            },
    {
        let inner = &self.processes[p].inner;
        if !inner.in_order(self.tasks.len()) {
            return false;
        }
        let mut i: usize = 0;
        while i < inner.tasks.len()
            invariant
                p < self.processes.len(),
                inner == self.processes@[p as int].inner,
                inner.wf(self.tasks@.len()),
                i <= inner.tasks.len(),
                forall|k: int|
                    0 <= k < i ==> self.lists_rightly(p as int, #[trigger] inner.tasks@[k], k),
            decreases inner.tasks.len() - i,
        {
            if let Some(task) = inner.tasks[i] {
                if self.tasks[task.0].tid.0 != i || self.tasks[task.0].process.0 != p {
                    assert(!self.lists_rightly(p as int, inner.tasks@[i as int], i as int));
                    return false;
                }
            }
            i += 1;
        }
        true
    }

    /// Whether the state is in order.
    pub fn in_order(&self) -> (ok: bool)
        ensures
            ok == self.wf(),
    {
        if !self.config.in_order() {
            return false;
        }
        if let Some(task) = self.current {
            if task.0 >= self.tasks.len() {
                return false;
            }
        }
        let mut t: usize = 0;
        while t < self.tasks.len()
            invariant
                t <= self.tasks.len(),
                forall|k: int|
                    0 <= k < t ==> (#[trigger] self.tasks@[k]).process.0 < self.processes.len(),
            decreases self.tasks.len() - t,
        {
            if self.tasks[t].process.0 >= self.processes.len() {
                return false;
            }
            t += 1;
        }
        let mut p: usize = 0;
        while p < self.processes.len()
            invariant
                p <= self.processes.len(),
                forall|k: int|
                    0 <= k < p ==> (#[trigger] self.processes@[k]).inner.wf(self.tasks@.len()),
                forall|k: int, i: int|
                    0 <= k < p && 0 <= i < self.processes@[k].inner.tasks.len()
                        ==> self.lists_rightly(k, #[trigger] self.processes@[k].inner.tasks@[i], i),
            decreases self.processes.len() - p,
        {
            if !self.process_in_order(p) {
                return false;
            }
            p += 1;
        }
        timers_in_order(&self.timers, self.tasks.len())
    }

    /// The state is in order and a task runs.
    pub open spec fn running(&self) -> bool {
        &&& self.wf()
        &&& self.current is Some
    }

    /// The task that runs.
    pub open spec fn task(&self) -> TaskControlBlock {
        self.tasks@[(self.current->0).0 as int]
    }

    /// The process of the task that runs.
    pub open spec fn process(&self) -> ProcessControlBlock {
        self.processes@[self.task().process.0 as int]
    }

    /// The task that runs.
    pub fn current_task(&self) -> (task: TaskControlBlock)
        requires
            self.running(),
        ensures
            task == self.task(),
    {
        self.tasks[self.current.unwrap().0]
    }

    /// Nothing differs from `old_kernel` but the inner part of process `p`.
    pub open spec fn same_but_process(&self, old_kernel: Kernel, p: ProcessRef) -> bool {
        &&& self.config == old_kernel.config
        &&& self.tasks == old_kernel.tasks
        &&& self.current == old_kernel.current
        &&& self.timers == old_kernel.timers
        &&& self.processes@ == old_kernel.processes@.update(
            p.0 as int,
            self.processes@[p.0 as int],
        )
        &&& self.processes@[p.0 as int].pid == old_kernel.processes@[p.0 as int].pid
    }

    /// Every thread that there was in the state `earlier` is still there, with the same identifier
    /// and in the same process.
    pub open spec fn same_threads(&self, earlier: Kernel) -> bool {
        &&& earlier.tasks.len() <= self.tasks.len()
        &&& forall|t: int|
            0 <= t < earlier.tasks.len() ==> (#[trigger] self.tasks@[t]).tid
                == earlier.tasks@[t].tid && self.tasks@[t].process == earlier.tasks@[t].process
    }

    /// The task `t` has the exit code that it had in the state `earlier`.
    pub open spec fn same_exit_code(&self, earlier: Kernel, t: int) -> bool {
        self.tasks@[t].inner.exit_code == earlier.tasks@[t].inner.exit_code
    }

    /// What processes had set aside for threads in the state `earlier` is still set aside: they
    /// go on with identifiers and user stacks that are not below those they would have gone on
    /// with.
    pub open spec fn keeps_reservations(&self, earlier: Kernel) -> bool {
        &&& self.config == earlier.config
        &&& earlier.processes.len() <= self.processes.len()
        &&& forall|p: int|
            0 <= p < earlier.processes.len() ==> (#[trigger] self.processes@[p]).inner.next_tid
                >= earlier.processes@[p].inner.next_tid && self.processes@[p].inner.next_ustack
                >= earlier.processes@[p].inner.next_ustack
    }

    /// The threads that there were in the state `earlier` are the same, none of them has submitted
    /// another exit code, and what was set aside for threads is still set aside.
    pub open spec fn keeps_threads(&self, earlier: Kernel) -> bool {
        &&& self.same_threads(earlier)
        &&& forall|t: int|
            0 <= t < earlier.tasks.len() ==> #[trigger] self.same_exit_code(earlier, t)
        &&& self.keeps_reservations(earlier)
    }
}

/// From each state of `history` to the next, threads stay the same.
pub open spec fn threads_stay(history: Seq<Kernel>) -> bool {
    forall|i: int, j: int|
        0 <= i && j == i + 1 && j < history.len() ==> #[trigger] history[j].same_threads(history[i])
}

/// From each state of `history` to the next, the task `t` keeps its exit code.
pub open spec fn exit_code_stays(history: Seq<Kernel>, t: int) -> bool {
    forall|i: int, j: int|
        0 <= i && j == i + 1 && j < history.len() ==> #[trigger] history[j].same_exit_code(
            history[i],
            t,
        )
}

/// From each state of `history` to the next, what is set aside for threads stays set aside.
pub open spec fn reservations_stay(history: Seq<Kernel>) -> bool {
    forall|i: int, j: int|
        0 <= i && j == i + 1 && j < history.len() ==> #[trigger] history[j].keeps_reservations(
            history[i],
        )
}

/// A thread keeps its identifier and its process for life. Every call keeps threads the same, so
/// after any number of them each thread has the identifier and the process that it started with.
pub proof fn law_threads_stay_the_same(history: Seq<Kernel>)
    requires
        history.len() > 0,
        threads_stay(history),
    ensures
        history.last().same_threads(history.first()),
    decreases history.len(),
{
    if history.len() > 1 {
        let earlier = history.drop_last();
        assert forall|i: int, j: int| 0 <= i && j == i + 1 && j < earlier.len() implies
            #[trigger] earlier[j].same_threads(earlier[i]) by {
            assert(history[j].same_threads(history[i]));
        }
        law_threads_stay_the_same(earlier);
        assert(history[history.len() - 1].same_threads(history[history.len() - 2]));
        assert forall|t: int| 0 <= t < history.first().tasks.len() implies (
        #[trigger] history.last().tasks@[t]).tid == history.first().tasks@[t].tid
            && history.last().tasks@[t].process == history.first().tasks@[t].process by {
            assert(earlier.last().tasks@[t].tid == history.first().tasks@[t].tid);
        }
    }
}

/// An exit code stays as it was submitted: every call but the thread's own `sys_exit` keeps it, so
/// any number of them does.
pub proof fn law_exit_code_stays_the_same(history: Seq<Kernel>, t: int)
    requires
        history.len() > 0,
        exit_code_stays(history, t),
    ensures
        history.last().same_exit_code(history.first(), t),
    decreases history.len(),
{
    if history.len() > 1 {
        let earlier = history.drop_last();
        assert forall|i: int, j: int| 0 <= i && j == i + 1 && j < earlier.len() implies
            #[trigger] earlier[j].same_exit_code(earlier[i], t) by {
            assert(history[j].same_exit_code(history[i], t));
        }
        law_exit_code_stays_the_same(earlier, t);
        assert(history[history.len() - 1].same_exit_code(history[history.len() - 2], t));
    }
}

/// No identifier and no place of a user stack is given away twice: every call but `exec` keeps
/// what is set aside for threads, so any number of them does.
pub proof fn law_reservations_stay(history: Seq<Kernel>)
    requires
        history.len() > 0,
        reservations_stay(history),
    ensures
        history.last().keeps_reservations(history.first()),
    decreases history.len(),
{
    if history.len() > 1 {
        let earlier = history.drop_last();
        assert forall|i: int, j: int| 0 <= i && j == i + 1 && j < earlier.len() implies
            #[trigger] earlier[j].keeps_reservations(earlier[i]) by {
            assert(history[j].keeps_reservations(history[i]));
        }
        law_reservations_stay(earlier);
        assert(history[history.len() - 1].keeps_reservations(history[history.len() - 2]));
        assert forall|p: int| 0 <= p < history.first().processes.len() implies (
        #[trigger] history.last().processes@[p]).inner.next_tid
            >= history.first().processes@[p].inner.next_tid
            && history.last().processes@[p].inner.next_ustack
            >= history.first().processes@[p].inner.next_ustack by {
            assert(earlier.last().processes@[p].inner.next_tid
                >= history.first().processes@[p].inner.next_tid);
        }
    }
}

proof fn lemma_due_exist(queue: Map<usize, Seq<TaskRef>>, task_count: nat, upto: nat)
    requires
        timers_wf(queue, task_count),
    ensures
        forall|i: int|
            0 <= i < due_before(queue, upto).len() ==> (#[trigger] due_before(queue, upto)[i]).0
                < task_count,
    decreases upto,
{
    if upto > 0 {
        lemma_due_exist(queue, task_count, (upto - 1) as nat);
        let earlier = due_before(queue, (upto - 1) as nat);
        let here = waiting_at(queue, upto - 1);
        assert forall|i: int| 0 <= i < (earlier + here).len() implies (#[trigger] (earlier
            + here)[i]).0 < task_count by {
            if i >= earlier.len() {
                assert(here[i - earlier.len()] == (earlier + here)[i]);
            }
        }
    }
}

/// Every task that a check of the timer queue wakes exists, and so does every task that goes on
/// sleeping.
pub proof fn law_woken_tasks_exist(kernel: Kernel, now: usize)
    requires
        kernel.wf(),
    ensures
        forall|i: int|
            0 <= i < due(kernel.timers@, now).len() ==> (#[trigger] due(kernel.timers@, now)[i]).0
                < kernel.tasks.len(),
        timers_wf(still_waiting(kernel.timers@, now), kernel.tasks@.len()),
{
    lemma_due_exist(kernel.timers@, kernel.tasks@.len(), (now + 1) as nat);
}

/// The task that runs is the one that `current` refers to, and its process is the one that the
/// task refers to.
pub proof fn law_current_task_is_referred_to(kernel: Kernel)
    requires
        kernel.running(),
    ensures
        kernel.current matches Some(TaskRef(t)) && t < kernel.tasks.len() && {
            let task = kernel.tasks@[t as int];
            &&& kernel.task() == task
            &&& task.process.0 < kernel.processes.len()
            &&& kernel.process() == kernel.processes@[task.process.0 as int]
        },
{
}

/// Every process but `p`, every task, the sleepers, the task that runs and the machine's parameters
/// are the same in both states, and `p` has the same identifier.
pub open spec fn rest_is_untouched(before: Kernel, after: Kernel, p: ProcessRef) -> bool {
    &&& after.config == before.config
    &&& after.current == before.current
    &&& after.timers == before.timers
    &&& after.tasks == before.tasks
    &&& after.processes.len() == before.processes.len()
    &&& forall|q: int|
        0 <= q < before.processes.len() && q != p.0 ==> #[trigger] after.processes@[q]
            == before.processes@[q]
    &&& after.processes@[p.0 as int].pid == before.processes@[p.0 as int].pid
}

/// A call that changes one process touches nothing else.
pub proof fn law_others_are_untouched(before: Kernel, after: Kernel, p: ProcessRef)
    requires
        after.same_but_process(before, p),
        p.0 < before.processes.len(),
    ensures
        rest_is_untouched(before, after, p),
{
}

} // verus!
