# taskcore

The core of a small teaching kernel for RISC-V: threads and processes, mutexes, semaphores with
deadlock detection, condition variables, sleeping, and the system calls on them. It is written in
Rust and verified with Verus.

- `src/` is the library. Its functions state what they do in `requires` and `ensures`.
  - `kernel.rs`, `task.rs`, `objects.rs`: the state of the core, and how processes and threads
    come into being
  - `syscall/`: the system calls
  - `service.rs`: what the core asks of the rest of the kernel
  - `banker.rs`: the safety check behind deadlock detection
  - `timer.rs`: the clock and the queue of sleeping tasks
  - `argv.rs`: the arguments of a program on its first stack
  - `slots.rs`: tables of numbered slots
- `tests/` runs the library.
- `app/` runs system calls on a machine: it hands what the core asks for to the scheduler, the
  memory manager and the locks.

A system call that needs another part of the kernel stops with a `Step` that says what it needs,
and goes on with `resume` when it has the reply. Control blocks are kept in tables that only grow.
