//! The verified core of a small teaching kernel: threads and processes, locks with deadlock
//! detection, sleeping, and the system calls on them.
//!
//! The core keeps its state in a `Kernel` and works on plain values. What it needs of the
//! scheduler, the memory manager and the locks themselves, it asks for with a `Service`.

pub mod argv;
pub mod banker;
pub mod config;
pub mod kernel;
pub mod objects;
pub mod service;
pub mod slots;
pub mod syscall;
pub mod task;
pub mod timer;
