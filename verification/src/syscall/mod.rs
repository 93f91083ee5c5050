//! System calls.
//!
//! Each call either returns its result at once or stops with a `Step` when it needs another part
//! of the kernel. `resume` takes it up again with that part's reply.

pub mod process;
pub mod resume;
pub mod sync;
pub mod thread;
