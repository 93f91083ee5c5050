//! Parameters that the board and the memory layout fix at boot.

use vstd::prelude::*;

verus! {

/// What the kernel knows of the machine it runs on.
#[derive(Debug, Clone, Copy, PartialEq, Eq)]
pub struct Config {
    /// Ticks of the `time` register per second.
    pub clock_freq: usize,
    /// Size of a page in bytes.
    pub page_size: usize,
    /// Virtual address of the main thread's trap context; further threads have theirs below.
    pub trap_context_base: usize,
    /// Size of a thread's user stack in bytes.
    pub user_stack_size: usize,
    /// Token of the kernel's own address space.
    pub kernel_token: usize,
    /// Address of the kernel's trap handler.
    pub trap_handler: usize,
}

impl Config {
    /// The clock ticks and pages are not empty.
    pub open spec fn wf(&self) -> bool {
        &&& self.clock_freq > 0
        &&& self.page_size > 0
    }

    /// Whether the clock ticks and pages are not empty.
    pub fn in_order(&self) -> (ok: bool)
        ensures
            ok == self.wf(),
    {
        self.clock_freq > 0 && self.page_size > 0
    }
}

} // verus!
