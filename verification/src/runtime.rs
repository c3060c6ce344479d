//! The process-wide lifecycle flag.
//!
//! The server is either active or stopped. Any component may signal stop
//! on a fatal error; the transition is one-way, and every long-running job
//! consults the flag on entry.

use vstd::prelude::*;

verus! {

/// The lifecycle of the running server.
#[derive(Clone, Copy, PartialEq, Eq, Structural, Debug)]
pub enum RuntimeState {
    Active,
    Stopped,
}

/// The process-wide active/stopped flag. Once stopped, nothing in the
/// crate sets it active again.
pub struct Runtime {
    state: RuntimeState,
}

impl Runtime {
    pub closed spec fn spec_state(self) -> RuntimeState {
        self.state
    }

    pub open spec fn spec_is_stopped(self) -> bool {
        self.spec_state() is Stopped
    }

    /// A freshly started, active runtime.
    pub fn new() -> (r: Runtime)
        ensures
            !r.spec_is_stopped(),
    {
        Runtime { state: RuntimeState::Active }
    }

    pub fn is_active(&self) -> (r: bool)
        ensures
            r == !self.spec_is_stopped(),
    {
        match self.state {
            RuntimeState::Active => true,
            RuntimeState::Stopped => false,
        }
    }

    pub fn is_stopped(&self) -> (r: bool)
        ensures
            r == self.spec_is_stopped(),
    {
        match self.state {
            RuntimeState::Active => false,
            RuntimeState::Stopped => true,
        }
    }

    /// Signals a fatal condition: the runtime is stopped for good.
    pub fn stop(&mut self)
        ensures
            final(self).spec_is_stopped(),
    {
        self.state = RuntimeState::Stopped;
    }
}

} // verus!
