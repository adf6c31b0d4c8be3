//! Monk mode: whether the focus lock that keeps the window fullscreen and
//! prevents closing is engaged. The window calls are the surrounding
//! application's work; the state and its transitions live here.

use vstd::prelude::*;

verus! {

/// The focus-lock state, off until engaged.
pub struct MonkModeState {
    enabled: bool,
}

impl MonkModeState {
    pub closed spec fn spec_enabled(&self) -> bool {
        self.enabled
    }

    /// A fresh state: not engaged.
    pub fn new() -> (r: MonkModeState)
        ensures
            !r.spec_enabled(),
    {
        MonkModeState { enabled: false }
    }

    /// Whether the focus lock is engaged.
    pub fn is_enabled(&self) -> (r: bool)
        ensures
            r == self.spec_enabled(),
    {
        self.enabled
    }

    /// Engages or releases the focus lock.
    pub fn set_enabled(&mut self, enabled: bool)
        ensures
            final(self).spec_enabled() == enabled,
    {
        self.enabled = enabled;
    }
}

} // verus!
