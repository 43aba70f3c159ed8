//! Manual pause of all monitoring: while paused nothing is counted, and nothing
//! of the paused time is counted afterwards.

use vstd::prelude::*;

verus! {

/// The pause switch.
#[derive(Clone, Copy, Debug, PartialEq, Eq, Structural)]
pub struct Pause {
    pub manual: bool,
}

/// What the pause command reports.
#[derive(Clone, Copy, Debug, PartialEq, Eq, Structural)]
pub struct PauseView {
    pub paused: bool,
}

impl Pause {
    /// Not paused.
    pub fn new() -> (r: Self)
        ensures
            !r.manual,
    {
        Pause { manual: false }
    }

    /// Pauses or resumes.
    pub fn set_manual(&mut self, v: bool)
        ensures
            final(self).manual == v,
    {
        self.manual = v;
    }

    /// Whether monitoring is paused.
    pub fn is_paused(&self) -> (r: bool)
        ensures
            r == self.manual,
    {
        self.manual
    }

    /// The reported state.
    pub fn view(&self) -> (r: PauseView)
        ensures
            r.paused == self.manual,
    {
        PauseView { paused: self.is_paused() }
    }
}

} // verus!
