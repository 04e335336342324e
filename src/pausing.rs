//! Pausing and resuming the simulation.
use vstd::prelude::*;

verus! {

/// Whether the simulation runs.
#[derive(Clone, Copy, PartialEq, Eq, Structural, Debug, Hash)]
pub enum PauseState {
    Paused,
    Running,
}

impl Default for PauseState {
    fn default() -> (r: PauseState)
        ensures
            r == PauseState::Running,
    {
        PauseState::Running
    }
}

impl PauseState {
    pub open spec fn toggled_spec(self) -> PauseState {
        match self {
            PauseState::Paused => PauseState::Running,
            PauseState::Running => PauseState::Paused,
        }
    }
}

/// The state to switch to when the pause button went down this frame: the
/// other one.  Nothing changes while the button is not newly pressed.
pub fn pause_button(current: PauseState, just_pressed: bool) -> (r: Option<PauseState>)
    ensures
        just_pressed ==> r == Some(current.toggled_spec()),
        !just_pressed ==> r.is_none(),
{
    if just_pressed {
        Some(
            match current {
                PauseState::Paused => PauseState::Running,
                PauseState::Running => PauseState::Paused,
            },
        )
    } else {
        None
    }
}

} // verus!
