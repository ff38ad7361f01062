//! Application lifecycle states.

use vstd::prelude::*;

verus! {

/// Top-level lifecycle of the application.
#[derive(Debug, Clone, Copy, PartialEq, Eq, Hash, Structural)]
pub enum AppState {
    /// No folder has been chosen yet.
    Empty,
    /// A folder was chosen and its listing is being read.
    Loading,
    /// A folder is being shown.
    Viewing,
}

/// Sub-state that is meaningful only while `AppState::Viewing`.
#[derive(Debug, Clone, Copy, PartialEq, Eq, Hash, Structural)]
pub enum ViewingMode {
    /// Input is accepted and the camera is free.
    Idle,
    /// A camera transition is running and input is blocked.
    Animating,
}

impl Default for AppState {
    fn default() -> (state: AppState)
        ensures
            state == AppState::Empty,
    {
        AppState::Empty
    }
}

impl Default for ViewingMode {
    fn default() -> (mode: ViewingMode)
        ensures
            mode == ViewingMode::Idle,
    {
        ViewingMode::Idle
    }
}

} // verus!
