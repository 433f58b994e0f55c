//! UI-mode state: which screen the game shows and the last measured
//! frame rate. Presentation only; rendering reads it, nothing here
//! touches the world or the player.

use vstd::prelude::*;

verus! {

/// The three screens the frame loop can be on.
#[derive(Clone, Copy, PartialEq, Eq, Structural, Debug)]
pub enum GameMode {
    Welcome,
    Playing,
    Success,
}

/// Presentation state handed to the renderer each frame.
pub struct UiState {
    pub mode: GameMode,
    /// Last measured frames per second, rounded down.
    pub fps: u32,
}

impl Default for UiState {
    /// A fresh session starts on the welcome screen with no frame-rate
    /// measurement yet.
    fn default() -> (s: UiState)
        ensures
            s.mode == GameMode::Welcome,
            s.fps == 0,
    {
        UiState { mode: GameMode::Welcome, fps: 0 }
    }
}

} // verus!
