//! The two modes of the application and the controls that switch them.

use vstd::prelude::*;

verus! {

/// The mode of the application: the menu, or a game in progress.
#[derive(Clone, Copy, Debug, PartialEq, Eq, Hash, Structural)]
pub enum AppState {
    Menu,
    InGame,
}

/// A control of the menu that the user has pressed.
#[derive(Clone, Copy, Debug, PartialEq, Eq, Structural)]
pub enum MenuControl {
    Start,
    Exit,
}

/// What follows from a pressed control.
#[derive(Clone, Copy, Debug, PartialEq, Eq, Structural)]
pub struct Transition {
    /// The mode after the control was handled.
    pub next: AppState,
    /// Whether the application is asked to end.
    pub exit: bool,
}

impl Default for AppState {
    fn default() -> (state: AppState)
        ensures
            state == AppState::InGame,
    {
        AppState::InGame
    }
}

impl AppState {
    /// Whether paddles and ball move in this mode.
    pub open spec fn runs(self) -> bool {
        self == AppState::InGame
    }

    /// What a pressed control leads to: the menu's controls act only while
    /// the menu is shown, `Start` begins the game and `Exit` asks to end.
    pub open spec fn after(self, control: MenuControl) -> Transition {
        match (self, control) {
            (AppState::Menu, MenuControl::Start) => Transition {
                next: AppState::InGame,
                exit: false,
            },
            (AppState::Menu, MenuControl::Exit) => Transition { next: AppState::Menu, exit: true },
            (AppState::InGame, _) => Transition { next: AppState::InGame, exit: false },
        }
    }

    /// Tells whether paddles and ball move in this mode.
    pub fn is_running(&self) -> (r: bool)
        ensures
            r == self.runs(),
    {
        match self {
            AppState::Menu => false,
            AppState::InGame => true,
        }
    }

    /// Handles a pressed control.
    pub fn press(&self, control: MenuControl) -> (t: Transition)
        ensures
            t == self.after(control),
    {
        match self {
            AppState::Menu => match control {
                MenuControl::Start => Transition { next: AppState::InGame, exit: false },
                MenuControl::Exit => Transition { next: AppState::Menu, exit: true },
            },
            AppState::InGame => Transition { next: AppState::InGame, exit: false },
        }
    }
}

/// No control leads from a game in progress back to the menu.
pub proof fn lemma_game_never_returns_to_menu(control: MenuControl)
    ensures
        AppState::InGame.after(control).next == AppState::InGame,
        !AppState::InGame.after(control).exit,
{
}

} // verus!
