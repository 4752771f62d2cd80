//! High-level user intents and the visibility state they drive.
//!
//! The tray icon, the global hotkeys and the menu all boil down to four
//! actions. The transition below decides, from the action and whether the
//! dock is currently visible, what the new visibility is and which
//! signals the platform loop forwards; performing them is the loop's
//! business.

use vstd::prelude::*;

verus! {

/// A high-level user intent from the tray, a hotkey or the menu.
#[derive(Clone, Copy, PartialEq, Eq, Structural, Debug)]
pub enum RuntimeAction {
    Show,
    Hide,
    Toggle,
    Quit,
}

/// What an action does: the visibility afterwards and which signals to
/// forward.
#[derive(Clone, Copy, PartialEq, Eq, Structural, Debug)]
pub struct RuntimeStep {
    /// Whether the dock is visible after the action.
    pub visible: bool,
    /// Forward a show intent (restore, focus) to the window.
    pub emit_show: bool,
    /// Forward a hide intent (minimize) to the window.
    pub emit_hide: bool,
    /// End the process.
    pub quit: bool,
}

/// The visibility transition an action performs: show always shows and
/// refocuses, hide only hides a visible dock, toggle picks one of the
/// two, quit changes nothing but ends the process.
pub open spec fn runtime_step_spec(action: RuntimeAction, visible: bool) -> RuntimeStep {
    match action {
        RuntimeAction::Show => RuntimeStep {
            visible: true,
            emit_show: true,
            emit_hide: false,
            quit: false,
        },
        RuntimeAction::Hide => {
            if visible {
                RuntimeStep { visible: false, emit_show: false, emit_hide: true, quit: false }
            } else {
                RuntimeStep { visible, emit_show: false, emit_hide: false, quit: false }
            }
        },
        RuntimeAction::Toggle => {
            if visible {
                RuntimeStep { visible: false, emit_show: false, emit_hide: true, quit: false }
            } else {
                RuntimeStep { visible: true, emit_show: true, emit_hide: false, quit: false }
            }
        },
        RuntimeAction::Quit => RuntimeStep {
            visible,
            emit_show: false,
            emit_hide: false,
            quit: true,
        },
    }
}

/// Decides an action's effect; see [`runtime_step_spec`].
pub fn runtime_transition(action: RuntimeAction, visible: bool) -> (r: RuntimeStep)
    ensures
        r == runtime_step_spec(action, visible),
{
    match action {
        RuntimeAction::Show => RuntimeStep {
            visible: true,
            emit_show: true,
            emit_hide: false,
            quit: false,
        },
        RuntimeAction::Hide => {
            if visible {
                RuntimeStep { visible: false, emit_show: false, emit_hide: true, quit: false }
            } else {
                RuntimeStep { visible, emit_show: false, emit_hide: false, quit: false }
            }
        },
        RuntimeAction::Toggle => {
            if visible {
                RuntimeStep { visible: false, emit_show: false, emit_hide: true, quit: false }
            } else {
                RuntimeStep { visible: true, emit_show: true, emit_hide: false, quit: false }
            }
        },
        RuntimeAction::Quit => RuntimeStep {
            visible,
            emit_show: false,
            emit_hide: false,
            quit: true,
        },
    }
}

} // verus!
