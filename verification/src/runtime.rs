//! Window-layer rules that do not need a window: labels, corner style and
//! the registry of bound global hotkeys.
use vstd::prelude::*;
use vstd::string::*;
use crate::text::concat;

verus! {

broadcast use vstd::string::group_string_axioms;

pub const MAIN_LABEL: &'static str = "main";
pub const TODO_LABEL: &'static str = "todo";
pub const CAPTURE_LABEL: &'static str = "capture";
pub const TRAY_ID: &'static str = "main";
/// Title of every system notification.
pub const NOTIFY_TITLE: &'static str = "待办提醒";

/// DWM corner preference: rounded.
pub const DWMWCP_ROUND: u32 = 2;
/// DWM corner preference: square.
pub const DWMWCP_DONOTROUND: u32 = 1;

/// The window label of a sticky note.
pub fn note_label(id: &str) -> (r: String)
    ensures
        r@ == "note:"@ + id@,
{
    proof {
        reveal_strlit("note:");
    }
    concat("note:", id)
}

/// Rounded corners while restored, square when maximized (rounded corners on
/// a maximized window would show the desktop in the screen's corners).
pub fn corner_preference_for(maximized: bool) -> (r: u32)
    ensures
        r == if maximized { DWMWCP_DONOTROUND } else { DWMWCP_ROUND },
{
    if maximized {
        DWMWCP_DONOTROUND
    } else {
        DWMWCP_ROUND
    }
}

/// What a global hotkey does; one combination never serves two actions.
#[derive(Clone, Copy, Debug, PartialEq, Eq, Structural)]
pub enum HotkeyAction {
    Capture,
    OpenMain,
    NewSticky,
    ToggleTodoFloat,
}

/// The hotkeys currently bound (the old one is released before a change).
#[derive(Debug, Default)]
pub struct HotkeyRegistry {
    pub capture: Option<String>,
    pub main: Option<String>,
    pub sticky: Option<String>,
    pub todo: Option<String>,
}

impl HotkeyRegistry {
    pub open spec fn slot_spec(&self, action: HotkeyAction) -> Option<String> {
        match action {
            HotkeyAction::Capture => self.capture,
            HotkeyAction::OpenMain => self.main,
            HotkeyAction::NewSticky => self.sticky,
            HotkeyAction::ToggleTodoFloat => self.todo,
        }
    }

    /// The combination bound to an action.
    pub fn slot(&self, action: HotkeyAction) -> (r: &Option<String>)
        ensures
            *r == self.slot_spec(action),
    {
        match action {
            HotkeyAction::Capture => &self.capture,
            HotkeyAction::OpenMain => &self.main,
            HotkeyAction::NewSticky => &self.sticky,
            HotkeyAction::ToggleTodoFloat => &self.todo,
        }
    }

    /// Record the combination bound to an action; the other slots stay.
    pub fn set_slot(&mut self, action: HotkeyAction, value: Option<String>)
        ensures
            final(self).slot_spec(action) == value,
            forall|a: HotkeyAction| a != action ==> final(self).slot_spec(a) == old(self).slot_spec(a),
    {
        match action {
            HotkeyAction::Capture => self.capture = value,
            HotkeyAction::OpenMain => self.main = value,
            HotkeyAction::NewSticky => self.sticky = value,
            HotkeyAction::ToggleTodoFloat => self.todo = value,
        }
    }
}

} // verus!
