//! The keyboard-shortcut bridge's decision: which application event a raw
//! key press maps to. The surrounding toolkit glue only reports the
//! modifier state and the key's character; the choice is made here.

use vstd::prelude::*;

verus! {

/// What a key press leads to.
#[derive(Clone, Copy, Debug, PartialEq, Eq, Structural)]
pub enum ShortcutAction {
    /// Emit the add-task event and swallow the key press.
    AddTask,
    /// Emit the log-time event and swallow the key press.
    LogTime,
    /// Let the key press propagate to the web view.
    Propagate,
}

/// The decision for one key press: with Ctrl or Meta held and Alt free,
/// `n` adds a task and `t` logs time (case-insensitively); everything else
/// propagates.
pub fn shortcut_action(ctrl_or_meta: bool, alt: bool, key: Option<char>) -> (r: ShortcutAction)
    ensures
        !ctrl_or_meta || alt ==> r == ShortcutAction::Propagate,
        ctrl_or_meta && !alt && (key == Some('n') || key == Some('N')) ==> r
            == ShortcutAction::AddTask,
        ctrl_or_meta && !alt && (key == Some('t') || key == Some('T')) ==> r
            == ShortcutAction::LogTime,
        ctrl_or_meta && !alt && (match key {
            Some(c) => c != 'n' && c != 'N' && c != 't' && c != 'T',
            None => true,
        }) ==> r == ShortcutAction::Propagate,
{
    if !ctrl_or_meta || alt {
        return ShortcutAction::Propagate;
    }
    match key {
        Some(c) => {
            if c == 'n' || c == 'N' {
                ShortcutAction::AddTask
            } else if c == 't' || c == 'T' {
                ShortcutAction::LogTime
            } else {
                ShortcutAction::Propagate
            }
        },
        None => ShortcutAction::Propagate,
    }
}

} // verus!
