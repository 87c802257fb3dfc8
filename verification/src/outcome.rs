//! Outcomes of routing a key: the high-level intent the host acts on, the
//! same intents as produced by the simple line input, and whether a widget
//! consumed a key.

use vstd::prelude::*;
use crate::text::{chars_of, push_chars, trim, trim_str};

verus! {

/// The high-level intent of a routed key event.
#[derive(Clone, Debug, PartialEq, Eq)]
pub enum UxOutcome {
    /// Submit (Enter) on non-slash input: send it as a prompt.
    Submit(String),
    /// `/cmd` submitted; the body after the leading `/`.
    Slash(String),
    /// Abort the current turn (Ctrl+C style).
    Abort,
    /// Explicit quit (Ctrl+D style).
    Quit,
    /// Handled by a widget with no app-level intent.
    Idle,
}

/// The decision resulting from a key in the single-line input.
pub enum InputOutcome {
    /// Enter on non-slash input: submit it as a prompt.
    Submit(String),
    /// `/cmd`: route to slash command handling.
    Slash(String),
    /// Ctrl+C: abort the current turn (or quit if idle).
    Abort,
    /// Explicit quit (Ctrl+D).
    Quit,
    /// No actionable input.
    Idle,
}

/// Whether a widget consumed a key (and wants a render).
#[derive(Clone, Copy, Debug, PartialEq, Eq, Structural)]
pub enum InputResult {
    NotHandled,
    /// Consumed the key; the caller should request a render frame.
    Handled,
}

impl Default for InputResult {
    fn default() -> (r: Self)
        ensures
            r == InputResult::NotHandled,
    {
        InputResult::NotHandled
    }
}

/// What Enter does with the input line: nothing for a blank line; for a
/// line that starts with `/` once trimmed, a slash command with the text
/// after the `/`; otherwise a prompt submission of the trimmed line.
pub fn enter_outcome(buffer: &str) -> (o: InputOutcome)
    ensures
        trim(buffer@).len() == 0 ==> o is Idle,
        trim(buffer@).len() > 0 && trim(buffer@)[0] == '/' ==> (o matches InputOutcome::Slash(s)
            && s@ == trim(buffer@).drop_first()),
        trim(buffer@).len() > 0 && trim(buffer@)[0] != '/' ==> (o matches InputOutcome::Submit(s)
            && s@ == trim(buffer@)),
{
    let t = trim_str(buffer);
    let v = chars_of(t.as_str());
    if v.len() == 0 {
        return InputOutcome::Idle;
    }
    if v[0] == '/' {
        let mut rest = String::new();
        push_chars(&mut rest, &v, 1, v.len());
        assert(v@.subrange(1, v@.len() as int) =~= v@.drop_first());
        return InputOutcome::Slash(rest);
    }
    InputOutcome::Submit(t)
}

/// What a Ctrl chord does: Ctrl+C aborts, Ctrl+D quits, anything else
/// (including a key that is not a character) does nothing.
pub fn ctrl_outcome(c: Option<char>) -> (o: InputOutcome)
    ensures
        c == Some('c') ==> o is Abort,
        c == Some('d') ==> o is Quit,
        c != Some('c') && c != Some('d') ==> o is Idle,
{
    match c {
        Some('c') => InputOutcome::Abort,
        Some('d') => InputOutcome::Quit,
        _ => InputOutcome::Idle,
    }
}

} // verus!
