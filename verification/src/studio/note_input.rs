//! What a key does while notes are being typed into the score, one at a time or
//! continuously.
use vstd::prelude::*;
use crate::studio::input::{NoteInputMode, PendingInput};
use crate::studio::keystroke::{normalized_key_stroke, spec_stroke, KeyCode, KeyEvent, KeyStroke};
use crate::studio::note_entry::{
    lookup, note_key_input_for_key, note_keyboard_action, token_text, NoteKeyInput, NoteKeyboard,
    NoteKeyboardAction,
};
use crate::studio::preview_panel::offsets_fit;
use crate::text::to_lower;

verus! {

/// What a key does in note entry.
#[derive(Debug, PartialEq, Eq)]
pub enum NoteKeyStep {
    /// Space in continuous entry: the current slot is left as it is.
    Skip,
    /// Tab in continuous entry: the current unit is subdivided.
    Subdivide,
    /// Shift-Tab in continuous entry: the current group shrinks.
    Shrink,
    /// Backspace in continuous entry: the last step is undone.
    Undo,
    /// The keyboard's octave moves; continuous entry goes on.
    OctaveDown,
    OctaveUp,
    /// Entry is cancelled.
    Cancel,
    /// The token is placed at the current slot.
    Place(String),
    /// A key that note entry does not take.
    Unknown,
}

/// What a key does in note entry of the given mode: in continuous entry Space,
/// Tab, Shift-Tab and Backspace skip, subdivide, shrink and undo; then the octave
/// keys move the octave; then `Esc` cancels and a key with a token places it.
pub open spec fn spec_note_step(mode: NoteInputMode, key: KeyEvent, keyboard: NoteKeyboard, octave: i32, r: NoteKeyStep) -> bool {
    let s = spec_stroke(key);
    let continuous = mode == NoteInputMode::Continuous;
    if continuous && s == KeyStroke::Char(' ') {
        r == NoteKeyStep::Skip
    } else if continuous && s == KeyStroke::Code(KeyCode::Tab) {
        r == NoteKeyStep::Subdivide
    } else if continuous && s == KeyStroke::Code(KeyCode::BackTab) {
        r == NoteKeyStep::Shrink
    } else if continuous && s == KeyStroke::Code(KeyCode::Backspace) {
        r == NoteKeyStep::Undo
    } else if (s matches KeyStroke::Char(c) && to_lower(c) == to_lower(keyboard.octave_down)) || (
    s matches KeyStroke::ShiftChar(c) && to_lower(c) == to_lower(keyboard.octave_down)) {
        r == NoteKeyStep::OctaveDown
    } else if (s matches KeyStroke::Char(c) && to_lower(c) == to_lower(keyboard.octave_up)) || (
    s matches KeyStroke::ShiftChar(c) && to_lower(c) == to_lower(keyboard.octave_up)) {
        r == NoteKeyStep::OctaveUp
    } else if s == KeyStroke::Code(KeyCode::Esc) {
        r == NoteKeyStep::Cancel
    } else {
        match s {
            KeyStroke::Char(c) | KeyStroke::ShiftChar(c) | KeyStroke::Symbol(c) => match lookup(
                keyboard.entries(),
                to_lower(c),
            ) {
                Some(b) => r matches NoteKeyStep::Place(t) && t@ == token_text(b, octave as int),
                None => r == NoteKeyStep::Unknown,
            },
            _ => r == NoteKeyStep::Unknown,
        }
    }
}

/// What a key does in note entry of the given mode.
pub fn note_key_step(mode: NoteInputMode, key: KeyEvent, keyboard: &NoteKeyboard, octave: i32) -> (r: NoteKeyStep)
    requires
        offsets_fit(*keyboard, octave),
    ensures
        spec_note_step(mode, key, *keyboard, octave, r),
{
    let continuous = match mode {
        NoteInputMode::Continuous => true,
        NoteInputMode::Single => false,
    };
    match normalized_key_stroke(&key) {
        Some(KeyStroke::Char(' ')) if continuous => return NoteKeyStep::Skip,
        Some(KeyStroke::Code(KeyCode::Tab)) if continuous => return NoteKeyStep::Subdivide,
        Some(KeyStroke::Code(KeyCode::BackTab)) if continuous => return NoteKeyStep::Shrink,
        Some(KeyStroke::Code(KeyCode::Backspace)) if continuous => return NoteKeyStep::Undo,
        _ => {},
    }
    match note_keyboard_action(keyboard, &key) {
        Some(NoteKeyboardAction::OctaveDown) => return NoteKeyStep::OctaveDown,
        Some(NoteKeyboardAction::OctaveUp) => return NoteKeyStep::OctaveUp,
        None => {},
    }
    match note_key_input_for_key(keyboard, octave, key) {
        NoteKeyInput::Cancel => NoteKeyStep::Cancel,
        NoteKeyInput::Token(t) => NoteKeyStep::Place(t),
        NoteKeyInput::Unknown => NoteKeyStep::Unknown,
    }
}

/// What happens after a step of note entry: continuous entry goes on (to the next
/// slot after a placed token, at the same slot otherwise) or rejects an unknown
/// key; single entry reports an unknown key.
#[derive(Debug, PartialEq, Eq)]
pub enum AfterNoteStep {
    /// Nothing more.
    Done,
    /// Continuous entry moves to the next slot.
    Advance,
    /// Continuous entry stays at the current slot.
    Resume,
    /// Continuous entry rejects the key.
    Reject,
    /// The status line says the key is unknown.
    Report(String),
}

/// What follows a step: `placed` says whether a token was placed.
pub fn after_note_step(mode: NoteInputMode, step: &NoteKeyStep, placed: bool) -> (r: AfterNoteStep)
    ensures
        mode == NoteInputMode::Continuous ==> match *step {
            NoteKeyStep::OctaveDown | NoteKeyStep::OctaveUp | NoteKeyStep::Subdivide | NoteKeyStep::Shrink => r == AfterNoteStep::Resume,
            NoteKeyStep::Place(_) => r == (if placed { AfterNoteStep::Advance } else { AfterNoteStep::Resume }),
            NoteKeyStep::Unknown => r == AfterNoteStep::Reject,
            _ => r == AfterNoteStep::Done,
        },
        mode == NoteInputMode::Single ==> match *step {
            NoteKeyStep::Unknown => r matches AfterNoteStep::Report(m) && m@ == PendingInput::Note(mode).spec_unknown_message(),
            _ => r == AfterNoteStep::Done,
        },
{
    match mode {
        NoteInputMode::Continuous => match step {
            NoteKeyStep::OctaveDown | NoteKeyStep::OctaveUp | NoteKeyStep::Subdivide | NoteKeyStep::Shrink => AfterNoteStep::Resume,
            NoteKeyStep::Place(_) => if placed {
                AfterNoteStep::Advance
            } else {
                AfterNoteStep::Resume
            },
            NoteKeyStep::Unknown => AfterNoteStep::Reject,
            _ => AfterNoteStep::Done,
        },
        NoteInputMode::Single => match step {
            NoteKeyStep::Unknown => AfterNoteStep::Report(PendingInput::Note(mode).unknown_message()),
            _ => AfterNoteStep::Done,
        },
    }
}

} // verus!
