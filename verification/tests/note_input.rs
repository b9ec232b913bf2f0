use loom::studio::input::NoteInputMode;
use loom::studio::keystroke::{KeyCode, KeyEvent, KeyModifiers};
use loom::studio::note_entry::NoteKeyboard;
use loom::studio::note_input::{after_note_step, note_key_step, AfterNoteStep, NoteKeyStep};

fn press(code: KeyCode) -> KeyEvent {
    KeyEvent::new(code, KeyModifiers::none())
}

#[test]
fn continuous_entry_takes_its_editing_keys() {
    let kb = NoteKeyboard::default_keyboard();
    let c = NoteInputMode::Continuous;
    assert_eq!(note_key_step(c, press(KeyCode::Char(' ')), &kb, 4), NoteKeyStep::Skip);
    assert_eq!(note_key_step(c, press(KeyCode::Tab), &kb, 4), NoteKeyStep::Subdivide);
    assert_eq!(note_key_step(c, press(KeyCode::BackTab), &kb, 4), NoteKeyStep::Shrink);
    assert_eq!(note_key_step(c, press(KeyCode::Backspace), &kb, 4), NoteKeyStep::Undo);
    assert_eq!(note_key_step(c, press(KeyCode::Char('x')), &kb, 4), NoteKeyStep::OctaveUp);
    assert_eq!(note_key_step(c, press(KeyCode::Char('k')), &kb, 3), NoteKeyStep::Place("C4".to_string()));
    assert_eq!(after_note_step(c, &NoteKeyStep::Place("C4".to_string()), true), AfterNoteStep::Advance);
    assert_eq!(after_note_step(c, &NoteKeyStep::Place("C4".to_string()), false), AfterNoteStep::Resume);
    assert_eq!(after_note_step(c, &NoteKeyStep::Unknown, false), AfterNoteStep::Reject);
}

#[test]
fn single_entry_reports_unknown_keys() {
    let kb = NoteKeyboard::default_keyboard();
    let s = NoteInputMode::Single;
    assert_eq!(note_key_step(s, press(KeyCode::Char(' ')), &kb, 4), NoteKeyStep::Unknown);
    assert_eq!(note_key_step(s, press(KeyCode::Tab), &kb, 4), NoteKeyStep::Unknown);
    assert_eq!(note_key_step(s, press(KeyCode::Esc), &kb, 4), NoteKeyStep::Cancel);
    assert_eq!(
        after_note_step(s, &NoteKeyStep::Unknown, false),
        AfterNoteStep::Report(
            "Unknown note key. Note: keyboard piano key | . rest | - sustain | z/x octave | Esc cancel".to_string()
        )
    );
    assert_eq!(after_note_step(s, &NoteKeyStep::OctaveDown, false), AfterNoteStep::Done);
}
