use loom::studio::completion::{completion_key, CompletionKey};
use loom::studio::keystroke::{
    key_stroke_matches, lookup_key_action, normalized_key_stroke, KeyBinding, KeyCode, KeyEvent,
    KeyModifiers, KeyStroke,
};
use loom::studio::note_entry::{
    note_key_input_for_key, note_keyboard_action, preview_key_char, NoteKeyInput, NoteKeyboard,
    NoteKeyboardAction,
};
use loom::studio::track_init::{parse_track_init_key, TrackInitKeySpec};

fn key(code: KeyCode, modifiers: KeyModifiers) -> KeyEvent {
    KeyEvent::new(code, modifiers)
}

#[test]
fn help_key_accepts_shift_slash() {
    let key = KeyEvent::new(KeyCode::Char('/'), KeyModifiers::shift());
    assert!(key_stroke_matches(KeyStroke::Symbol('?'), &key));
}

#[test]
fn shifted_comma_normalizes_to_left_angle() {
    let key = KeyEvent::new(KeyCode::Char(','), KeyModifiers::shift());
    assert!(key_stroke_matches(KeyStroke::Symbol('<'), &key));
}

#[test]
fn shifted_semicolon_normalizes_to_colon() {
    let key = KeyEvent::new(KeyCode::Char(';'), KeyModifiers::shift());
    assert!(key_stroke_matches(KeyStroke::Symbol(':'), &key));
}

#[test]
fn plain_symbol_stays_plain() {
    let key = KeyEvent::new(KeyCode::Char('.'), KeyModifiers::none());
    assert_eq!(normalized_key_stroke(&key), Some(KeyStroke::Symbol('.')));
}

#[test]
fn uppercase_char_without_shift_normalizes_to_shift_char() {
    let key = KeyEvent::new(KeyCode::Char('P'), KeyModifiers::none());
    assert_eq!(normalized_key_stroke(&key), Some(KeyStroke::ShiftChar('p')));
}

#[test]
fn add_parse_track_init_key_maps_supported_bindings() {
    assert_eq!(
        parse_track_init_key(key(KeyCode::Char('p'), KeyModifiers::none())),
        Some(TrackInitKeySpec::Pc)
    );
    assert_eq!(
        parse_track_init_key(key(KeyCode::Char('n'), KeyModifiers::none())),
        Some(TrackInitKeySpec::Pan)
    );
    assert_eq!(
        parse_track_init_key(key(KeyCode::Char('s'), KeyModifiers::none())),
        Some(TrackInitKeySpec::Sustain)
    );
    assert_eq!(
        parse_track_init_key(key(KeyCode::Char('v'), KeyModifiers::none())),
        Some(TrackInitKeySpec::Volume)
    );
}

#[test]
fn track_init_parse_track_init_key_maps_supported_bindings() {
    assert_eq!(
        parse_track_init_key(key(KeyCode::Char('p'), KeyModifiers::none())),
        Some(TrackInitKeySpec::Pc)
    );
    assert_eq!(
        parse_track_init_key(key(KeyCode::Char('n'), KeyModifiers::none())),
        Some(TrackInitKeySpec::Pan)
    );
    assert_eq!(
        parse_track_init_key(key(KeyCode::Char('s'), KeyModifiers::none())),
        Some(TrackInitKeySpec::Sustain)
    );
    assert_eq!(
        parse_track_init_key(key(KeyCode::Char('v'), KeyModifiers::none())),
        Some(TrackInitKeySpec::Volume)
    );
}

#[test]
fn keyboard_note_does_not_treat_space_as_note_input() {
    let keyboard = NoteKeyboard::default_keyboard();
    let input = note_key_input_for_key(&keyboard, 4, KeyEvent::new(KeyCode::Char(' '), KeyModifiers::none()));

    assert!(matches!(input, NoteKeyInput::Unknown));
}

#[test]
fn preview_key_char_normalizes_case() {
    let key = KeyEvent::new(KeyCode::Char('A'), KeyModifiers::shift());

    assert_eq!(preview_key_char(&key), Some('a'));
}

#[test]
fn preview_key_char_ignores_non_char_keys() {
    let key = KeyEvent::new(KeyCode::Esc, KeyModifiers::none());

    assert_eq!(preview_key_char(&key), None);
}

#[test]
fn control_and_code_keys_keep_their_kind() {
    assert_eq!(
        normalized_key_stroke(&key(KeyCode::Char('N'), KeyModifiers::control())),
        Some(KeyStroke::CtrlChar('n'))
    );
    assert_eq!(
        normalized_key_stroke(&key(KeyCode::Tab, KeyModifiers::shift())),
        Some(KeyStroke::ShiftCode(KeyCode::Tab))
    );
    assert_eq!(
        normalized_key_stroke(&key(KeyCode::Char('-'), KeyModifiers::shift())),
        Some(KeyStroke::ShiftChar('-'))
    );
    assert_eq!(
        parse_track_init_key(key(KeyCode::Esc, KeyModifiers::none())),
        Some(TrackInitKeySpec::Cancel)
    );
    assert_eq!(parse_track_init_key(key(KeyCode::Char('z'), KeyModifiers::none())), None);
}

#[test]
fn the_first_matching_binding_wins() {
    let bindings = [
        KeyBinding { stroke: KeyStroke::Char('x'), action: 1 },
        KeyBinding { stroke: KeyStroke::Symbol('?'), action: 2 },
        KeyBinding { stroke: KeyStroke::Symbol('?'), action: 3 },
    ];
    assert_eq!(lookup_key_action(&bindings, &key(KeyCode::Char('/'), KeyModifiers::shift())), Some(2));
    assert_eq!(lookup_key_action(&bindings, &key(KeyCode::Char('X'), KeyModifiers::none())), None);
    assert_eq!(lookup_key_action(&bindings, &key(KeyCode::Char('x'), KeyModifiers::none())), Some(1));
}

#[test]
fn completion_and_octave_keys() {
    assert_eq!(completion_key(&key(KeyCode::Enter, KeyModifiers::none())), Some(CompletionKey::Accept));
    assert_eq!(completion_key(&key(KeyCode::Char('p'), KeyModifiers::control())), Some(CompletionKey::Previous));
    assert_eq!(completion_key(&key(KeyCode::Down, KeyModifiers::none())), Some(CompletionKey::Next));
    assert_eq!(completion_key(&key(KeyCode::Char('n'), KeyModifiers::none())), None);
    let keyboard = NoteKeyboard::default_keyboard();
    assert_eq!(
        note_keyboard_action(&keyboard, &key(KeyCode::Char('Z'), KeyModifiers::none())),
        Some(NoteKeyboardAction::OctaveDown)
    );
    assert_eq!(
        note_keyboard_action(&keyboard, &key(KeyCode::Char('x'), KeyModifiers::none())),
        Some(NoteKeyboardAction::OctaveUp)
    );
    match note_key_input_for_key(&keyboard, 4, key(KeyCode::Char('a'), KeyModifiers::none())) {
        NoteKeyInput::Token(t) => assert_eq!(t, "C4"),
        _ => panic!("expected a token"),
    }
    assert!(matches!(
        note_key_input_for_key(&keyboard, 4, key(KeyCode::Esc, KeyModifiers::none())),
        NoteKeyInput::Cancel
    ));
}
