use loom::studio::note_entry::{
    adjusted_keyboard_octave, apply_track_program_to_lines, parse_note_binding, preview_action,
    NoteKeyBinding, NoteKeyInput, NoteKeyboard, NoteKeyboardConfig, PreviewAction,
    MAX_KEYBOARD_OCTAVE, MIN_KEYBOARD_OCTAVE,
};

fn config(
    base_octave: Option<i32>,
    octave_down: Option<&str>,
    octave_up: Option<&str>,
    keys: &[(&str, &str)],
) -> NoteKeyboardConfig {
    NoteKeyboardConfig {
        base_octave,
        octave_down: octave_down.map(|s| s.to_string()),
        octave_up: octave_up.map(|s| s.to_string()),
        keys: keys.iter().map(|(k, v)| (k.to_string(), v.to_string())).collect(),
    }
}

#[test]
fn keyboard_note_maps_white_and_black_keys() {
    let keyboard = NoteKeyboard::default_keyboard();

    assert_eq!(keyboard.token('a', 4).as_deref(), Some("C4"));
    assert_eq!(keyboard.token('w', 4).as_deref(), Some("C#4"));
    assert_eq!(keyboard.token('s', 4).as_deref(), Some("D4"));
    assert_eq!(keyboard.token('e', 4).as_deref(), Some("D#4"));
    assert_eq!(keyboard.token('d', 4).as_deref(), Some("E4"));
    assert_eq!(keyboard.token('k', 4).as_deref(), Some("C5"));
    assert_eq!(keyboard.token('o', 4).as_deref(), Some("C#5"));
    assert_eq!(keyboard.token('l', 4).as_deref(), Some("D5"));
    assert_eq!(keyboard.token('p', 4).as_deref(), Some("D#5"));
    assert_eq!(keyboard.token(';', 4).as_deref(), Some("E5"));
    assert_eq!(keyboard.token('.', 4).as_deref(), Some("."));
    assert_eq!(keyboard.token('-', 4).as_deref(), Some("-"));
}

#[test]
fn keyboard_note_accepts_uppercase_keys() {
    let keyboard = NoteKeyboard::default_keyboard();

    assert_eq!(keyboard.token('A', 3).as_deref(), Some("C3"));
}

#[test]
fn keyboard_note_applies_configured_overrides() {
    let config = config(
        Some(3),
        Some(","),
        Some("."),
        &[
            ("r", "C+2"),
            ("a", "G#-1"),
            (".", "D"),
            ("-", "E"),
            ("q", "rest"),
            ("w", "sustain"),
        ],
    );

    let (keyboard, octave) = NoteKeyboard::from_config(&config);

    assert_eq!(octave, 3);
    assert_eq!(keyboard.token('r', octave).as_deref(), Some("C5"));
    assert_eq!(keyboard.token('a', octave).as_deref(), Some("G#2"));
    assert_eq!(keyboard.token('.', octave).as_deref(), Some("D3"));
    assert_eq!(keyboard.token('-', octave).as_deref(), Some("E3"));
    assert_eq!(keyboard.token('q', octave).as_deref(), Some("."));
    assert_eq!(keyboard.token('w', octave).as_deref(), Some("-"));
    assert!(keyboard.is_octave_down(','));
    assert!(keyboard.is_octave_up('.'));
}

#[test]
fn visual_layout_prefers_configured_override_over_default_binding() {
    let config = config(Some(4), None, None, &[("a", "E")]);

    let (keyboard, _) = NoteKeyboard::from_config(&config);
    let layout = keyboard.visual_layout();
    let e_key = layout
        .pitch_keys
        .iter()
        .find(|key| key.note_name == "E" && key.octave_offset == 0)
        .map(|key| key.physical_key);

    assert_eq!(e_key, Some('a'));
    assert_eq!(keyboard.token('d', 4), None);
    assert_eq!(keyboard.token('a', 4).as_deref(), Some("E4"));
}

#[test]
fn invalid_config_entries_fall_back_to_defaults() {
    let config = config(
        Some(99),
        Some("zz"),
        Some("xx"),
        &[("too-long", "C+2"), ("r", "not-a-note")],
    );

    let (keyboard, octave) = NoteKeyboard::from_config(&config);

    assert_eq!(octave, MAX_KEYBOARD_OCTAVE);
    assert_eq!(keyboard.token('a', octave).as_deref(), Some("C7"));
    assert_eq!(keyboard.token('r', octave), None);
    assert!(keyboard.is_octave_down('z'));
    assert!(keyboard.is_octave_up('x'));
}

#[test]
fn note_binding_requires_supported_note_names() {
    assert!(parse_note_binding("C").is_some());
    assert!(parse_note_binding("C#+1").is_some());
    assert!(parse_note_binding("rest").is_some());
    assert!(parse_note_binding("sustain").is_some());
    assert!(parse_note_binding("Db").is_none());
    assert!(parse_note_binding("C#x").is_none());
}

#[test]
fn preview_action_marks_pitch_tokens_as_audition() {
    assert_eq!(
        preview_action(NoteKeyInput::Token("C4".to_string())),
        Some(PreviewAction::AuditionPitch)
    );
}

#[test]
fn preview_action_marks_rest_and_sustain_as_silent() {
    assert_eq!(
        preview_action(NoteKeyInput::Token(".".to_string())),
        Some(PreviewAction::SilentToken)
    );
    assert_eq!(
        preview_action(NoteKeyInput::Token("-".to_string())),
        Some(PreviewAction::SilentToken)
    );
}

#[test]
fn preview_action_ignores_cancel_and_unknown() {
    assert_eq!(preview_action(NoteKeyInput::Cancel), None);
    assert_eq!(preview_action(NoteKeyInput::Unknown), None);
}

#[test]
fn visual_layout_covers_default_c_through_high_e() {
    let layout = NoteKeyboard::default_keyboard().visual_layout();

    let keys: Vec<char> = layout.pitch_keys.iter().map(|key| key.physical_key).collect();
    assert_eq!(
        keys,
        vec!['a', 'w', 's', 'e', 'd', 'f', 't', 'g', 'y', 'h', 'u', 'j', 'k', 'o', 'l', 'p', ';']
    );
    assert_eq!(layout.rest_key, '.');
    assert_eq!(layout.sustain_key, '-');
    assert_eq!(layout.octave_down_key, 'z');
    assert_eq!(layout.octave_up_key, 'x');
}

#[test]
fn apply_track_program_replaces_existing_pc() {
    let mut lines = vec![
        "# Lead: 1".to_string(),
        "## pc 12".to_string(),
        "C4 | ^ |".to_string(),
    ];

    assert_eq!(apply_track_program_to_lines(&mut lines, 0, 42), Some(1));
    assert_eq!(
        lines,
        vec![
            "# Lead: 1".to_string(),
            "## pc 42".to_string(),
            "C4 | ^ |".to_string(),
        ]
    );
}

#[test]
fn apply_track_program_normalizes_sound_alias() {
    let mut lines = vec![
        "# Lead: 1".to_string(),
        "## sound 81".to_string(),
        "C4 | ^ |".to_string(),
    ];

    assert_eq!(apply_track_program_to_lines(&mut lines, 0, 7), Some(1));
    assert_eq!(lines[1], "## pc 7");
}

#[test]
fn apply_track_program_inserts_below_header_when_missing() {
    let mut lines = vec!["# Lead: 1".to_string(), "C4 | ^ |".to_string()];

    assert_eq!(apply_track_program_to_lines(&mut lines, 0, 33), Some(1));
    assert_eq!(
        lines,
        vec![
            "# Lead: 1".to_string(),
            "## pc 33".to_string(),
            "C4 | ^ |".to_string(),
        ]
    );
}

#[test]
fn apply_track_program_does_not_cross_track_boundary() {
    let mut lines = vec![
        "# Lead: 1".to_string(),
        "C4 | ^ |".to_string(),
        "# Bass: 2".to_string(),
        "## pc 34".to_string(),
    ];

    assert_eq!(apply_track_program_to_lines(&mut lines, 0, 99), Some(1));
    assert_eq!(lines[1], "## pc 99");
    assert_eq!(lines[4], "## pc 34");
}

#[test]
fn apply_track_program_refuses_a_row_without_a_header() {
    let mut lines = vec!["C4 | ^ |".to_string()];
    assert_eq!(apply_track_program_to_lines(&mut lines, 0, 5), None);
    assert_eq!(lines, vec!["C4 | ^ |".to_string()]);
}

#[test]
fn later_binding_of_a_key_replaces_the_earlier_one() {
    let mut keyboard = NoteKeyboard::default_keyboard();
    keyboard.set_binding('a', NoteKeyBinding::Rest);
    assert_eq!(keyboard.token('a', 4).as_deref(), Some("."));
    keyboard.set_binding('a', NoteKeyBinding::Sustain);
    assert_eq!(keyboard.token('a', 4).as_deref(), Some("-"));
}

#[test]
fn keyboard_octave_stays_within_bounds() {
    assert_eq!(adjusted_keyboard_octave(4, 1), 5);
    assert_eq!(adjusted_keyboard_octave(MAX_KEYBOARD_OCTAVE, 1), MAX_KEYBOARD_OCTAVE);
    assert_eq!(adjusted_keyboard_octave(MIN_KEYBOARD_OCTAVE, -1), MIN_KEYBOARD_OCTAVE);
}
