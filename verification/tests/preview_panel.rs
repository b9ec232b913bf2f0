use loom::studio::audition::PreviewTrackContext;
use loom::studio::keystroke::{KeyCode, KeyEvent, KeyModifiers};
use loom::studio::note_entry::NoteKeyboard;
use loom::studio::preview::{PreviewControls, PreviewPanelState};
use loom::studio::preview_panel::{
    preview_panel_key_action, suppressed_status, ActivePreviewNote, ActivePreviewNotes, PreviewKeyAction,
    PreviewSound,
};

fn press(code: KeyCode, modifiers: KeyModifiers) -> KeyEvent {
    KeyEvent::new(code, modifiers)
}

#[test]
fn panel_keys_map_to_actions() {
    let kb = NoteKeyboard::default_keyboard();
    let act = |k: KeyEvent, held: &[char], playing: bool| preview_panel_key_action(k, false, &kb, 4, held, playing);
    assert_eq!(act(press(KeyCode::Esc, KeyModifiers::none()), &[], false), PreviewKeyAction::Close);
    assert_eq!(act(press(KeyCode::Char('P'), KeyModifiers::none()), &[], false), PreviewKeyAction::Close);
    assert_eq!(act(press(KeyCode::Enter, KeyModifiers::none()), &[], false), PreviewKeyAction::ApplyProgram);
    assert_eq!(act(press(KeyCode::Char('['), KeyModifiers::none()), &[], false), PreviewKeyAction::AdjustProgram(-1));
    assert_eq!(act(press(KeyCode::Char(']'), KeyModifiers::shift()), &[], false), PreviewKeyAction::AdjustProgram(10));
    assert_eq!(act(press(KeyCode::Char('r'), KeyModifiers::none()), &[], false), PreviewKeyAction::ResetProgram);
    assert_eq!(act(press(KeyCode::Char('z'), KeyModifiers::none()), &[], false), PreviewKeyAction::OctaveDown);
    assert_eq!(act(press(KeyCode::Char('X'), KeyModifiers::none()), &[], false), PreviewKeyAction::OctaveUp);
    assert_eq!(
        act(press(KeyCode::Char('a'), KeyModifiers::none()), &[], false),
        PreviewKeyAction::Audition { key: 'a', token: "C4".to_string() }
    );
    assert_eq!(
        act(press(KeyCode::Char('a'), KeyModifiers::none()), &[], true),
        PreviewKeyAction::Suppressed("C4".to_string())
    );
    assert_eq!(act(press(KeyCode::Char('a'), KeyModifiers::none()), &['a'], false), PreviewKeyAction::AlreadyHeld('a'));
    assert_eq!(
        act(press(KeyCode::Char('.'), KeyModifiers::none()), &[], false),
        PreviewKeyAction::Silent { key: '.', token: ".".to_string() }
    );
    assert_eq!(act(press(KeyCode::Char('q'), KeyModifiers::none()), &[], false), PreviewKeyAction::Unknown);
    assert_eq!(act(press(KeyCode::Left, KeyModifiers::none()), &[], false), PreviewKeyAction::Unknown);
    assert_eq!(
        preview_panel_key_action(press(KeyCode::Char('a'), KeyModifiers::none()), true, &kb, 4, &[], false),
        PreviewKeyAction::Release('a')
    );
}

#[test]
fn panel_state_follows_its_commands() {
    let mut panel = PreviewPanelState::default();
    let message = panel.open_with(PreviewTrackContext {
        track_header_row: 3,
        track_name: "Lead".to_string(),
        channel: 0,
        source_program: Some(5),
        controls: PreviewControls::default(),
    });
    assert_eq!(message, "Preview panel: Lead | ch 1 | source pc 5");
    assert!(panel.open);
    assert_eq!(panel.adjust_program(-10), "Preview program: 0 (track Lead ch 1)");
    assert_eq!(panel.override_program, Some(0));
    assert_eq!(panel.adjust_program(200), "Preview program: 127 (track Lead ch 1)");
    assert_eq!(panel.reset_program(), "Preview program reset to source pc 5");
    assert_eq!(panel.effective_program(), Some(5));
    assert_eq!(panel.close(), "Preview panel closed");
    assert!(!panel.open);
    assert_eq!(panel.track_header_row, None);
}

#[test]
fn a_struck_key_holds_its_note_until_let_go() {
    let mut notes = ActivePreviewNotes::new();
    let token = "C4".to_string();
    let (sounds, status) = notes.audition(Some(5), 'a', &token, Some((2, 60)));
    assert_eq!(
        sounds,
        vec![
            PreviewSound::ProgramChange { channel: 2, program: 5 },
            PreviewSound::NoteOn { channel: 2, note: 60, velocity: 96 },
        ]
    );
    assert_eq!(status, "Preview: C4 | ch 3 | pc 5");
    let (sounds, status) = notes.audition(None, 's', &"D4".to_string(), Some((0, 62)));
    assert_eq!(sounds, vec![PreviewSound::NoteOn { channel: 0, note: 62, velocity: 96 }]);
    assert_eq!(status, "Preview: D4 | ch 1");
    assert_eq!(notes.keys(), vec!['a', 's']);
    assert_eq!(notes.note_of('a'), Some(ActivePreviewNote { channel: 2, note: 60 }));
    assert_eq!(notes.release('a'), Some(PreviewSound::NoteOff { channel: 2, note: 60 }));
    assert_eq!(notes.release('a'), None);
    assert_eq!(notes.keys(), vec!['s']);
}

#[test]
fn keys_without_a_note_hold_nothing() {
    let mut notes = ActivePreviewNotes::new();
    let (sounds, status) = notes.audition(Some(1), 'a', &"C9".to_string(), None);
    assert!(sounds.is_empty());
    assert_eq!(status, "Preview unavailable here: C9");
    assert_eq!(notes.silent('k', &".".to_string()), "Preview silent: .");
    assert!(notes.keys().is_empty());
    assert_eq!(suppressed_status(&"E4".to_string()), "Preview suppressed while playing: E4");
}

#[test]
fn clearing_silences_only_when_something_sounds() {
    let mut panel = PreviewPanelState::default();
    let mut notes = ActivePreviewNotes::new();
    panel.hold_key('a');
    assert_eq!(notes.clear(&mut panel), None);
    assert_eq!(panel.active_keys, vec!['a']);
    notes.audition(None, 'a', &"C4".to_string(), Some((0, 60)));
    assert_eq!(notes.clear(&mut panel), Some(PreviewSound::SilenceAll));
    assert!(panel.active_keys.is_empty());
    assert!(notes.keys().is_empty());
}

#[test]
fn panel_keys_are_held_once_and_let_go() {
    let mut panel = PreviewPanelState::default();
    panel.hold_key('a');
    panel.hold_key('s');
    panel.hold_key('a');
    assert_eq!(panel.active_keys, vec!['a', 's']);
    panel.let_go('a');
    panel.let_go('x');
    assert_eq!(panel.active_keys, vec!['s']);
}

#[test]
fn striking_a_key_again_replaces_its_note() {
    let mut notes = ActivePreviewNotes::new();
    notes.audition(None, 'a', &"C4".to_string(), Some((0, 60)));
    notes.audition(None, 'a', &"C5".to_string(), Some((0, 72)));
    assert_eq!(notes.keys(), vec!['a']);
    assert_eq!(notes.release('a'), Some(PreviewSound::NoteOff { channel: 0, note: 72 }));
}
