use loom::studio::onset::{current_onset_token, place_lane_onset_at_slot, toggled_onset_token};

#[test]
fn place_onset_replaces_current_lane_slot() {
    let mut line = "kick | . . . . |".to_string();
    let placed = place_lane_onset_at_slot(0, &mut line, 7, '^').unwrap();
    assert_eq!(line, "kick | ^ . . . |");
    assert_eq!(placed.index_on_line, 0);
}

#[test]
fn place_onset_replaces_nearby_lane_slot() {
    let mut line = "snare | . . . . |".to_string();
    let placed = place_lane_onset_at_slot(0, &mut line, 11, '^').unwrap();
    assert_eq!(line, "snare | . . ^ . |");
    assert_eq!(placed.index_on_line, 2);
}

#[test]
fn place_onset_in_empty_bar() {
    let mut line = "hh | |".to_string();
    let placed = place_lane_onset_at_slot(0, &mut line, 4, '^').unwrap();
    assert_eq!(line, "hh | ^ |");
    assert_eq!(placed.index_on_line, 0);
}

#[test]
fn place_onset_rejects_seq_lines() {
    let mut line = "seq | C4 . E4 |".to_string();
    assert!(place_lane_onset_at_slot(0, &mut line, 6, '^').is_err());
}

#[test]
fn toggle_onset_uses_note_on_for_rest_or_sustain() {
    assert_eq!(toggled_onset_token("^"), '.');
    assert_eq!(toggled_onset_token("."), '^');
    assert_eq!(toggled_onset_token("-"), '^');
}

#[test]
fn place_onset_pads_bar_without_blank_and_rejects_lane_without_bars() {
    let mut line = "hh ||".to_string();
    place_lane_onset_at_slot(0, &mut line, 3, '-').unwrap();
    assert_eq!(line, "hh | - |");
    let mut bare = "hh |".to_string();
    assert!(place_lane_onset_at_slot(0, &mut bare, 3, '^').is_err());
    assert_eq!(bare, "hh |");
}

#[test]
fn current_onset_token_reads_last_when_past_the_end() {
    let onset = current_onset_token("kick | . ^ |", 40).unwrap();
    assert_eq!(onset.token, "^");
    assert_eq!(onset.start_col, 9);
    assert!(current_onset_token("seq | C4 |", 6).is_none());
}
