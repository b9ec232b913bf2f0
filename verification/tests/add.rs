use loom::studio::add::{
    add_rest_bar_to_line, insert_row_after_cursor, insert_separator_at_row, is_modifier_line,
    is_pattern_line, modifier_insert_row, modifier_label_name, next_empty_template_name,
    next_track_header, piano_roll_track_lines, place_seq_token_at_slot, track_init_insert_row,
};
use loom::studio::track_init::{current_track_header_row, TrackInitKeySpec, TrackInitLabel};

#[test]
fn add_rest_bar_appends_grid_bar() {
    let mut line = "seq | C4 . |".to_string();
    let cursor_col = add_rest_bar_to_line(&mut line).unwrap();
    assert_eq!(line, "seq | C4 . | . . . . |");
    assert_eq!(cursor_col, 13);
}

#[test]
fn place_seq_token_replaces_current_slot() {
    let mut line = "seq | C4 . E4 |".to_string();
    let placed = place_seq_token_at_slot(0, &mut line, 9, "D4").unwrap();
    assert_eq!(line, "seq | C4 D4 E4 |");
    assert_eq!(placed.index_on_line, 1);
}

#[test]
fn place_seq_token_in_empty_bar() {
    let mut line = "seq | |".to_string();
    let placed = place_seq_token_at_slot(0, &mut line, 5, "C4").unwrap();
    assert_eq!(line, "seq | C4 |");
    assert_eq!(placed.index_on_line, 0);
}

#[test]
fn next_track_header_uses_next_track_number_and_channel() {
    let lines = vec![
        "# Piano: 1".to_string(),
        "seq | C4 |".to_string(),
        "# Bass: 3".to_string(),
    ];
    assert_eq!(next_track_header(&lines), ("Track 3".to_string(), 4));
}

#[test]
fn insert_separator_at_row_inserts_rule() {
    let mut lines = vec!["# Piano: 1".to_string(), "seq | C4 |".to_string()];
    insert_separator_at_row(&mut lines, 1);
    assert_eq!(
        lines,
        vec!["# Piano: 1".to_string(), "---".to_string(), "seq | C4 |".to_string()]
    );
}

#[test]
fn next_empty_template_name_prefers_track_name() {
    let lines = vec![
        "# Piano: 1".to_string(),
        "seq | C4 |".to_string(),
        "# @piano".to_string(),
    ];
    assert_eq!(next_empty_template_name(&lines, 1), "piano1");
}

#[test]
fn add_current_track_header_row_finds_enclosing_track() {
    let lines = vec![
        "# Piano: 1".to_string(),
        "## pc 4".to_string(),
        "seq | C4 |".to_string(),
        "# Bass: 2".to_string(),
    ];
    assert_eq!(current_track_header_row(&lines, 2), Some(0));
    assert_eq!(current_track_header_row(&lines, 3), Some(3));
}

#[test]
fn track_init_insert_row_skips_existing_init_lines() {
    let lines = vec![
        "# Piano: 1".to_string(),
        "## bank 0/32".to_string(),
        "## pc 40".to_string(),
        "seq | C4 |".to_string(),
    ];
    assert_eq!(track_init_insert_row(&lines, 3), Some((0, 3)));
}

#[test]
fn piano_roll_track_lines_create_header_and_chromatic_lanes() {
    let lines = piano_roll_track_lines("Track 2", 3);
    assert_eq!(lines.first().map(String::as_str), Some(""));
    assert_eq!(lines.get(1).map(String::as_str), Some("# Track 2: 3"));
    assert_eq!(lines.get(2).map(String::as_str), Some("C4  | . . . . |"));
    assert_eq!(lines.get(3).map(String::as_str), Some("C#4 | . . . . |"));
    assert_eq!(lines.get(9).map(String::as_str), Some("G4  | . . . . |"));
    assert_eq!(lines.last().map(String::as_str), Some("B4  | . . . . |"));
    assert_eq!(lines.len(), 14);
}

#[test]
fn modifier_rows_follow_the_pattern_line() {
    let lines = vec![
        "# Piano: 1".to_string(),
        "seq | C4 |".to_string(),
        "v | 100 |".to_string(),
        "p | 0 |".to_string(),
        "".to_string(),
    ];
    assert_eq!(modifier_insert_row(&lines, 1), Some(4));
    assert_eq!(modifier_insert_row(&lines, 2), Some(4));
    assert_eq!(modifier_insert_row(&lines, 0), None);
    assert!(is_modifier_line("v | 100 |"));
    assert!(is_pattern_line("seq | C4 |"));
    assert!(!is_pattern_line("[@riff] | x"));
    assert_eq!(modifier_label_name("p"), "pitch");
    assert_eq!(modifier_label_name("q"), "unknown");
}

#[test]
fn add_helpers_handle_edges() {
    let mut plain = "no pipes".to_string();
    assert!(add_rest_bar_to_line(&mut plain).is_err());
    assert_eq!(plain, "no pipes");
    let mut lane = "kick | ^ |".to_string();
    assert!(place_seq_token_at_slot(0, &mut lane, 6, "C4").is_err());
    let mut tight = "seq ||".to_string();
    place_seq_token_at_slot(0, &mut tight, 4, "E4").unwrap();
    assert_eq!(tight, "seq | E4 |");
    assert_eq!(insert_row_after_cursor(&[], 5), 0);
    assert_eq!(insert_row_after_cursor(&["a".to_string(), "b".to_string()], 5), 2);
    assert_eq!(next_track_header(&[]), ("Track 1".to_string(), 1));
    assert_eq!(
        next_track_header(&["# Drums: 16".to_string()]),
        ("Track 2".to_string(), 16)
    );
    let template = TrackInitKeySpec::Volume.init_template();
    assert_eq!(template.line(), "## volume 100");
    assert_eq!(template.value_col(), 10);
    assert_eq!(template.label, TrackInitLabel::Volume);
}
