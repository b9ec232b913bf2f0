use loom::studio::settings::{format_track_header, parse_track_header, TrackHeader};
use loom::studio::template_ops::template_call_spans_in_line;
use loom::studio::track_init::{
    current_track_header_row, is_track_init_line, track_init_key_for_char, TrackInitKeySpec,
    TrackInitLabel,
};
use loom::studio::track_ops::{
    adjacent_track_header_row, current_track_index, find_track_init_row, modifier_line_kind,
    template_call_text_without_macro_at_cursor, template_definition_delete_span,
    track_delete_span, track_header_rows,
};
use loom::studio::track_init::track_init_label_of_line;

#[test]
fn track_header_rows_collect_headers_only() {
    let lines = vec![
        "# Piano: 1".to_string(),
        "seq | C4 |".to_string(),
        "".to_string(),
        "# Drums: 10 x".to_string(),
    ];
    assert_eq!(track_header_rows(&lines), vec![0, 3]);
}

#[test]
fn current_track_index_uses_previous_header() {
    let lines = vec![
        "# Piano: 1".to_string(),
        "seq | C4 |".to_string(),
        "".to_string(),
        "# Drums: 10".to_string(),
    ];
    assert_eq!(current_track_index(&lines, 1), Some(0));
    assert_eq!(current_track_index(&lines, 3), Some(1));
}

#[test]
fn adjacent_track_header_row_moves_between_headers() {
    let rows = vec![1, 4, 8];
    assert_eq!(adjacent_track_header_row(&rows, 0, 1), Some(1));
    assert_eq!(adjacent_track_header_row(&rows, 1, 1), Some(4));
    assert_eq!(adjacent_track_header_row(&rows, 7, -1), Some(1));
    assert_eq!(adjacent_track_header_row(&rows, 1, -1), None);
}

#[test]
fn track_delete_span_removes_leading_separator_blank() {
    let lines = vec![
        "# Piano: 1".to_string(),
        "seq | C4 |".to_string(),
        "".to_string(),
        "# Drums: 10".to_string(),
        "kick | ^ |".to_string(),
    ];
    let headers = track_header_rows(&lines);
    assert_eq!(track_delete_span(&lines, &headers, 1), (2, 5, 3));
}

#[test]
fn track_delete_span_can_cover_last_remaining_track() {
    let lines = vec!["# Piano: 1".to_string(), "seq | C4 |".to_string()];
    let headers = track_header_rows(&lines);
    assert_eq!(track_delete_span(&lines, &headers, 0), (0, 2, 0));
}

#[test]
fn track_header_toggle_helpers_keep_canonical_solo_mute_order() {
    let header = parse_track_header("# Bass: 2 x s").unwrap();
    assert_eq!(format_track_header(&header), "# Bass: 2 s x");
}

#[test]
fn track_header_clear_helper_removes_solo_and_mute_flags() {
    let header = parse_track_header("# Bass: 2 s x").unwrap();
    assert_eq!(
        format_track_header(&TrackHeader {
            solo: false,
            muted: false,
            ..header
        }),
        "# Bass: 2"
    );
}

#[test]
fn modifier_line_kind_detects_velocity_and_pitch_lines() {
    assert_eq!(modifier_line_kind("v  | . . . |"), Some("v"));
    assert_eq!(modifier_line_kind("p  | 0 1 2 |"), Some("p"));
    assert_eq!(modifier_line_kind("seq | C4 |"), None);
}

#[test]
fn template_definition_delete_span_includes_leading_blank() {
    let lines = vec![
        "# Piano: 1".to_string(),
        "seq | C4 |".to_string(),
        "".to_string(),
        "# @riff".to_string(),
        "seq | C4 . |".to_string(),
        "kick | ^ . |".to_string(),
        "".to_string(),
        "# Bass: 2".to_string(),
    ];

    assert_eq!(
        template_definition_delete_span(&lines, 4),
        Some((2, 6, 3, "riff".to_string()))
    );
    assert_eq!(
        template_definition_delete_span(&lines, 5),
        Some((2, 6, 3, "riff".to_string()))
    );
    assert_eq!(template_definition_delete_span(&lines, 7), None);
}

#[test]
fn template_call_macro_delete_removes_selected_macro() {
    let line = "[@riff +12 arp rev]*2";
    let call = template_call_spans_in_line(0, line).remove(0);

    assert_eq!(
        template_call_text_without_macro_at_cursor(call.start_col + 12, &call),
        Some(("[@riff +12 rev]*2".to_string(), "arp"))
    );
}

#[test]
fn track_init_label_of_line_parses_supported_labels() {
    assert_eq!(track_init_label_of_line("## pc 30"), Some(TrackInitLabel::Pc));
    assert_eq!(track_init_label_of_line("## pan 64"), Some(TrackInitLabel::Pan));
    assert_eq!(track_init_label_of_line("seq | C4 |"), None);
}

#[test]
fn find_track_init_row_prefers_cursor_for_cc() {
    let lines = vec![
        "# Piano: 1".to_string(),
        "## cc 1 20".to_string(),
        "## cc 7 100".to_string(),
        "seq | C4 |".to_string(),
    ];

    assert_eq!(
        find_track_init_row(&lines, 0, 2, TrackInitKeySpec::Cc),
        Some(2)
    );
    assert_eq!(
        find_track_init_row(&lines, 0, 3, TrackInitKeySpec::Cc),
        None
    );
}

#[test]
fn track_init_current_track_header_row_finds_enclosing_track() {
    let lines = vec![
        "# Piano: 1".to_string(),
        "## pc 4".to_string(),
        "seq | C4 |".to_string(),
        "# Bass: 2".to_string(),
    ];
    assert_eq!(current_track_header_row(&lines, 2), Some(0));
    assert_eq!(current_track_header_row(&lines, 3), Some(3));
}

#[test]
fn track_init_keys_and_lines() {
    assert_eq!(track_init_key_for_char('p'), Some(TrackInitKeySpec::Pc));
    assert_eq!(track_init_key_for_char('n'), Some(TrackInitKeySpec::Pan));
    assert_eq!(track_init_key_for_char('s'), Some(TrackInitKeySpec::Sustain));
    assert_eq!(track_init_key_for_char('v'), Some(TrackInitKeySpec::Volume));
    assert_eq!(track_init_key_for_char('q'), None);
    assert_eq!(TrackInitKeySpec::Expression.label(), "expression");
    assert_eq!(TrackInitKeySpec::Cancel.label_kind(), None);
    assert!(is_track_init_line("  ## pc 3"));
    assert!(!is_track_init_line("##pc 3"));
    assert_eq!(track_init_label_of_line("  ## SOUND piano"), Some(TrackInitLabel::Sound));
}

#[test]
fn find_track_init_row_matches_sound_for_pc_and_stops_at_body() {
    let lines = vec![
        "# Piano: 1".to_string(),
        "## sound piano".to_string(),
        "seq | C4 |".to_string(),
        "## pan 3".to_string(),
    ];
    assert_eq!(find_track_init_row(&lines, 0, 0, TrackInitKeySpec::Pc), Some(1));
    assert_eq!(find_track_init_row(&lines, 0, 0, TrackInitKeySpec::Pan), None);
    assert_eq!(find_track_init_row(&lines, 0, 1, TrackInitKeySpec::Cancel), None);
}

#[test]
fn current_track_header_row_falls_back_to_first_track() {
    let lines = vec!["".to_string(), "# Piano: 1".to_string()];
    assert_eq!(current_track_header_row(&lines, 0), Some(1));
    assert_eq!(current_track_index(&lines, 0), Some(0));
    assert_eq!(current_track_header_row(&["seq | C4 |".to_string()], 5), None);
}
