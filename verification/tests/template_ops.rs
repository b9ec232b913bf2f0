use loom::studio::template_ops::{
    extract_bar_rectangle, insert_template_macro_before_closing_bracket, next_template_name,
    preferred_template_base_name, slugify_template_name, template_call_at_or_near_col,
    template_call_spans_in_line, track_template_base_name,
};

#[test]
fn extracts_selected_bar_rectangle_into_template_slices() {
    let lines = vec![
        "kick | . ^ | - . | ^ . |".to_string(),
        "snare | . . | ^ . | . . |".to_string(),
    ];

    let extraction = extract_bar_rectangle(&lines, 0, 1, 1, 1);
    assert_eq!(extraction.before_lines, vec!["kick | . ^ |", "snare | . . |"]);
    assert_eq!(extraction.template_lines, vec!["kick | - . |", "snare | ^ . |"]);
    assert_eq!(extraction.after_lines, vec!["kick | ^ . |", "snare | . . |"]);
}

#[test]
fn picks_next_template_name() {
    let lines = vec![
        "# Piano: 1".to_string(),
        "# @piano".to_string(),
        "# @piano1".to_string(),
        "# @riff".to_string(),
    ];
    assert_eq!(next_template_name(&lines, 0, 1, 2), "piano2");
}

#[test]
fn prefers_lane_name_for_single_line_template() {
    let lines = vec!["# Drums: 10".to_string(), "kick | ^ . |".to_string()];
    assert_eq!(preferred_template_base_name(&lines, 0, 1, 1), "kick");
}

#[test]
fn prefers_riff_for_single_seq_line_template() {
    let lines = vec!["# Piano: 1".to_string(), "seq | C4 E4 |".to_string()];
    assert_eq!(preferred_template_base_name(&lines, 0, 1, 1), "riff");
}

#[test]
fn template_call_span_includes_repeat_suffix() {
    let spans = template_call_spans_in_line(0, "[@riff +12]*2 [@bass]");
    assert_eq!(spans.len(), 2);
    assert_eq!(spans[0].template_name, "riff");
    assert_eq!(spans[0].raw_text, "[@riff +12]*2");
    assert_eq!(spans[1].template_name, "bass");
}

#[test]
fn template_call_at_or_near_col_prefers_span_under_cursor() {
    let span = template_call_at_or_near_col(0, "[@riff] [@bass]", 2).unwrap();
    assert_eq!(span.template_name, "riff");
}

#[test]
fn template_macro_insert_happens_before_closing_bracket() {
    let mut line = "[@riff]*2".to_string();
    let call = template_call_at_or_near_col(0, &line, 1).unwrap();
    insert_template_macro_before_closing_bracket(&mut line, &call, "arp");
    assert_eq!(line, "[@riff arp]*2");
}

#[test]
fn template_names_slug_and_fall_back() {
    assert_eq!(slugify_template_name("Lead Synth 2!"), "leadsynth2");
    assert_eq!(track_template_base_name("# Lead Synth: 3"), Some("leadsynth".to_string()));
    assert_eq!(track_template_base_name("## pc 3"), None);
    assert_eq!(track_template_base_name("# !!: 3"), None);
    let lines = vec!["# !!: 1".to_string(), "seq | C4 |".to_string(), "kick | ^ |".to_string()];
    assert_eq!(preferred_template_base_name(&lines, 0, 1, 2), "template");
    let taken = vec!["# @template".to_string(), "# !!: 1".to_string(), "x | |".to_string()];
    assert_eq!(next_template_name(&taken, 1, 2, 2), "x");
}

#[test]
fn template_call_scan_stops_at_unclosed_call() {
    let spans = template_call_spans_in_line(3, "[@a]*12x [@b");
    assert_eq!(spans.len(), 1);
    assert_eq!(spans[0].row, 3);
    assert_eq!((spans[0].start_col, spans[0].end_col, spans[0].closing_bracket_col), (0, 7, 3));
    assert!(template_call_at_or_near_col(0, "seq | C4 |", 0).is_none());
}
