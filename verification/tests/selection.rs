use loom::studio::selection::{
    bar_at_or_near_col, bar_spans_in_line, delete_unit, group_span_containing_col, insert_at_col,
    next_unit_after_position, ordered_bar_span_bounds, ordered_unit_span_bounds,
    previous_unit_before_position, replace_char_range, unit_at_or_near_col, unit_spans_in_line,
    UnitKind,
};

#[test]
fn token_spans_seq_body_includes_rest_and_sustain() {
    let spans = unit_spans_in_line(0, "seq | D4 . Eb4 - A#3 |");
    let tokens: Vec<_> = spans.iter().map(|span| span.token.as_str()).collect();
    let kinds: Vec<_> = spans.iter().map(|span| span.kind).collect();
    assert_eq!(tokens, vec!["D4", ".", "Eb4", "-", "A#3"]);
    assert_eq!(
        kinds,
        vec![
            UnitKind::Pitch,
            UnitKind::SeqRest,
            UnitKind::Pitch,
            UnitKind::SeqSustain,
            UnitKind::Pitch
        ]
    );
}

#[test]
fn note_spans_note_head_and_lane_body() {
    let spans = unit_spans_in_line(0, "F4,C5 | ^ . |");
    let tokens: Vec<_> = spans.iter().map(|span| span.token.as_str()).collect();
    let kinds: Vec<_> = spans.iter().map(|span| span.kind).collect();
    assert_eq!(tokens, vec!["F4", "C5", "^", "."]);
    assert_eq!(
        kinds,
        vec![
            UnitKind::Pitch,
            UnitKind::Pitch,
            UnitKind::LaneNoteOn,
            UnitKind::LaneRest,
        ]
    );
}

#[test]
fn note_spans_drum_lane_body_excludes_drum_head() {
    let spans = unit_spans_in_line(0, "kick | ^ . - |");
    let tokens: Vec<_> = spans.iter().map(|span| span.token.as_str()).collect();
    let kinds: Vec<_> = spans.iter().map(|span| span.kind).collect();
    assert_eq!(tokens, vec!["^", ".", "-"]);
    assert_eq!(
        kinds,
        vec![
            UnitKind::LaneNoteOn,
            UnitKind::LaneRest,
            UnitKind::LaneSustain,
        ]
    );
}

#[test]
fn modifier_lines_are_reserved_for_future_scanner() {
    let spans = unit_spans_in_line(0, "v | !80 . 60 |");
    let tokens: Vec<_> = spans.iter().map(|span| span.token.as_str()).collect();
    let kinds: Vec<_> = spans.iter().map(|span| span.kind).collect();
    assert_eq!(tokens, vec!["!80", ".", "60"]);
    assert_eq!(
        kinds,
        vec![
            UnitKind::ModifierValue,
            UnitKind::ModifierEmpty,
            UnitKind::ModifierValue,
        ]
    );
}

#[test]
fn modifier_group_values_are_selectable() {
    let spans = unit_spans_in_line(0, "p | [+2 . -1] 0 |");
    let tokens: Vec<_> = spans.iter().map(|span| span.token.as_str()).collect();
    assert_eq!(tokens, vec!["+2", ".", "-1", "0"]);
}

#[test]
fn replace_selected_note_token() {
    let mut line = "seq | D4 . Eb4 |".to_string();
    let span = unit_spans_in_line(0, &line)
        .into_iter()
        .find(|span| span.token == "Eb4")
        .unwrap();
    replace_char_range(&mut line, span.start_col, span.end_col, "E4");
    assert_eq!(line, "seq | D4 . E4 |");
}

#[test]
fn delete_unit_removes_following_space() {
    let mut line = "seq | C4 D4 E4 |".to_string();
    let span = unit_spans_in_line(0, &line)
        .into_iter()
        .find(|span| span.token == "D4")
        .unwrap();
    delete_unit(&mut line, &span);
    assert_eq!(line, "seq | C4 E4 |");
}

#[test]
fn delete_unit_removes_adjacent_comma() {
    let mut line = "F4,C5,D5 | ^ |".to_string();
    let span = unit_spans_in_line(0, &line)
        .into_iter()
        .find(|span| span.token == "C5")
        .unwrap();
    delete_unit(&mut line, &span);
    assert_eq!(line, "F4,D5 | ^ |");
}

#[test]
fn delete_rest_token_removes_following_space() {
    let mut line = "seq | C4 . E4 |".to_string();
    let span = unit_spans_in_line(0, &line)
        .into_iter()
        .find(|span| span.token == ".")
        .unwrap();
    delete_unit(&mut line, &span);
    assert_eq!(line, "seq | C4 E4 |");
}

#[test]
fn insert_at_col_inserts_text() {
    let mut line = "seq | C4 D4 E4 |".to_string();
    let span = unit_spans_in_line(0, &line)
        .into_iter()
        .find(|span| span.token == "D4")
        .unwrap();
    insert_at_col(&mut line, span.end_col, " D4");
    assert_eq!(line, "seq | C4 D4 D4 E4 |");
}

#[test]
fn note_select_uses_note_under_cursor() {
    let notes = unit_spans_in_line(0, "seq | D4 . Eb4 |");
    let selected = unit_at_or_near_col(notes, 6).unwrap();
    assert_eq!(selected.token, "D4");
}

#[test]
fn note_select_falls_forward() {
    let notes = unit_spans_in_line(0, "seq | D4 . Eb4 |");
    let selected = unit_at_or_near_col(notes, 9).unwrap();
    assert_eq!(selected.token, ".");
}

#[test]
fn note_select_falls_back_to_last_note() {
    let notes = unit_spans_in_line(0, "seq | D4 . Eb4 |");
    let selected = unit_at_or_near_col(notes, 99).unwrap();
    assert_eq!(selected.token, "Eb4");
}

#[test]
fn ordered_unit_span_bounds_sorts_by_position() {
    let notes = unit_spans_in_line(0, "seq | D4 . Eb4 |");
    let (start, end) = ordered_unit_span_bounds(&notes[2], &notes[0]);
    assert_eq!(start.token, "D4");
    assert_eq!(end.token, "Eb4");
}

#[test]
fn next_unit_skips_current_unit() {
    let notes = unit_spans_in_line(0, "seq | D4 . Eb4 |");
    let next = next_unit_after_position(&notes, 0, 6).unwrap();
    assert_eq!(next.token, ".");
}

#[test]
fn previous_unit_returns_prior_unit() {
    let notes = unit_spans_in_line(0, "seq | D4 . Eb4 |");
    let previous = previous_unit_before_position(&notes, 0, 10).unwrap();
    assert_eq!(previous.token, ".");
}

#[test]
fn next_unit_crosses_lines() {
    let mut notes = unit_spans_in_line(0, "seq | D4 . |");
    notes.extend(unit_spans_in_line(1, "kick | ^ . |"));
    let next = next_unit_after_position(&notes, 0, 9).unwrap();
    assert_eq!(next.row, 1);
    assert_eq!(next.token, "^");
}

#[test]
fn group_span_containing_col_returns_selected_element() {
    let group = group_span_containing_col("seq | [C4 .] . |", 8).unwrap();
    assert_eq!(group.selected_element, "C4");
}

#[test]
fn group_span_containing_col_uses_nearest_nested_group() {
    let line = "[^ [^ ^]]";
    let group = group_span_containing_col(line, 4).unwrap();
    assert_eq!(group.selected_element, "^");
    assert_eq!((group.start_col, group.end_col), (3, 8));
}

#[test]
fn group_span_containing_col_keeps_nested_selected_element() {
    let line = "seq | [[C4 .] [. .]] . |";
    let group = group_span_containing_col(line, 9).unwrap();
    assert_eq!(group.selected_element, "C4");
    assert_eq!((group.start_col, group.end_col), (7, 13));
}

#[test]
fn group_span_containing_col_picks_element_under_cursor() {
    let line = "seq | [C4 .] . |";
    let left = group_span_containing_col(line, 7).unwrap();
    let right = group_span_containing_col(line, 10).unwrap();
    assert_eq!(left.selected_element, "C4");
    assert_eq!(right.selected_element, ".");
}

#[test]
fn bar_spans_select_between_pipes_including_delimiters() {
    let bars = bar_spans_in_line(0, "C4 | ^ . | . ^ |");
    assert_eq!(bars.len(), 2);
    assert_eq!(
        (bars[0].start_col, bars[0].end_col, bars[0].index),
        (3, 10, 0)
    );
    assert_eq!(
        (bars[1].start_col, bars[1].end_col, bars[1].index),
        (9, 16, 1)
    );
}

#[test]
fn bar_select_falls_forward_and_back() {
    let bars = bar_spans_in_line(0, "seq | C4 . | D4 . |");
    assert_eq!(bar_at_or_near_col(bars.clone(), 6).unwrap().index, 0);
    assert_eq!(bar_at_or_near_col(bars.clone(), 13).unwrap().index, 1);
    assert_eq!(bar_at_or_near_col(bars, 99).unwrap().index, 1);
}

#[test]
fn ordered_bar_span_bounds_sorts_by_position() {
    let bars = bar_spans_in_line(0, "seq | C4 . | D4 . |");
    let (start, end) = ordered_bar_span_bounds(&bars[1], &bars[0]);
    assert_eq!(start.index, 0);
    assert_eq!(end.index, 1);
}
