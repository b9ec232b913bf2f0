use loom::studio::input::{NoteInputMode, PendingInput, StudioInputState};
use loom::studio::selection::{bar_spans_in_line, unit_spans_in_line, BarSpan, UnitSpan};
use loom::studio::selection_model::{
    nearest_unit_on_line, selected_bar_rectangle_bounds, selected_line_range, selected_unit_indices,
    selection_label, selection_visual, unit_yank_context_matches, unit_yank_context_of,
    vertical_selection_move, SelectionVisual, StudioSelection, UnitYankContext, VerticalMove,
};
use loom::studio::template_ops::template_call_spans_in_line;

fn lines() -> Vec<String> {
    vec![
        "# Lead: 1".to_string(),
        "seq | C4 . E4 | G4 - . |".to_string(),
        "seq | D4 . | F4 A4 |".to_string(),
        "[@riff] [@hook +2]".to_string(),
    ]
}

fn all_units(lines: &[String]) -> Vec<UnitSpan> {
    lines
        .iter()
        .enumerate()
        .flat_map(|(row, line)| unit_spans_in_line(row, line))
        .collect()
}

fn unit_selection(u: &UnitSpan) -> StudioSelection {
    StudioSelection::Unit {
        row: u.row,
        start_col: u.start_col,
        end_col: u.end_col,
        token: u.token.clone(),
        kind: u.kind,
    }
}

#[test]
fn line_ranges_cover_anchor_and_cursor() {
    assert_eq!(selected_line_range(&None, 3), (3, 3));
    assert_eq!(selected_line_range(&Some(StudioSelection::LineRange { anchor_row: 5 }), 2), (2, 5));
    let a = BarSpan { row: 4, start_col: 4, end_col: 15, index: 0 };
    let f = BarSpan { row: 1, start_col: 14, end_col: 25, index: 1 };
    assert_eq!(
        selected_line_range(&Some(StudioSelection::BarRange { anchor: a.clone(), focus: f.clone() }), 0),
        (1, 4)
    );
    assert_eq!(selected_bar_rectangle_bounds(&a, &f), ((1, 4), (0, 1)));
}

#[test]
fn the_visual_selection_runs_from_the_earlier_end() {
    let ls = lines();
    let units = unit_spans_in_line(1, &ls[1]);
    let sel = Some(StudioSelection::UnitRange { anchor: units[2].clone(), focus: units[0].clone() });
    assert_eq!(
        selection_visual(&sel, 0, &ls),
        Some(SelectionVisual { from: (1, units[0].start_col), to: Some((1, units[2].end_col)) })
    );
    let line_sel = Some(StudioSelection::LineRange { anchor_row: 2 });
    assert_eq!(
        selection_visual(&line_sel, 1, &ls),
        Some(SelectionVisual { from: (2, ls[2].chars().count()), to: Some((1, 0)) })
    );
    let bars1 = bar_spans_in_line(1, &ls[1]);
    let bars2 = bar_spans_in_line(2, &ls[2]);
    let across = Some(StudioSelection::BarRange { anchor: bars1[0].clone(), focus: bars2[1].clone() });
    assert_eq!(
        selection_visual(&across, 0, &ls),
        Some(SelectionVisual { from: (2, bars2[1].start_col), to: None })
    );
    assert_eq!(selection_visual(&None, 0, &ls), None);
}

#[test]
fn moving_down_selects_the_nearest_unit_or_the_same_bar() {
    let ls = lines();
    let units = unit_spans_in_line(1, &ls[1]);
    let e4 = &units[2];
    match vertical_selection_move(&Some(unit_selection(e4)), &ls, 1) {
        VerticalMove::Select(StudioSelection::Unit { row, token, .. }) => {
            assert_eq!(row, 2);
            let nearest = nearest_unit_on_line(&ls, 2, e4.start_col).unwrap();
            assert_eq!(token, nearest.token);
        }
        _ => panic!("expected a unit selection"),
    }
    let bars = bar_spans_in_line(1, &ls[1]);
    match vertical_selection_move(&Some(StudioSelection::Bar { span: bars[1].clone() }), &ls, 1) {
        VerticalMove::Select(StudioSelection::Bar { span }) => {
            assert_eq!(span.row, 2);
            assert_eq!(span.index, 1);
        }
        _ => panic!("expected a bar selection"),
    }
    match vertical_selection_move(&Some(StudioSelection::Bar { span: bars[0].clone() }), &ls, -1) {
        VerticalMove::Status(m) => assert_eq!(m, "No matching bar on target line"),
        _ => panic!("expected a status"),
    }
    match vertical_selection_move(&Some(unit_selection(e4)), &ls, -1) {
        VerticalMove::Status(m) => assert_eq!(m, "No unit on target line"),
        _ => panic!("expected a status"),
    }
    let calls = template_call_spans_in_line(3, &ls[3]);
    match vertical_selection_move(&Some(StudioSelection::TemplateCall { span: calls[0].duplicate() }), &ls, 1) {
        VerticalMove::Status(m) => assert_eq!(m, "No more lines"),
        _ => panic!("expected a status"),
    }
    match vertical_selection_move(&Some(StudioSelection::LineRange { anchor_row: 1 }), &ls, -1) {
        VerticalMove::MoveCursor { up } => assert!(up),
        _ => panic!("expected a cursor move"),
    }
    match vertical_selection_move(&None, &ls, 1) {
        VerticalMove::Status(m) => assert_eq!(m, "No selection"),
        _ => panic!("expected a status"),
    }
}

#[test]
fn labels_name_what_is_selected() {
    let ls = lines();
    let notes = all_units(&ls);
    let u = &notes[0];
    assert_eq!(
        selection_label(&Some(unit_selection(u)), 0, &notes),
        format!("token {} at line 2, col {}", u.token, u.start_col + 1)
    );
    let range = Some(StudioSelection::UnitRange { anchor: notes[3].clone(), focus: notes[1].clone() });
    assert_eq!(selected_unit_indices(&notes, &range), vec![1, 2, 3]);
    assert_eq!(
        selection_label(&range, 0, &notes),
        format!("3 tokens from {} to {}", notes[1].token, notes[3].token)
    );
    let bars1 = bar_spans_in_line(1, &ls[1]);
    let bars2 = bar_spans_in_line(2, &ls[2]);
    assert_eq!(selection_label(&Some(StudioSelection::Bar { span: bars1[1].clone() }), 0, &notes), "bar 2 on line 2");
    assert_eq!(
        selection_label(
            &Some(StudioSelection::BarRange { anchor: bars1[0].clone(), focus: bars2[1].clone() }),
            0,
            &notes
        ),
        "bars 1..2 across lines 2..3"
    );
    assert_eq!(selection_label(&Some(StudioSelection::LineRange { anchor_row: 0 }), 2, &notes), "lines 1..3");
    assert_eq!(selection_label(&None, 2, &notes), "line 3");
}

#[test]
fn pending_inputs_prompt_and_answer() {
    assert_eq!(
        PendingInput::Note(NoteInputMode::Single).prompt(4),
        "Note: keyboard piano key | . rest | - sustain | z/x octave | Esc cancel | octave 4"
    );
    assert_eq!(PendingInput::Goto.prompt(4), PendingInput::Goto.help_text());
    assert_eq!(PendingInput::Onset(NoteInputMode::Continuous).cancel_message(), "Continuous onset edit cancelled");
    assert_eq!(
        PendingInput::TemplateMacro.unknown_message(),
        "Unknown template macro command. Template macro: a arp | r rev | s strum | Esc cancel"
    );
    assert!(PendingInput::Note(NoteInputMode::Continuous).is_continuous());
    assert!(!PendingInput::Add.is_continuous());
    let mut state = StudioInputState::new();
    state.begin(PendingInput::Add);
    assert_eq!(state.pending(), Some(PendingInput::Add));
    assert_eq!(state.take_pending(), Some(PendingInput::Add));
    assert_eq!(state.pending(), None);
}

#[test]
fn yank_context_follows_the_kind_of_line_and_units() {
    let seq = "seq | C4 . E4 |";
    let seq_units = unit_spans_in_line(0, seq);
    assert_eq!(unit_yank_context_of(seq, &seq_units), Some(UnitYankContext::SeqLine));
    assert!(unit_yank_context_matches(UnitYankContext::SeqLine, seq, &seq_units));

    let lane = "kick | x . x - |";
    let lane_units = unit_spans_in_line(0, lane);
    assert!(!lane_units.is_empty());
    assert_eq!(unit_yank_context_of(lane, &lane_units), Some(UnitYankContext::LaneBody));
    assert!(!unit_yank_context_matches(UnitYankContext::SeqLine, lane, &lane_units));
    assert!(!unit_yank_context_matches(UnitYankContext::Modifier, lane, &lane_units));

    let vel = "v | 80 . 90 |";
    let vel_units = unit_spans_in_line(0, vel);
    assert!(!vel_units.is_empty());
    assert_eq!(unit_yank_context_of(vel, &vel_units), Some(UnitYankContext::Modifier));
    assert!(!unit_yank_context_matches(UnitYankContext::Modifier, seq, &seq_units));
}
