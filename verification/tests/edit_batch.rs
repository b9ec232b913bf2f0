use loom::studio::edit_batch::{
    adjust_calls_in_lines, adjust_label, CallAdjust,
    apply_span_edits, delete_calls_in_lines, delete_units_in_lines, replace_units_in_lines,
    replacement_verb, shrink_groups_in_lines, stable_order_of, subdivide_units_in_lines, BatchRefusal, EditAction,
    SpanEdit,
};
use loom::studio::edit_batch::{place_onsets_in_lines, toggle_onsets_in_lines};
use loom::studio::onset::{place_onset_at_cursor, toggle_onset_at_cursor, OnsetRefusal};
use loom::studio::selection::unit_spans_in_line;
use loom::studio::template_ops::template_call_spans_in_line;

fn strings(v: &[&str]) -> Vec<String> {
    v.iter().map(|s| s.to_string()).collect()
}

#[test]
fn stable_order_sorts_by_row_then_column() {
    let keys = vec![(0, 5), (1, 2), (0, 1), (1, 2)];
    assert_eq!(stable_order_of(&keys, true), vec![1, 3, 0, 2]);
    assert_eq!(stable_order_of(&keys, false), vec![2, 0, 1, 3]);
    assert_eq!(stable_order_of(&[], true), Vec::<usize>::new());
}

#[test]
fn edits_apply_one_after_the_other() {
    let mut lines = strings(&["abcdef"]);
    let edits = vec![
        SpanEdit { row: 0, start_col: 4, end_col: 6, action: EditAction::Replace("XY".to_string()) },
        SpanEdit { row: 0, start_col: 0, end_col: 1, action: EditAction::Replace("".to_string()) },
        SpanEdit { row: 3, start_col: 0, end_col: 1, action: EditAction::DeleteUnit },
    ];
    apply_span_edits(&mut lines, &edits);
    assert_eq!(lines, strings(&["bcdXY"]));
}

#[test]
fn deleting_units_works_from_the_last() {
    let line = "seq | C4 D4 E4 |";
    let units = unit_spans_in_line(0, line);
    let mut lines = strings(&[line]);
    let selected = vec![units[0].clone(), units[2].clone()];
    assert_eq!(delete_units_in_lines(&mut lines, &selected), Ok(2));
    assert_eq!(lines, strings(&["seq | D4 |"]));

    let mut lines = strings(&["seq | C4 D4 |", "seq | E4 F4 |"]);
    let a = unit_spans_in_line(0, &lines[0])[0].clone();
    let b = unit_spans_in_line(1, &lines[1])[1].clone();
    assert_eq!(delete_units_in_lines(&mut lines, &[a, b]), Ok(2));
    assert_eq!(lines, strings(&["seq | D4 |", "seq | E4 |"]));

    let mut lines = strings(&[line]);
    assert_eq!(delete_units_in_lines(&mut lines, &[]), Err(BatchRefusal::DeleteNeedsUnits));
    let mut far = units[0].clone();
    far.row = 9;
    assert_eq!(delete_units_in_lines(&mut lines, &[far]), Err(BatchRefusal::UnitGone));
    assert_eq!(lines, strings(&[line]));
    assert_eq!(BatchRefusal::UnitGone.message(), "Selected unit no longer exists");
}

#[test]
fn deleting_a_unit_inside_a_group_keeps_the_comma_before_it() {
    let line = "seq | [C4, D4] E4 |";
    let units = unit_spans_in_line(0, line);
    let d4 = units.iter().find(|u| u.token == "D4").unwrap().clone();
    let mut lines = strings(&[line]);
    assert_eq!(delete_units_in_lines(&mut lines, &[d4]), Ok(1));
    assert_eq!(lines, strings(&["seq | [C4,] E4 |"]));
}

#[test]
fn replacing_units_and_its_refusals() {
    let line = "seq | C4 D4 E4 |";
    let units = unit_spans_in_line(0, line);
    let mut lines = strings(&[line]);
    assert_eq!(replace_units_in_lines(&mut lines, &units[0..2], "."), Ok(2));
    assert_eq!(lines, strings(&["seq | . . E4 |"]));
    assert_eq!(replacement_verb("."), "Rested");
    assert_eq!(replacement_verb("-"), "Sustained");
    assert_eq!(replacement_verb("G4"), "Replaced");

    let lane = "kick | ^ . |";
    let lane_units = unit_spans_in_line(0, lane);
    let mut lines = strings(&[lane]);
    assert_eq!(
        replace_units_in_lines(&mut lines, &lane_units, "C4"),
        Err(BatchRefusal::NoteEntryOnLaneBody)
    );
    assert_eq!(replace_units_in_lines(&mut lines, &lane_units[0..1], "."), Ok(1));
    assert_eq!(lines, strings(&["kick | . . |"]));
    assert_eq!(lane_units[0].token, "^");

    let vel = "v | 80 90 |";
    let vel_units = unit_spans_in_line(0, vel);
    let mut lines = strings(&[vel]);
    assert_eq!(
        replace_units_in_lines(&mut lines, &vel_units, "."),
        Err(BatchRefusal::NoteEntryOnModifier)
    );
    assert_eq!(
        replace_units_in_lines(&mut lines, &[], "."),
        Err(BatchRefusal::ReplaceNeedsUnits)
    );
    assert_eq!(lines, strings(&[vel]));
}

#[test]
fn subdividing_units_doubles_the_selection() {
    let line = "seq | C4 D4 E4 |";
    let units = unit_spans_in_line(0, line);
    let mut lines = strings(&[line]);
    assert_eq!(
        subdivide_units_in_lines(&mut lines, &units[0..2], &[0, 1]),
        Ok(vec![0, 1, 2, 3])
    );
    assert_eq!(lines, strings(&["seq | [C4 .] [D4 .] E4 |"]));

    let mut far = units[0].clone();
    far.row = 4;
    let mut lines = strings(&[line]);
    assert_eq!(
        subdivide_units_in_lines(&mut lines, &[far], &[0]),
        Err(BatchRefusal::SubdivideNeedsSeqOrLane)
    );
    let mut lines = strings(&[line]);
    assert_eq!(
        subdivide_units_in_lines(&mut lines, &units[0..1], &[]),
        Err(BatchRefusal::SubdivideNeedsUnits)
    );
    assert_eq!(lines, strings(&[line]));
}

#[test]
fn deleting_template_calls_works_from_the_last() {
    let line = "[@a] [@b] [@c]";
    let calls = template_call_spans_in_line(0, line);
    let selected = vec![calls[0].duplicate(), calls[2].duplicate()];
    let mut lines = strings(&[line]);
    assert_eq!(delete_calls_in_lines(&mut lines, &selected), Ok(2));
    assert_eq!(lines, strings(&["[@b]"]));
    assert_eq!(delete_calls_in_lines(&mut lines, &[]), Err(BatchRefusal::DeleteNeedsCalls));
}

#[test]
fn shrinking_groups_keeps_the_element_under_each_unit() {
    let line = "seq | [C4 D4] E4 |";
    let units = unit_spans_in_line(0, line);
    let find = |t: &str| units.iter().find(|u| u.token == t).unwrap().clone();
    let mut lines = strings(&[line]);
    assert_eq!(shrink_groups_in_lines(&mut lines, &[find("D4")]), Ok(vec![(0, 6)]));
    assert_eq!(lines, strings(&["seq | D4 E4 |"]));

    let mut lines = strings(&[line]);
    assert_eq!(shrink_groups_in_lines(&mut lines, &[find("D4"), find("C4")]), Ok(vec![(0, 6)]));
    assert_eq!(lines, strings(&["seq | C4 E4 |"]));

    let mut lines = strings(&[line]);
    assert_eq!(shrink_groups_in_lines(&mut lines, &[find("E4")]), Err(BatchRefusal::ShrinkNeedsGroups));
    assert_eq!(shrink_groups_in_lines(&mut lines, &[]), Err(BatchRefusal::ShrinkNeedsUnits));
    assert_eq!(lines, strings(&[line]));

    let two = "seq | [C4 D4] [E4 F4] |";
    let units = unit_spans_in_line(0, two);
    let d4 = units.iter().find(|u| u.token == "D4").unwrap().clone();
    let e4 = units.iter().find(|u| u.token == "E4").unwrap().clone();
    let mut lines = strings(&[two]);
    assert_eq!(shrink_groups_in_lines(&mut lines, &[e4, d4]), Ok(vec![(0, 6), (0, 14)]));
    assert_eq!(lines, strings(&["seq | D4 E4 |"]));
}

#[test]
fn adjusting_template_calls_works_from_the_last() {
    let line = "[@a] [@b +2]";
    let calls = template_call_spans_in_line(0, line);
    let mut lines = strings(&[line]);
    assert_eq!(adjust_calls_in_lines(&mut lines, &calls, CallAdjust::Transpose, 1), Ok(2));
    assert_eq!(lines, strings(&["[@a +1] [@b +3]"]));
    assert_eq!(adjust_label(CallAdjust::Transpose, 2, 1), "Transposed 2 template calls by +1");

    let line = "[@a x2]";
    let calls = template_call_spans_in_line(0, line);
    let mut lines = strings(&[line]);
    assert_eq!(adjust_calls_in_lines(&mut lines, &calls, CallAdjust::Repeat, -1), Ok(1));
    assert_eq!(lines, strings(&["[@a]"]));
    assert_eq!(adjust_label(CallAdjust::Repeat, 1, -1), "Adjusted repeat on 1 template call by -1");
    assert_eq!(adjust_label(CallAdjust::TimeScale, 3, 0), "Adjusted time-scale on 3 template calls by +0");

    let mut lines = strings(&[line]);
    assert_eq!(
        adjust_calls_in_lines(&mut lines, &[], CallAdjust::Repeat, 1),
        Err(BatchRefusal::NoCallSelected)
    );
    let mut far = calls[0].duplicate();
    far.row = 3;
    assert_eq!(
        adjust_calls_in_lines(&mut lines, &[far], CallAdjust::Repeat, 1),
        Err(BatchRefusal::CallGone)
    );
    let mut bad = calls[0].duplicate();
    bad.raw_text = "nonsense".to_string();
    assert_eq!(
        adjust_calls_in_lines(&mut lines, &[bad], CallAdjust::TimeScale, 1),
        Err(BatchRefusal::InvalidCallForTimeScale)
    );
    assert_eq!(lines, strings(&[line]));
}

#[test]
fn onsets_of_selected_lane_units() {
    let line = "kick | ^ . - |";
    let units = unit_spans_in_line(0, line);
    let mut lines = strings(&[line]);
    assert_eq!(place_onsets_in_lines(&mut lines, &units, '.'), Ok(3));
    assert_eq!(lines, strings(&["kick | . . . |"]));

    let mut lines = strings(&[line]);
    assert_eq!(toggle_onsets_in_lines(&mut lines, &units), Ok(3));
    assert_eq!(lines, strings(&["kick | . ^ ^ |"]));

    let seq = "seq | C4 |";
    let seq_units = unit_spans_in_line(0, seq);
    let mut lines = strings(&[seq]);
    assert_eq!(
        place_onsets_in_lines(&mut lines, &seq_units, '^'),
        Err(BatchRefusal::OnsetNeedsLaneBody)
    );
    assert_eq!(toggle_onsets_in_lines(&mut lines, &[]), Err(BatchRefusal::ToggleNeedsTokens));
    assert_eq!(lines, strings(&[seq]));
}

#[test]
fn onsets_at_the_cursor() {
    let mut lines = strings(&["kick | . . |"]);
    assert_eq!(place_onset_at_cursor(&mut lines, 0, 7, '^'), Ok(('^', 7)));
    assert_eq!(lines, strings(&["kick | ^ . |"]));
    assert_eq!(toggle_onset_at_cursor(&mut lines, 0, 7), Ok(('.', 7)));
    assert_eq!(lines, strings(&["kick | . . |"]));
    assert_eq!(toggle_onset_at_cursor(&mut lines, 0, 9), Ok(('^', 9)));
    assert_eq!(lines, strings(&["kick | . ^ |"]));
    assert_eq!(place_onset_at_cursor(&mut lines, 4, 0, '^'), Err(OnsetRefusal::NoCurrentLine));
    let mut seq = strings(&["seq | C4 |"]);
    assert_eq!(place_onset_at_cursor(&mut seq, 0, 7, '^'), Err(OnsetRefusal::PlaceNeedsLane));
    assert_eq!(toggle_onset_at_cursor(&mut seq, 0, 7), Err(OnsetRefusal::ToggleNeedsLane));
    assert_eq!(seq, strings(&["seq | C4 |"]));
}
