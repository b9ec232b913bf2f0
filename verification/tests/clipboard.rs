use loom::studio::clipboard::{
    count_label, delete_bars_in_lines, paste_bar_row_after_cursor, paste_bars_after_selection,
    paste_insertion, paste_route, paste_template_calls_after_cursor,
    paste_template_calls_after_selection, paste_units_after_cursor, paste_units_after_selection,
    selected_bar_runs, selection_target, yank_selected_bars, yank_template_calls, yank_units,
    ClipboardRefusal, PasteRoute, SelectionTarget, YankBuffer, YankedBarRow,
};
use loom::studio::selection::{bar_spans_in_line, unit_spans_in_line, BarSpan};
use loom::studio::selection_model::{StudioSelection, UnitYankContext};
use loom::studio::template_ops::template_call_spans_in_line;

fn strings(v: &[&str]) -> Vec<String> {
    v.iter().map(|s| s.to_string()).collect()
}

#[test]
fn count_label_uses_plural_unless_one() {
    assert_eq!(count_label("Deleted", 1, "bar"), "Deleted 1 bar");
    assert_eq!(count_label("Deleted", 2, "bar"), "Deleted 2 bars");
    assert_eq!(count_label("Pasted", 0, "template call"), "Pasted 0 template calls");
}

#[test]
fn paste_insertion_starts_with_a_space() {
    assert_eq!(paste_insertion(&strings(&["C4", "D4"])), " C4 D4");
    assert_eq!(paste_insertion(&strings(&["C4"])), " C4");
    assert_eq!(paste_insertion(&[]), " ");
}

#[test]
fn deleting_bars_cuts_from_first_to_last() {
    let line = "seq | C4 D4 | E4 F4 | G4 |";
    let bars = bar_spans_in_line(0, line);
    let mut lines = strings(&[line]);
    assert_eq!(delete_bars_in_lines(&mut lines, &bars[0..2]), Ok(()));
    assert_eq!(lines, strings(&["seq | G4 |"]));
}

#[test]
fn deleting_bars_refusals_leave_lines() {
    let line = "seq | C4 | D4 |";
    let bars = bar_spans_in_line(0, line);
    let mut lines = strings(&[line]);
    assert_eq!(delete_bars_in_lines(&mut lines, &[]), Err(ClipboardRefusal::BarDeleteNeedsBars));
    assert_eq!(delete_bars_in_lines(&mut lines, &bars), Err(ClipboardRefusal::AllBarsOnLine));
    let other = BarSpan { row: 1, ..bars[1].clone() };
    assert_eq!(
        delete_bars_in_lines(&mut lines, &[bars[0].clone(), other]),
        Err(ClipboardRefusal::BarDeleteOneLine)
    );
    let gone = BarSpan { row: 5, ..bars[0].clone() };
    assert_eq!(delete_bars_in_lines(&mut lines, &[gone]), Err(ClipboardRefusal::BarGone));
    assert_eq!(lines, strings(&[line]));
    assert_eq!(ClipboardRefusal::AllBarsOnLine.message(), "Cannot delete all bars on a line");
}

#[test]
fn template_calls_yank_and_paste_after_selection() {
    let line = "[@riff] [@hook +2]";
    let calls = template_call_spans_in_line(0, line);
    assert_eq!(yank_template_calls(&calls), Ok(strings(&["[@riff]", "[@hook +2]"])));
    assert_eq!(yank_template_calls(&[]), Err(ClipboardRefusal::CallYankNeedsCalls));

    let mut lines = strings(&[line]);
    let positions =
        paste_template_calls_after_selection(&mut lines, &calls[0..1], &strings(&["[@x]"]));
    assert_eq!(lines, strings(&["[@riff] [@x] [@hook +2]"]));
    assert_eq!(positions, Ok(vec![(0, 13)]));

    let mut lines = strings(&[line]);
    let r = paste_template_calls_after_cursor(&mut lines, &Some(calls[1].duplicate()), &strings(&["[@y]"]));
    assert_eq!(r, Ok(()));
    assert_eq!(lines, strings(&["[@riff] [@hook +2] [@y]"]));
    let r = paste_template_calls_after_cursor(&mut lines, &None, &strings(&["[@y]"]));
    assert_eq!(r, Err(ClipboardRefusal::PasteNeedsCallAtCursor));
}

#[test]
fn units_yank_and_paste() {
    let line = "seq | C4 D4 |";
    let units = unit_spans_in_line(0, line);
    let lines = strings(&[line]);
    assert_eq!(
        yank_units(&lines, &units),
        Ok((strings(&["C4", "D4"]), UnitYankContext::SeqLine))
    );
    assert_eq!(yank_units(&lines, &[]), Err(ClipboardRefusal::UnitYankNeedsUnits));

    let mut lines = strings(&[line]);
    let r = paste_units_after_selection(
        &mut lines,
        &units[1..2],
        &[1],
        &strings(&["E4", "F4"]),
        UnitYankContext::SeqLine,
    );
    assert_eq!(r, Ok(vec![2, 3]));
    assert_eq!(lines, strings(&["seq | C4 D4 E4 F4 |"]));

    let mut lines = strings(&[line]);
    let r = paste_units_after_selection(
        &mut lines,
        &units[1..2],
        &[1],
        &strings(&["x"]),
        UnitYankContext::LaneBody,
    );
    assert_eq!(r, Err(ClipboardRefusal::UnitsDoNotFitSelection));
    assert_eq!(lines, strings(&[line]));

    let r = paste_units_after_cursor(
        &mut lines,
        &Some(units[0].clone()),
        &strings(&["G4"]),
        UnitYankContext::SeqLine,
    );
    assert_eq!(r, Ok(()));
    assert_eq!(lines, strings(&["seq | C4 G4 D4 |"]));
}

#[test]
fn bars_yank_and_paste_by_rows() {
    let lines0 = strings(&["seq | C4 | D4 |", "seq | E4 | F4 |"]);
    let a = bar_spans_in_line(0, &lines0[0])[0].clone();
    let b = bar_spans_in_line(1, &lines0[1])[0].clone();
    let selection = Some(StudioSelection::BarRange { anchor: a.clone(), focus: b });
    assert_eq!(selected_bar_runs(&lines0, &selection), vec![(0, 0, 0), (1, 0, 0)]);

    let (rows, total) = yank_selected_bars(&lines0, &selection).unwrap();
    assert_eq!(total, 2);
    assert_eq!(rows[0], YankedBarRow { text: " C4 |".to_string(), count: 1 });
    assert_eq!(rows[1], YankedBarRow { text: " E4 |".to_string(), count: 1 });

    let mut lines = lines0.clone();
    let pasted = vec![
        YankedBarRow { text: " X |".to_string(), count: 1 },
        YankedBarRow { text: " Y |".to_string(), count: 1 },
    ];
    let r = paste_bars_after_selection(&mut lines, &selection, &pasted);
    assert_eq!(r, Ok((vec![(0, 1), (1, 1)], 2)));
    assert_eq!(lines, strings(&["seq | C4 | X | D4 |", "seq | E4 | Y | F4 |"]));

    let mut lines = lines0.clone();
    let one = Some(StudioSelection::Bar { span: a.clone() });
    assert_eq!(
        paste_bars_after_selection(&mut lines, &one, &pasted),
        Err(ClipboardRefusal::BarRowsMismatch)
    );
    assert_eq!(
        yank_selected_bars(&lines, &None),
        Err(ClipboardRefusal::BarYankNeedsBars)
    );

    let r = paste_bar_row_after_cursor(&mut lines, &Some(a.clone()), &pasted[0..1]);
    assert_eq!(r, Ok(1));
    assert_eq!(lines[0], "seq | C4 | X | D4 |");
    assert_eq!(
        paste_bar_row_after_cursor(&mut lines, &Some(a), &pasted),
        Err(ClipboardRefusal::MultiRowBarPaste)
    );
}

#[test]
fn paste_route_matches_buffer_and_selection() {
    let line = "seq | C4 | D4 |";
    let bar = bar_spans_in_line(0, line)[0].clone();
    let bar_sel = Some(StudioSelection::Bar { span: bar });
    let units = YankBuffer::Units { tokens: strings(&["C4"]), context: UnitYankContext::SeqLine };
    let bars = YankBuffer::Bars { rows: vec![] };
    assert_eq!(selection_target(&bar_sel), SelectionTarget::Bars);
    assert_eq!(selection_target(&None), SelectionTarget::Units);
    assert_eq!(paste_route(&bar_sel, &None), Err(ClipboardRefusal::NothingYanked));
    assert_eq!(paste_route(&bar_sel, &Some(bars.clone())), Ok(PasteRoute::BarsAfterSelection));
    assert_eq!(
        paste_route(&bar_sel, &Some(units.clone())),
        Err(ClipboardRefusal::ExpectsYankedBars)
    );
    assert_eq!(paste_route(&None, &Some(units)), Ok(PasteRoute::UnitsAfterCursor));
    assert_eq!(paste_route(&None, &Some(bars)), Ok(PasteRoute::BarsAfterCursor));
}
