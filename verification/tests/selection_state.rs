use loom::studio::selection::bar_spans_in_line;
use loom::studio::selection_state::{
    bar_cursor_col_in_line, next_bar_after_position, previous_bar_before_position,
};

#[test]
fn next_bar_on_shared_pipe_prefers_right_bar() {
    let bars = bar_spans_in_line(0, "seq | C4 . | D4 . |");
    let next = next_bar_after_position(&bars, 0, 11).unwrap();
    assert_eq!(next.index, 1);
}

#[test]
fn previous_bar_on_shared_pipe_prefers_left_bar() {
    let bars = bar_spans_in_line(0, "seq | C4 . | D4 . |");
    let previous = previous_bar_before_position(&bars, 0, 11).unwrap();
    assert_eq!(previous.index, 0);
}

#[test]
fn bar_cursor_col_prefers_first_non_whitespace_in_bar() {
    let line = "seq | C4 . | D4 . |";
    let bars = bar_spans_in_line(0, line);
    assert_eq!(bar_cursor_col_in_line(line, &bars[0]), 6);
    assert_eq!(bar_cursor_col_in_line(line, &bars[1]), 13);
}

#[test]
fn bar_cursor_col_falls_back_inside_empty_bar() {
    let line = "seq |    |";
    let bar = bar_spans_in_line(0, line).remove(0);
    assert_eq!(bar_cursor_col_in_line(line, &bar), bar.start_col + 1);
}

#[test]
fn bar_moves_stop_at_the_ends_and_cross_rows() {
    let mut bars = bar_spans_in_line(0, "seq | C4 | D4 |");
    bars.extend(bar_spans_in_line(2, "seq | E4 |"));
    assert!(next_bar_after_position(&bars, 2, 7).is_none());
    assert!(previous_bar_before_position(&bars, 0, 7).is_none());
    assert_eq!(next_bar_after_position(&bars, 1, 0).unwrap().row, 2);
    assert_eq!(previous_bar_before_position(&bars, 1, 0).unwrap().index, 1);
}
