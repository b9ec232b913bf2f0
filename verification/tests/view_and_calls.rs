use loom::studio::selection_model::{line_number_width, next_scroll_top};
use loom::studio::template_ops::{delete_template_call, template_call_positions_after_duplication};

#[test]
fn scrolling_keeps_the_cursor_in_view() {
    assert_eq!(next_scroll_top(10, 5, 20), 5);
    assert_eq!(next_scroll_top(10, 30, 20), 11);
    assert_eq!(next_scroll_top(10, 15, 20), 10);
    assert_eq!(line_number_width(0), 3);
    assert_eq!(line_number_width(9), 3);
    assert_eq!(line_number_width(120), 5);
}

#[test]
fn deleting_a_call_takes_the_blanks_after_or_before_it() {
    let mut line = "[@a] [@b] [@c]".to_string();
    delete_template_call(&mut line, 5, 9);
    assert_eq!(line, "[@a] [@c]");
    let mut line = "[@a] [@b]".to_string();
    delete_template_call(&mut line, 5, 9);
    assert_eq!(line, "[@a]");
}

#[test]
fn duplicated_calls_are_the_last_ones() {
    let line = "[@a] [@b] [@b]";
    assert_eq!(template_call_positions_after_duplication(2, line, 1), vec![(2, 10)]);
    assert_eq!(template_call_positions_after_duplication(2, line, 2), vec![(2, 5), (2, 10)]);
    assert_eq!(template_call_positions_after_duplication(2, line, 9), vec![(2, 0), (2, 5), (2, 10)]);
}
