use loom::studio::rename::{rename_template_in_lines, validate_template_name};
use loom::studio::source::{
    clamp_cursor, fragment_call_name, resolve_undo_cursor, source_of_lines, SourceUndoStack,
};

#[test]
fn undo_cursor_prefers_snapshot_over_advanced_cursor_for_rest_entry() {
    let rest_token_cursor = (0, 9);
    let advanced_cursor = (0, 11);
    let resolved = resolve_undo_cursor(advanced_cursor, rest_token_cursor);
    assert_eq!(resolved, rest_token_cursor);
}

#[test]
fn undo_cursor_prefers_snapshot_over_advanced_cursor_for_sustain_entry() {
    let sustain_token_cursor = (2, 13);
    let advanced_cursor = (2, 15);
    let resolved = resolve_undo_cursor(advanced_cursor, sustain_token_cursor);
    assert_eq!(resolved, sustain_token_cursor);
}

#[test]
fn undo_cursor_keeps_snapshot_when_cursor_did_not_advance() {
    let current_cursor = (1, 7);
    let resolved = resolve_undo_cursor(current_cursor, current_cursor);
    assert_eq!(resolved, current_cursor);
}

#[test]
fn fragment_call_name_reads_wikilink_line() {
    assert_eq!(fragment_call_name("  [[intro-a]]  "), Some("intro-a".to_string()));
    assert_eq!(fragment_call_name("# Lead: 1"), None);
}

#[test]
fn rename_template_updates_definition_and_local_calls() {
    let lines = vec![
        "# @riff".to_string(),
        "seq | C4 D4 |".to_string(),
        "# Piano: 1".to_string(),
        "[@riff +12]*2 [@drums.riff]".to_string(),
    ];
    let renamed = rename_template_in_lines(&lines, "riff", "lead").unwrap();
    assert_eq!(
        renamed,
        vec!["# @lead", "seq | C4 D4 |", "# Piano: 1", "[@lead +12]*2 [@drums.riff]"]
    );
}

#[test]
fn rename_template_rejects_existing_name() {
    let lines = vec!["# @riff".to_string(), "# @lead".to_string()];
    assert_eq!(
        rename_template_in_lines(&lines, "riff", "lead").unwrap_err(),
        "Template @lead already exists"
    );
}

#[test]
fn validate_template_name_uses_dsl_name_shape() {
    assert!(validate_template_name("riff_1-a").is_ok());
    assert!(validate_template_name("riff.one").is_err());
    assert!(validate_template_name("").is_err());
}

#[test]
fn rename_reports_each_refusal() {
    let lines = vec!["# @riff".to_string(), "# @riff".to_string()];
    assert_eq!(
        rename_template_in_lines(&lines, "riff", "riff").unwrap_err(),
        "Template name unchanged"
    );
    assert_eq!(
        rename_template_in_lines(&lines, "riff", "lead").unwrap_err(),
        "Template @riff has multiple definitions"
    );
    assert_eq!(
        rename_template_in_lines(&lines, "bass", "lead").unwrap_err(),
        "Template @bass definition not found"
    );
    assert_eq!(
        rename_template_in_lines(&lines, "riff", "a b").unwrap_err(),
        "Template name must use ASCII letters, digits, `_`, and `-`"
    );
}

#[test]
fn undo_stack_keeps_the_newest_snapshots() {
    let mut stack = SourceUndoStack::new();
    for i in 0..40 {
        stack.push(format!("v{}", i), (i, 0));
    }
    assert_eq!(stack.len(), 32);
    let top = stack.pop().unwrap();
    assert_eq!(top.source, "v39");
    assert_eq!(top.cursor, (39, 0));
    stack.clear();
    assert!(stack.pop().is_none());
}

#[test]
fn source_text_and_cursor_clamping() {
    let lines = vec!["abc".to_string(), "de".to_string()];
    assert_eq!(source_of_lines(&lines), "abc\nde\n");
    assert_eq!(clamp_cursor(&lines, (9, 9)), (1, 2));
    assert_eq!(clamp_cursor(&lines, (0, 1)), (0, 1));
    assert_eq!(clamp_cursor(&[], (3, 3)), (0, 0));
    assert_eq!(fragment_call_name("[[a b]]"), None);
    assert_eq!(fragment_call_name("[[]]"), None);
}
