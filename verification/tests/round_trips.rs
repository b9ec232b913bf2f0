use loom::studio::audition::preview_track_context;
use loom::studio::note_entry::apply_track_program_to_lines;
use loom::studio::selection::{char_range, replace_char_range};
use loom::studio::settings::{
    clear_loop_settings_frontmatter, format_track_header, parse_track_header,
    set_loop_range_frontmatter, TrackHeader,
};
use loom::studio::source::SourceUndoStack;
use loom::studio::template_call::{
    format_template_call_repeat, format_template_call_time_scale, format_template_call_transpose,
    parse_template_call_repeat, parse_template_call_time_scale, parse_template_call_transpose,
    transposed_template_call_text,
};
use loom::studio::template_ops::free_template_name;

#[test]
fn transpose_reads_back_what_was_written() {
    for v in [-128, -7, -1, 0, 1, 12, i32::MAX, i32::MIN + 1] {
        let text = format_template_call_transpose(v);
        assert_eq!(parse_template_call_transpose(&text), Some(v));
    }
    assert_eq!(format_template_call_transpose(5), "+5");
    assert_eq!(format_template_call_transpose(-5), "-5");
}

#[test]
fn counts_read_back_what_was_written() {
    for n in [1u32, 2, 10, u32::MAX] {
        assert_eq!(parse_template_call_repeat(&format_template_call_repeat(n)), Some(n));
        assert_eq!(parse_template_call_time_scale(&format_template_call_time_scale(n)), Some(n));
    }
    assert_eq!(parse_template_call_repeat(&format_template_call_repeat(0)), None);
}

#[test]
fn track_header_reads_back_what_was_written() {
    for (name, channel, solo, muted) in [
        ("Lead", 1u8, false, false),
        ("Big Pad", 16, true, false),
        ("Drums", 10, false, true),
        ("Bass", 2, true, true),
        ("", 1, false, false),
    ] {
        let header = TrackHeader { name: name.to_string(), channel, solo, muted };
        let line = format_track_header(&header);
        assert_eq!(parse_track_header(&line), Some(header));
    }
}

#[test]
fn undo_gives_back_the_last_snapshot() {
    let mut stack = SourceUndoStack::new();
    stack.push("a".to_string(), (0, 0));
    stack.push("b".to_string(), (1, 2));
    let top = stack.pop().unwrap();
    assert_eq!(top.source, "b");
    assert_eq!(top.cursor, (1, 2));
    assert_eq!(stack.len(), 1);
    for i in 0..40 {
        stack.push(format!("s{}", i), (i, 0));
    }
    assert_eq!(stack.len(), 32);
    assert_eq!(stack.pop().unwrap().source, "s39");
}

#[test]
fn a_replaced_range_reads_back() {
    let mut line = "seq | C4 . |".to_string();
    replace_char_range(&mut line, 6, 8, "D#5");
    assert_eq!(line, "seq | D#5 . |");
    assert_eq!(char_range(&line, 6, 9), "D#5");
    let held = char_range(&line, 6, 9);
    replace_char_range(&mut line, 6, 9, &held);
    assert_eq!(line, "seq | D#5 . |");
}

#[test]
fn a_program_set_on_a_track_is_previewed() {
    let mut lines = vec![
        "# Lead: 1".to_string(),
        "## pc x".to_string(),
        "## volume 80".to_string(),
        "C4 | ^ |".to_string(),
        "# Bass: 2".to_string(),
    ];
    assert_eq!(apply_track_program_to_lines(&mut lines, 0, 42), Some(1));
    let context = preview_track_context(&lines, 0).unwrap();
    assert_eq!(context.source_program, Some(42));
    assert_eq!(context.controls.volume.source, Some(80));

    let mut bare = vec!["# Bass: 2".to_string(), "C2 | ^ |".to_string()];
    assert_eq!(apply_track_program_to_lines(&mut bare, 0, 0), Some(1));
    assert_eq!(preview_track_context(&bare, 0).unwrap().source_program, Some(0));
}

#[test]
fn a_new_template_name_is_free() {
    let lines = vec![
        "# @riff".to_string(),
        "# @riff1".to_string(),
        "# @riff3".to_string(),
    ];
    let base: Vec<char> = "riff".chars().collect();
    let name: String = free_template_name(&lines, &base).into_iter().collect();
    assert_eq!(name, "riff2");
}

#[test]
fn two_transposes_make_one() {
    for (raw, a, b) in [
        ("[@riff arp]*2", 12, -5),
        ("[@riff +3 x2 rev]", -3, 7),
        ("[@lead /2]", 4, -4),
    ] {
        let once = transposed_template_call_text(raw, a).unwrap();
        let twice = transposed_template_call_text(&once, b);
        assert_eq!(twice, transposed_template_call_text(raw, a + b));
    }
}

#[test]
fn clearing_a_loop_just_set_gives_the_score_back() {
    for score in ["# Lead: 1\nseq | C4 |\n", "\n# Pad: 2\n"] {
        let set = set_loop_range_frontmatter(score, "0..4").unwrap();
        assert_eq!(clear_loop_settings_frontmatter(&set), Ok(Some(score.to_string())));
    }
}
