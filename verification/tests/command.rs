use loom::studio::command::{
    command_outcome, parse_studio_command, shift_row, shift_selection_rows, shifted_score_row,
    CommandOutcome, StudioCommand,
};
use loom::studio::selection_model::StudioSelection;

#[test]
fn parses_bpm_command() {
    assert_eq!(parse_studio_command("bpm 140").unwrap(), StudioCommand::Bpm(140));
}

#[test]
fn rejects_invalid_bpm() {
    assert_eq!(parse_studio_command("bpm 0").unwrap_err(), "BPM must be 1..999");
}

#[test]
fn parses_editor_commands() {
    assert_eq!(parse_studio_command("w").unwrap(), StudioCommand::Save);
    assert_eq!(parse_studio_command("q!").unwrap(), StudioCommand::ForceQuit);
    assert_eq!(parse_studio_command("fmt").unwrap(), StudioCommand::Format);
}

#[test]
fn command_errors_name_the_problem() {
    assert_eq!(parse_studio_command("   ").unwrap_err(), "No command");
    assert_eq!(parse_studio_command("bpm").unwrap_err(), "Usage: bpm 140");
    assert_eq!(parse_studio_command("bpm x").unwrap_err(), "BPM must be an integer 1..999");
    assert_eq!(parse_studio_command("bpm 1000").unwrap_err(), "BPM must be 1..999");
    assert_eq!(parse_studio_command("w now").unwrap_err(), "Command `w` takes no arguments");
    assert_eq!(parse_studio_command("zap").unwrap_err(), "Unknown command: zap");
    assert_eq!(
        parse_studio_command("loop 1").unwrap_err(),
        "Usage: loop on | loop off | loop clear | loop 0 4"
    );
    assert_eq!(parse_studio_command("loop clear").unwrap(), StudioCommand::LoopClear);
    assert_eq!(
        parse_studio_command("loop 0 4").unwrap(),
        StudioCommand::LoopRange { start: "0".to_string(), end: "4".to_string() }
    );
}

#[test]
fn running_bpm_rewrites_the_frontmatter() {
    let source = "---\nbpm: 120\n---\n# Lead: 1\n";
    match command_outcome("bpm 90", source, false) {
        CommandOutcome::UpdateSource { source, message } => {
            assert!(source.contains("bpm: 90"));
            assert_eq!(message, "BPM: 90");
        }
        other => panic!("unexpected outcome {:?}", other),
    }
}

#[test]
fn quitting_with_unsaved_changes_is_refused() {
    assert_eq!(
        command_outcome("q", "", true),
        CommandOutcome::Status("Unsaved changes. Use w to save or q! to quit.".to_string())
    );
    assert_eq!(command_outcome("q", "", false), CommandOutcome::Quit);
    assert_eq!(command_outcome("q!", "", true), CommandOutcome::Quit);
    assert_eq!(command_outcome("loop clear", "# Lead: 1\n", false), CommandOutcome::Status("No loop settings to clear".to_string()));
}

#[test]
fn rows_follow_the_score_body() {
    let before = "---\nbpm: 120\n---\n# Lead: 1\n";
    let after = "---\nbpm: 120\nloop: true\n---\n# Lead: 1\n";
    assert_eq!(shifted_score_row(3, before, after), 4);
    assert_eq!(shifted_score_row(1, before, after), 1);
    assert_eq!(shifted_score_row(4, after, before), 3);
    assert_eq!(shift_row(0, 3, 1), 0);
    assert_eq!(shift_row(3, 3, 1), 1);
    assert_eq!(shift_row(3, 10, 1), 3);
}

#[test]
fn selection_rows_follow_the_score_body() {
    let before = "---\nbpm: 120\n---\n# Lead: 1\n";
    let after = "---\nbpm: 120\nloop: true\n---\n# Lead: 1\n";
    let mut sel = Some(StudioSelection::LineRange { anchor_row: 3 });
    shift_selection_rows(&mut sel, before, after);
    assert!(matches!(sel, Some(StudioSelection::LineRange { anchor_row: 4 })));
    let mut none: Option<StudioSelection> = None;
    shift_selection_rows(&mut none, before, after);
    assert!(none.is_none());
    let mut same = Some(StudioSelection::LineRange { anchor_row: 1 });
    shift_selection_rows(&mut same, before, after);
    assert!(matches!(same, Some(StudioSelection::LineRange { anchor_row: 1 })));
}

#[test]
fn parses_loop_range_command() {
    match parse_studio_command("loop 0 4").unwrap() {
        StudioCommand::LoopRange { start, end } => {
            assert_eq!(start.parse::<f64>().unwrap(), 0.0);
            assert_eq!(end.parse::<f64>().unwrap(), 4.0);
        }
        other => panic!("unexpected command {:?}", other),
    }
}

#[test]
fn rejects_reversed_loop_range() {
    assert_eq!(
        parse_studio_command("loop 4 0").unwrap_err(),
        "Loop range end must be greater than start"
    );
}

#[test]
fn loop_bounds_are_checked_as_numbers() {
    assert_eq!(parse_studio_command("loop a b").unwrap_err(), "Loop range bounds must be numbers");
    assert_eq!(parse_studio_command("loop 1 x").unwrap_err(), "Loop range bounds must be numbers");
    assert_eq!(parse_studio_command("loop 1. 1e").unwrap_err(), "Loop range bounds must be numbers");
    assert_eq!(parse_studio_command("loop . 2").unwrap_err(), "Loop range bounds must be numbers");
    assert_eq!(parse_studio_command("loop 1.2.3 4").unwrap_err(), "Loop range bounds must be numbers");
    assert_eq!(
        parse_studio_command("loop -1 2").unwrap_err(),
        "Loop range bounds must be non-negative numbers"
    );
    assert_eq!(
        parse_studio_command("loop 1 -0.5").unwrap_err(),
        "Loop range bounds must be non-negative numbers"
    );
    assert_eq!(
        parse_studio_command("loop inf 2").unwrap_err(),
        "Loop range bounds must be non-negative numbers"
    );
    assert_eq!(
        parse_studio_command("loop 0 NaN").unwrap_err(),
        "Loop range bounds must be non-negative numbers"
    );
    assert_eq!(
        parse_studio_command("loop 4 2").unwrap_err(),
        "Loop range end must be greater than start"
    );
    assert_eq!(
        parse_studio_command("loop 2.50 2.5").unwrap_err(),
        "Loop range end must be greater than start"
    );
    assert_eq!(
        parse_studio_command("loop -0 .5").unwrap(),
        StudioCommand::LoopRange { start: "-0".to_string(), end: ".5".to_string() }
    );
    assert_eq!(
        parse_studio_command("loop +1.25 1.2500001").unwrap(),
        StudioCommand::LoopRange { start: "+1.25".to_string(), end: "1.2500001".to_string() }
    );
    // With an exponent the numbers are the caller's to compare.
    assert_eq!(
        parse_studio_command("loop 4e0 2").unwrap(),
        StudioCommand::LoopRange { start: "4e0".to_string(), end: "2".to_string() }
    );
}
