use loom::studio::extract::{
    common_track_header_row, extract_bars_to_template, rows_all_have_bar_range, Extraction,
    ExtractRefusal,
};
use loom::studio::selection::bar_spans_in_line;
use loom::studio::selection_model::StudioSelection;

fn strings(v: &[&str]) -> Vec<String> {
    v.iter().map(|s| s.to_string()).collect()
}

#[test]
fn extracting_a_bar_leaves_a_call_and_appends_the_template() {
    let mut lines = strings(&["# Lead: 1", "seq | C4 | D4 | E4 |"]);
    let bar = bar_spans_in_line(1, &lines[1])[1].clone();
    let selection = Some(StudioSelection::Bar { span: bar });
    let r = extract_bars_to_template(&mut lines, &selection);
    assert_eq!(
        r,
        Ok(Extraction {
            call_row: 2,
            template_name: "riff".to_string(),
            header_row: 0,
            bar_count: 1
        })
    );
    assert_eq!(
        lines,
        strings(&[
            "# Lead: 1",
            "seq | C4 |",
            "[@riff]",
            "seq | E4 |",
            "",
            "# @riff",
            "",
            "seq | D4 |",
        ])
    );
}

#[test]
fn extraction_refusals_leave_the_score() {
    let mut lines = strings(&["# Lead: 1", "seq | C4 | D4 |", "seq | E4 |"]);
    assert_eq!(
        extract_bars_to_template(&mut lines, &None),
        Err(ExtractRefusal::NeedsBarSelection)
    );
    let anchor = bar_spans_in_line(1, &lines[1])[1].clone();
    let focus = loom::studio::selection::BarSpan { row: 2, ..anchor.clone() };
    let range = Some(StudioSelection::BarRange { anchor, focus });
    assert_eq!(
        extract_bars_to_template(&mut lines, &range),
        Err(ExtractRefusal::NeedsMatchingBars)
    );
    assert_eq!(lines, strings(&["# Lead: 1", "seq | C4 | D4 |", "seq | E4 |"]));

    let mut lone = strings(&["seq | C4 |"]);
    let bar = bar_spans_in_line(0, &lone[0])[0].clone();
    assert_eq!(
        extract_bars_to_template(&mut lone, &Some(StudioSelection::Bar { span: bar })),
        Err(ExtractRefusal::OneTrackAtATime)
    );
    assert_eq!(
        ExtractRefusal::OneTrackAtATime.message(),
        "Template extraction currently supports one track at a time"
    );
}

#[test]
fn rows_and_headers_of_a_rectangle() {
    let lines = strings(&["# A: 1", "seq | C4 | D4 |", "# B: 2", "seq | E4 | F4 |"]);
    assert!(rows_all_have_bar_range(&lines, 1, 1, 0, 1));
    assert!(!rows_all_have_bar_range(&lines, 1, 1, 1, 0));
    assert!(!rows_all_have_bar_range(&lines, 1, 3, 0, 1));
    assert_eq!(common_track_header_row(&lines, 1, 1), Some(0));
    assert_eq!(common_track_header_row(&lines, 3, 3), Some(2));
    assert_eq!(common_track_header_row(&lines, 1, 3), None);
    assert_eq!(common_track_header_row(&lines, 2, 1), None);
}
