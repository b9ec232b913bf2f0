use loom::studio::settings::{
    clear_loop_settings_frontmatter, format_track_header, loop_range_for_bar_indices,
    parse_track_header, parse_track_header_channel, score_body_start_row, set_bpm_frontmatter,
    set_loop_enabled_frontmatter, set_loop_range_frontmatter, track_bar_index_at, TrackHeader,
};
use loom::token::Frontmatter;

fn metadata(unit: &str, signature: &str) -> Frontmatter {
    Frontmatter {
        bpm: 0,
        signature: signature.to_string(),
        unit: unit.to_string(),
        title: None,
        author: None,
    }
}

#[test]
fn set_bpm_adds_frontmatter_when_missing() {
    let source = set_bpm_frontmatter("# Piano: 1\n", 140).unwrap();
    assert_eq!(source, "---\nbpm: 140\n---\n\n# Piano: 1\n");
}

#[test]
fn set_bpm_updates_existing_scalar() {
    let source = set_bpm_frontmatter("---\nbpm: 100\n---\n# Piano: 1\n", 140).unwrap();
    assert_eq!(source, "---\nbpm: 140\n---\n# Piano: 1\n");
}

#[test]
fn set_bpm_rejects_complex_value() {
    let err = set_bpm_frontmatter("---\nbpm:\n  base: 120\n---\n", 140).unwrap_err();
    assert_eq!(err, "BPM update supports only simple `bpm: value`");
}

#[test]
fn set_loop_enabled_preserves_loop_range() {
    let source =
        set_loop_enabled_frontmatter("---\nloop: true\nloop_range: 0..4\n---\n", false).unwrap();
    assert_eq!(source, "---\nloop: false\nloop_range: 0..4\n---\n");
}

#[test]
fn parse_track_header_channel_returns_zero_based_channel() {
    assert_eq!(parse_track_header_channel("# Piano: 2"), Some(1));
    assert_eq!(parse_track_header_channel("# Drums: 10 x"), Some(9));
    assert_eq!(parse_track_header_channel("# Bass: 2 s x"), Some(1));
    assert_eq!(parse_track_header_channel("## sound 1"), None);
    assert_eq!(parse_track_header_channel("# Invalid: 17"), None);
}

#[test]
fn parse_track_header_reads_name_channel_and_mute() {
    let header = parse_track_header("# Drums: 10 x").unwrap();
    assert_eq!(
        header,
        TrackHeader {
            name: "Drums".to_string(),
            channel: 10,
            solo: false,
            muted: true,
        }
    );
}

#[test]
fn parse_track_header_reads_solo_and_rejects_unknown_flags() {
    let header = parse_track_header("# Bass: 2 x s").unwrap();
    assert_eq!(
        header,
        TrackHeader {
            name: "Bass".to_string(),
            channel: 2,
            solo: true,
            muted: true,
        }
    );
    assert_eq!(parse_track_header("# Bass: 2 z"), None);
}

#[test]
fn format_track_header_emits_canonical_spacing() {
    let header = TrackHeader {
        name: "Piano".to_string(),
        channel: 1,
        solo: false,
        muted: false,
    };
    assert_eq!(format_track_header(&header), "# Piano: 1");

    let solo = TrackHeader {
        solo: true,
        ..header.clone()
    };
    assert_eq!(format_track_header(&solo), "# Piano: 1 s");

    let muted = TrackHeader {
        muted: true,
        ..header.clone()
    };
    assert_eq!(format_track_header(&muted), "# Piano: 1 x");

    let both = TrackHeader {
        solo: true,
        muted: true,
        ..header
    };
    assert_eq!(format_track_header(&both), "# Piano: 1 s x");
}

#[test]
fn set_loop_range_adds_frontmatter_when_missing() {
    let source = set_loop_range_frontmatter("# Piano: 1\nC4 | ^ |\n", "0..1").unwrap();
    assert_eq!(
        source,
        "---\nloop: true\nloop_range: 0..1\n---\n\n# Piano: 1\nC4 | ^ |\n"
    );
}

#[test]
fn set_loop_range_updates_existing_scalars() {
    let source =
        set_loop_range_frontmatter("---\nloop: false\nloop_range: 2..3\n---\n", "0..2").unwrap();
    assert_eq!(source, "---\nloop: true\nloop_range: 0..2\n---\n");
}

#[test]
fn clear_loop_settings_removes_loop_and_loop_range() {
    let source =
        clear_loop_settings_frontmatter("---\nbpm: 100\nloop: true\nloop_range: 0..2\n---\n")
            .unwrap()
            .unwrap();
    assert_eq!(source, "---\nbpm: 100\n---\n");
}

#[test]
fn clear_loop_settings_removes_empty_frontmatter_block() {
    let source = clear_loop_settings_frontmatter("---\nloop: true\n---\n\n# Piano: 1\n")
        .unwrap()
        .unwrap();
    assert_eq!(source, "# Piano: 1\n");
}

#[test]
fn clear_loop_settings_is_noop_without_enabled_loop_settings() {
    assert_eq!(
        clear_loop_settings_frontmatter("---\nloop: false\n---\n").unwrap(),
        None
    );
    assert_eq!(clear_loop_settings_frontmatter("# Piano: 1\n").unwrap(), None);
}

#[test]
fn loop_range_uses_bar_unit_indices() {
    // "---\nunit: bar\n---\n# Piano: 1\nC4 | ^ | ^ |\n"
    let range = loop_range_for_bar_indices(&metadata("bar", "4/4"), 1, 2).unwrap();
    assert_eq!(range, "1..3");
}

#[test]
fn loop_range_converts_to_beats_for_beat_unit() {
    // "---\nunit: beat\nsignature: 3/4\n---\n# Piano: 1\nC4 | ^ | ^ |\n"
    let range = loop_range_for_bar_indices(&metadata("beat", "3/4"), 1, 2).unwrap();
    assert_eq!(range, "3..9");
}

#[test]
fn track_bar_index_at_continues_across_track_wraps() {
    let source = "# Piano: 1\nseq | C4 | D4 |\n---\nseq | E4 | F4 |\n";
    assert_eq!(track_bar_index_at(source, 1, 0).unwrap(), 0);
    assert_eq!(track_bar_index_at(source, 1, 1).unwrap(), 1);
    assert_eq!(track_bar_index_at(source, 3, 0).unwrap(), 2);
    assert_eq!(track_bar_index_at(source, 3, 1).unwrap(), 3);
}

#[test]
fn track_bar_index_at_uses_widest_line_in_previous_section() {
    let source = "# Drums: 10\nkick  | ^ | ^ |\nsnare | . |\n---\nkick  | ^ |\n";
    assert_eq!(track_bar_index_at(source, 4, 0).unwrap(), 2);
}

#[test]
fn track_bar_index_at_rejects_template_bars() {
    let source = "# @riff\nseq | C4 | D4 |\n";
    assert_eq!(
        track_bar_index_at(source, 1, 0).unwrap_err(),
        "Loop range needs bars in a track body"
    );
}

#[test]
fn score_body_start_row_accounts_for_frontmatter_gap() {
    assert_eq!(score_body_start_row("# Piano: 1\n").unwrap(), 0);
    assert_eq!(
        score_body_start_row("---\nloop: true\n---\n\n# Piano: 1\n").unwrap(),
        4
    );
    assert_eq!(
        score_body_start_row("---\nloop: true\n---\n# Piano: 1\n").unwrap(),
        3
    );
}

#[test]
fn loop_range_reports_bad_signature() {
    let err = loop_range_for_bar_indices(&metadata("beat", "3/5"), 0, 0).unwrap_err();
    assert_eq!(
        err,
        "Cannot set loop range: Signature denominator must be a power of two, got 5"
    );
}

#[test]
fn track_bar_index_at_reports_missing_bar_and_open_frontmatter() {
    let source = "# Piano: 1\nseq | C4 |\n";
    assert_eq!(
        track_bar_index_at(source, 1, 1).unwrap_err(),
        "Selected bar no longer exists"
    );
    assert_eq!(
        track_bar_index_at("---\nbpm: 1\n", 1, 0).unwrap_err(),
        "Frontmatter block is not closed"
    );
}

#[test]
fn loop_range_takes_indices_in_any_order() {
    assert_eq!(loop_range_for_bar_indices(&metadata("bar", "4/4"), 3, 1).unwrap(), "3..2");
    assert_eq!(
        loop_range_for_bar_indices(&metadata("bar", "4/4"), 5_000_000_000, 5_000_000_001).unwrap(),
        "5000000000..5000000002"
    );
    assert_eq!(loop_range_for_bar_indices(&metadata("beat", "3/4"), 2, 0).unwrap(), "6..3");
}
