use loom::studio::audition::{preview_target_for_cc, preview_track_context, PreviewTrackContext};
use loom::studio::preview::{
    PreviewControlState, PreviewControls, PreviewPanelState, PreviewTarget,
};

#[test]
fn preview_track_context_reads_track_channel_and_program() {
    let lines = vec![
        "# Piano: 2".to_string(),
        "## pc 41".to_string(),
        "C4 | ^ |".to_string(),
    ];

    assert_eq!(
        preview_track_context(&lines, 2),
        Some(PreviewTrackContext {
            track_header_row: 0,
            track_name: "Piano".to_string(),
            channel: 1,
            source_program: Some(41),
            controls: PreviewControls::default(),
        })
    );
}

#[test]
fn preview_track_context_accepts_sound_alias() {
    let lines = vec![
        "# Lead: 1".to_string(),
        "## sound 81".to_string(),
        "C5 | ^ |".to_string(),
    ];

    assert_eq!(
        preview_track_context(&lines, 2),
        Some(PreviewTrackContext {
            track_header_row: 0,
            track_name: "Lead".to_string(),
            channel: 0,
            source_program: Some(81),
            controls: PreviewControls::default(),
        })
    );
}

#[test]
fn preview_track_context_reads_program_from_header_row() {
    let lines = vec![
        "# Pad: 3".to_string(),
        "## pc 89".to_string(),
        "C4 | ^ |".to_string(),
    ];

    assert_eq!(
        preview_track_context(&lines, 0),
        Some(PreviewTrackContext {
            track_header_row: 0,
            track_name: "Pad".to_string(),
            channel: 2,
            source_program: Some(89),
            controls: PreviewControls::default(),
        })
    );
}

#[test]
fn preview_track_context_reads_shorthand_controls() {
    let lines = vec![
        "# Pad: 1".to_string(),
        "## volume 90".to_string(),
        "## pan 60".to_string(),
        "## expression 80".to_string(),
        "## mod 12".to_string(),
        "C4 | ^ |".to_string(),
    ];

    let context = preview_track_context(&lines, 5).unwrap();
    assert_eq!(
        context.controls,
        PreviewControls {
            volume: PreviewControlState {
                source: Some(90),
                override_value: None,
            },
            pan: PreviewControlState {
                source: Some(60),
                override_value: None,
            },
            expression: PreviewControlState {
                source: Some(80),
                override_value: None,
            },
            mod_wheel: PreviewControlState {
                source: Some(12),
                override_value: None,
            },
        }
    );
}

#[test]
fn preview_track_context_reads_raw_controls() {
    let lines = vec![
        "# Pad: 1".to_string(),
        "## cc 7 91".to_string(),
        "## cc 10 61".to_string(),
        "## cc 11 81".to_string(),
        "## cc 1 13".to_string(),
        "C4 | ^ |".to_string(),
    ];

    let context = preview_track_context(&lines, 5).unwrap();
    assert_eq!(context.controls.volume.source, Some(91));
    assert_eq!(context.controls.pan.source, Some(61));
    assert_eq!(context.controls.expression.source, Some(81));
    assert_eq!(context.controls.mod_wheel.source, Some(13));
}

#[test]
fn preview_track_context_stops_at_template_section() {
    let lines = vec![
        "# Piano: 1".to_string(),
        "## pc 1".to_string(),
        "# @arp(x)".to_string(),
        "C4 | ^ |".to_string(),
    ];

    assert_eq!(preview_track_context(&lines, 3), None);
}

#[test]
fn preview_track_context_keeps_the_first_value_and_ignores_the_next_track() {
    let lines = vec![
        "# Lead: 1".to_string(),
        "## pc 5".to_string(),
        "## pc 6".to_string(),
        "## volume 70".to_string(),
        "## cc 7 20".to_string(),
        "## cc 64 127".to_string(),
        "# Bass: 2".to_string(),
        "## pc 33".to_string(),
    ];

    let context = preview_track_context(&lines, 1).unwrap();
    assert_eq!(context.source_program, Some(5));
    assert_eq!(context.controls.volume.source, Some(70));
    assert_eq!(context.controls.pan.source, None);
    assert_eq!(preview_track_context(&lines, 7).unwrap().source_program, Some(33));
    assert_eq!(preview_track_context(&["C4 | ^ |".to_string()], 0), None);
}

#[test]
fn preview_targets_follow_controller_numbers() {
    assert_eq!(preview_target_for_cc(7), Some(PreviewTarget::Volume));
    assert_eq!(preview_target_for_cc(10), Some(PreviewTarget::Pan));
    assert_eq!(preview_target_for_cc(11), Some(PreviewTarget::Expression));
    assert_eq!(preview_target_for_cc(1), Some(PreviewTarget::Mod));
    assert_eq!(preview_target_for_cc(64), None);
    assert_eq!(PreviewTarget::from_index('3'), Some(PreviewTarget::Pan));
    assert_eq!(PreviewTarget::from_index('9'), None);
    assert_eq!(PreviewTarget::Expression.label(), "EXP");
    assert_eq!(PreviewTarget::Program.control_spec().map(|s| s.cc), None);
    assert_eq!(PreviewTarget::Pan.control_spec().map(|s| s.default_value), Some(64));
}

#[test]
fn preview_panel_prefers_overrides_and_resets_them() {
    let mut panel = PreviewPanelState::default();
    panel.source_program = Some(3);
    panel.controls.volume.source = Some(80);
    assert_eq!(panel.effective_program(), Some(3));
    assert_eq!(panel.effective_control_value(PreviewTarget::Volume), Some(80));
    assert_eq!(panel.effective_control_value(PreviewTarget::Pan), Some(64));
    assert_eq!(panel.effective_control_value(PreviewTarget::Program), None);
    assert!(!panel.has_overrides());

    panel.override_program = Some(9);
    panel.controls.volume.override_value = Some(20);
    assert_eq!(panel.effective_program(), Some(9));
    assert_eq!(panel.effective_control_value(PreviewTarget::Volume), Some(20));
    assert!(panel.has_overrides());

    panel.reset_overrides();
    assert!(!panel.has_overrides());
    assert_eq!(panel.effective_program(), Some(3));
    assert_eq!(panel.effective_control_value(PreviewTarget::Volume), Some(80));
}
