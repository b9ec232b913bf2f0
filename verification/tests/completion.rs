use loom::studio::completion::{
    completion_trigger_before_cursor, fuzzy_score, is_valid_completion_query,
    rank_completion_candidates, template_headers, wrap_index, CandidateSourceOrder,
    CompletionCandidate, CompletionTrigger,
};

fn candidate(name: &str, source_order: CandidateSourceOrder) -> CompletionCandidate {
    CompletionCandidate {
        name: name.to_string(),
        insert_text: format!("[@{}]", name),
        label: "test",
        source_order,
    }
}

#[test]
fn fuzzy_score_matches_subsequence() {
    assert!(fuzzy_score("k4b", "kick.4beat").is_some());
    assert!(fuzzy_score("kb4", "kick.4beat").is_none());
}

#[test]
fn rank_prefers_prefix_then_local_templates() {
    let ranked = rank_completion_candidates(
        "ki",
        vec![
            candidate("drums.kick", CandidateSourceOrder::LibraryTemplate),
            candidate("kick", CandidateSourceOrder::LocalTemplate),
        ],
    );
    assert_eq!(ranked[0].name, "kick");
}

#[test]
fn trigger_reads_template_query() {
    let trigger = completion_trigger_before_cursor("[@k4", 4).unwrap();
    assert_eq!(trigger.kind, CompletionTrigger::TemplateCall);
    assert_eq!(trigger.anchor_col, 0);
    assert_eq!(trigger.query, "k4");
}

#[test]
fn trigger_reads_fragment_query() {
    let trigger = completion_trigger_before_cursor("  [[ver", 7).unwrap();
    assert_eq!(trigger.kind, CompletionTrigger::FragmentCall);
    assert_eq!(trigger.anchor_col, 2);
    assert_eq!(trigger.query, "ver");
}

#[test]
fn trigger_rejects_closed_call_prefix() {
    assert!(completion_trigger_before_cursor("[@kick]", 7).is_none());
}

#[test]
fn fuzzy_scores_have_exact_values() {
    assert_eq!(fuzzy_score("", "anything"), Some(0));
    assert_eq!(fuzzy_score("KI", "kick"), Some(10_000 - 4));
    // k at 0 (+10 +3), 4 at 5 after '.' (+10 +3), b at 6 next to 4 (+10 +5), minus 10 bytes
    assert_eq!(fuzzy_score("k4b", "kick.4beat"), Some(41 - 10));
    assert_eq!(fuzzy_score("b", "éb"), Some(10 - 3));
}

#[test]
fn ranking_drops_non_matches_and_orders_ties_by_source_then_name() {
    let ranked = rank_completion_candidates(
        "x",
        vec![
            candidate("bx", CandidateSourceOrder::Fragment),
            candidate("ax", CandidateSourceOrder::Fragment),
            candidate("cx", CandidateSourceOrder::LocalTemplate),
            candidate("zz", CandidateSourceOrder::LocalTemplate),
        ],
    );
    let names: Vec<&str> = ranked.iter().map(|c| c.name.as_str()).collect();
    assert_eq!(names, vec!["cx", "ax", "bx"]);
}

#[test]
fn completion_helpers() {
    assert_eq!(wrap_index(0, -1, 3), 2);
    assert_eq!(wrap_index(2, 1, 3), 0);
    assert_eq!(wrap_index(1, 1, 3), 2);
    assert!(is_valid_completion_query("drums.kick_1-a"));
    assert!(!is_valid_completion_query("a b"));
    assert_eq!(
        template_headers("# @riff\nseq | C4 |\n  # @ lead \n# @\n"),
        vec!["riff".to_string(), "lead".to_string()]
    );
    let both = completion_trigger_before_cursor("[[x [@y", 7).unwrap();
    assert_eq!(both.kind, CompletionTrigger::TemplateCall);
    assert_eq!(both.anchor_col, 4);
}

#[test]
fn equally_ranked_candidates_keep_their_order() {
    let mut first = candidate("riff", CandidateSourceOrder::LocalTemplate);
    first.insert_text = "first".to_string();
    let mut second = candidate("riff", CandidateSourceOrder::LocalTemplate);
    second.insert_text = "second".to_string();
    let ranked = rank_completion_candidates("ri", vec![first, candidate("rx", CandidateSourceOrder::Fragment), second]);
    let texts: Vec<&str> = ranked.iter().map(|c| c.insert_text.as_str()).collect();
    assert_eq!(texts, vec!["first", "second"]);
}
