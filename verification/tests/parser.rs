use loom::parser::{
    parse_block_content, parse_key, parse_line_blocks, parse_line_entry, parse_pattern_line,
    parse_song_body, split_frontmatter, ErrorKind, FrontmatterSplit, ParseError, ParsedLine,
};
use loom::token::{Frontmatter, Token};

#[test]
fn block_content_reads_tokens_and_groups() {
    let (rest, block) = parse_block_content(" ^ . [- ^ ] ^  | tail");
    assert_eq!(rest, "| tail");
    assert_eq!(
        block.tokens,
        vec![
            Token::Note,
            Token::Rest,
            Token::Group(vec![Token::Sustain, Token::Note]),
            Token::Note
        ]
    );
}

#[test]
fn block_content_stops_at_an_unclosed_group() {
    let (rest, block) = parse_block_content("^ [^ .");
    assert_eq!(block.tokens, vec![Token::Note]);
    assert_eq!(rest, "[^ .");
}

#[test]
fn line_blocks_need_an_opening_bar_and_one_closed_bar() {
    let (rest, blocks) = parse_line_blocks("| ^ . | - | x").unwrap();
    assert_eq!(rest, " x");
    assert_eq!(blocks.len(), 2);
    assert_eq!(blocks[0].tokens, vec![Token::Note, Token::Rest]);
    assert_eq!(blocks[1].tokens, vec![Token::Sustain]);
    assert!(matches!(parse_line_blocks("^ |"), Err(ErrorKind::Char)));
    assert!(matches!(parse_line_blocks("| ^"), Err(ErrorKind::Char)));
}

#[test]
fn key_runs_to_the_first_bar() {
    let (rest, key) = parse_key("c3 | ^ |").unwrap();
    assert_eq!(key, "c3 ");
    assert_eq!(rest, "| ^ |");
    assert!(matches!(parse_key("| ^ |"), Err(ErrorKind::TakeWhile1)));
    assert!(matches!(parse_key(""), Err(ErrorKind::TakeWhile1)));
}

#[test]
fn pattern_line_trims_its_key() {
    let (rest, line) = parse_pattern_line("kick | ^ . | . ^ |").unwrap();
    assert_eq!(rest, "");
    match line {
        ParsedLine::Pattern { key, blocks } => {
            assert_eq!(key, "kick");
            assert_eq!(blocks.len(), 2);
            assert_eq!(blocks[1].tokens, vec![Token::Rest, Token::Note]);
        }
        _ => panic!("expected a pattern line"),
    }
    assert!(matches!(parse_pattern_line("kick ^ ."), Err(ErrorKind::Char)));
}

#[test]
fn line_entries_are_tried_in_order() {
    assert!(matches!(parse_line_entry("> a comment"), Ok(ParsedLine::Comment)));
    assert!(matches!(parse_line_entry(""), Ok(ParsedLine::Empty)));
    match parse_line_entry("# Lead Synth : 3") {
        Ok(ParsedLine::TrackHeader { name, channel }) => {
            assert_eq!(name, "Lead Synth");
            assert_eq!(channel, 3);
        }
        _ => panic!("expected a track header"),
    }
    match parse_line_entry("# Big: 999") {
        Ok(ParsedLine::TrackHeader { channel, .. }) => assert_eq!(channel, 1),
        _ => panic!("expected a track header"),
    }
    assert!(matches!(parse_line_entry("#abc"), Err(ErrorKind::Char)));
    assert!(matches!(parse_line_entry("| ^ |"), Err(ErrorKind::TakeWhile1)));
    assert_eq!(ErrorKind::TakeWhile1.name(), "TakeWhile1");
}

#[test]
fn song_body_collects_tracks_and_their_lines() {
    let source = "> intro\nc3 | ^ |\n# Drums: 10\nkick | ^ . |\r\n\nsnare | . ^ |\n# Bass: 2\n";
    let song = parse_song_body(source, 0, Frontmatter::default()).ok().unwrap();
    assert_eq!(song.tracks.len(), 2);
    assert_eq!(song.tracks[0].name, "Drums");
    assert_eq!(song.tracks[0].channel, 10);
    assert_eq!(song.tracks[0].lines.len(), 2);
    assert_eq!(song.tracks[0].lines[1].note, "snare");
    assert_eq!(song.tracks[1].name, "Bass");
    assert!(song.tracks[1].lines.is_empty());
}

#[test]
fn song_body_reports_the_span_of_a_bad_line() {
    let source = "# Lead: 1\né | ^ |\nno bars here\n";
    match parse_song_body(source, 0, Frontmatter::default()) {
        Err(ParseError::NomError { offset, length, kind }) => {
            assert_eq!(offset, source.find("no bars").unwrap());
            assert_eq!(length, "no bars here".len());
            assert_eq!(kind, ErrorKind::Char);
        }
        _ => panic!("expected a line error"),
    }
}

#[test]
fn frontmatter_is_split_from_the_body() {
    let source = "---\nbpm: 120\n---\n# Lead: 1\n";
    match split_frontmatter(source) {
        FrontmatterSplit::Yaml { yaml, body_start, end_offset } => {
            assert_eq!(yaml, "bpm: 120\n");
            assert_eq!(body_start, 17);
            assert_eq!(end_offset, 17);
        }
        _ => panic!("expected a frontmatter"),
    }
    assert!(matches!(split_frontmatter("# Lead: 1\n"), FrontmatterSplit::Absent));
    assert!(matches!(split_frontmatter("---x"), FrontmatterSplit::Malformed { offset: 3 }));
    assert!(matches!(
        split_frontmatter("---\nbpm: 1\n"),
        FrontmatterSplit::Malformed { offset: 4 }
    ));
}
