//! The parsed form of a score: tokens, blocks (bars), pattern lines, tracks and
//! the song's frontmatter.
use vstd::prelude::*;

verus! {

/// One step of a pattern.
#[derive(Debug, PartialEq)]
pub enum Token {
    /// `^`
    Note,
    /// `.`
    Rest,
    /// `-`
    Sustain,
    /// `[...]`, the tokens that share one step.
    Group(Vec<Token>),
}

/// A bar of a pattern line.
#[derive(Debug)]
pub struct Block {
    pub tokens: Vec<Token>,
}

/// A pattern line: its key (a note such as `c3`, or a drum such as `kick`) and its bars.
#[derive(Debug)]
pub struct Line {
    pub note: String,
    pub blocks: Vec<Block>,
}

/// A track: its name, its MIDI channel and its pattern lines.
#[derive(Debug)]
pub struct Track {
    pub name: String,
    pub channel: u8,
    pub lines: Vec<Line>,
}

/// The YAML frontmatter of a song.
#[derive(Debug)]
pub struct Frontmatter {
    pub bpm: u32,
    pub signature: String,
    pub unit: String,
    pub title: Option<String>,
    pub author: Option<String>,
}

impl Default for Frontmatter {
    /// The metadata of a song without frontmatter: every field empty or zero.
    fn default() -> (r: Frontmatter)
        ensures
            r.bpm == 0,
            r.signature@ == Seq::<char>::empty(),
            r.unit@ == Seq::<char>::empty(),
            r.title is None,
            r.author is None,
    {
        Frontmatter {
            bpm: 0,
            signature: String::new(),
            unit: String::new(),
            title: None,
            author: None,
        }
    }
}

/// A parsed song.
#[derive(Debug)]
pub struct Song {
    pub metadata: Frontmatter,
    pub tracks: Vec<Track>,
}

/// The transport state of the sequencer.
#[derive(Debug, PartialEq, Clone, Copy)]
pub enum PlaybackState {
    Stopped,
    Playing,
    Paused,
}

} // verus!
