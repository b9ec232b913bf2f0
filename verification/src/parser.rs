//! The score grammar.
//!
//! A score is an optional YAML frontmatter between `---` lines, then one entry
//! per line, each read after trimming the line:
//! - `> ...` a comment;
//! - `# name: channel` a track header;
//! - a blank line;
//! - `key | tokens | tokens |` a pattern line of the current track, whose bars
//!   hold the tokens `^` (note), `.` (rest), `-` (sustain) and `[...]` (a group).
//!
//! Positions are character indices; the spans of errors are UTF-8 byte offsets.
use vstd::prelude::*;
use crate::studio::completion::{byte_len, utf8_len};
use crate::studio::rename::find_from;
use crate::text::{
    chars_of, digits_value, is_digit, is_prefix, is_space_or_tab, lemma_nl_pos, lemma_nl_pos_bound,
    nl_pos, slice_vec, string_of, trim, trimmed,
};
use crate::token::{Block, Frontmatter, Line, Song, Token, Track};

verus! {

// ---------------------------------------------------------------------------
// Tokens as plain values
// ---------------------------------------------------------------------------

/// A token as a plain value.
pub enum TokenView {
    Note,
    Rest,
    Sustain,
    Group(Seq<TokenView>),
}

pub open spec fn token_view(t: Token) -> TokenView
    decreases t, 0int,
{
    match t {
        Token::Note => TokenView::Note,
        Token::Rest => TokenView::Rest,
        Token::Sustain => TokenView::Sustain,
        Token::Group(v) => TokenView::Group(tokens_view(v@)),
    }
}

pub open spec fn tokens_view(s: Seq<Token>) -> Seq<TokenView>
    decreases s, 1int,
{
    if s.len() == 0 {
        seq![]
    } else {
        tokens_view(s.drop_last()).push(token_view(s.last()))
    }
}

proof fn lemma_tokens_view_push(s: Seq<Token>, t: Token)
    ensures
        tokens_view(s.push(t)) == tokens_view(s).push(token_view(t)),
{
    assert(s.push(t).drop_last() =~= s);
}

/// The bars of a pattern line as plain values.
pub open spec fn blocks_view(bs: Seq<Block>) -> Seq<Seq<TokenView>>
    decreases bs.len(),
{
    if bs.len() == 0 {
        seq![]
    } else {
        blocks_view(bs.drop_last()).push(tokens_view(bs.last().tokens@))
    }
}

proof fn lemma_blocks_view_push(s: Seq<Block>, b: Block)
    ensures
        blocks_view(s.push(b)) == blocks_view(s).push(tokens_view(b.tokens@)),
{
    assert(s.push(b).drop_last() =~= s);
}

// ---------------------------------------------------------------------------
// Runs of characters
// ---------------------------------------------------------------------------

/// The character classes that the grammar reads runs of.
#[derive(Clone, Copy, PartialEq, Eq, Structural)]
pub enum RunKind {
    /// Blanks and tabs.
    Space,
    /// Anything but `|` and a line break: the key of a pattern line.
    Key,
    /// Anything but `:`: the name of a track header.
    Name,
    /// ASCII digits.
    Digit,
}

pub open spec fn in_run(c: char, k: RunKind) -> bool {
    match k {
        RunKind::Space => is_space_or_tab(c),
        RunKind::Key => c != '|' && c != '\n' && c != '\r',
        RunKind::Name => c != ':',
        RunKind::Digit => is_digit(c),
    }
}

/// The length of the run of class `k` that starts at `i`.
pub open spec fn run(s: Seq<char>, i: int, k: RunKind) -> nat
    decreases s.len() - i,
{
    if 0 <= i < s.len() && in_run(s[i], k) {
        1 + run(s, i + 1, k)
    } else {
        0
    }
}

proof fn lemma_run(s: Seq<char>, i: int, j: int, k: RunKind)
    requires
        0 <= i <= j <= s.len(),
        forall|m: int| i <= m < j ==> in_run(#[trigger] s[m], k),
        j < s.len() ==> !in_run(s[j], k),
    ensures
        run(s, i, k) == j - i,
    decreases j - i,
{
    if i < j {
        lemma_run(s, i + 1, j, k);
    }
}

proof fn lemma_run_chars(s: Seq<char>, i: int, k: RunKind)
    ensures
        forall|m: int| i <= m < i + run(s, i, k) ==> in_run(#[trigger] s[m], k),
    decreases s.len() - i,
{
    if 0 <= i < s.len() && in_run(s[i], k) {
        lemma_run_chars(s, i + 1, k);
    }
}

fn in_run_exec(c: char, k: RunKind) -> (b: bool)
    ensures
        b == in_run(c, k),
{
    match k {
        RunKind::Space => c == ' ' || c == '\t',
        RunKind::Key => c != '|' && c != '\n' && c != '\r',
        RunKind::Name => c != ':',
        RunKind::Digit => '0' <= c && c <= '9',
    }
}

/// The end of the run of class `k` that starts at `i`.
fn run_end(v: &Vec<char>, i: usize, k: RunKind) -> (r: usize)
    requires
        i <= v.len(),
    ensures
        r == i + run(v@, i as int, k),
        r <= v.len(),
{
    let mut j = i;
    while j < v.len() && in_run_exec(v[j], k)
        invariant
            i <= j <= v.len(),
            forall|m: int| i <= m < j ==> in_run(#[trigger] v@[m], k),
        decreases v.len() - j,
    {
        j += 1;
    }
    proof {
        lemma_run(v@, i as int, j as int, k);
    }
    j
}

// ---------------------------------------------------------------------------
// Tokens and bars
// ---------------------------------------------------------------------------

/// The token that starts at `i` after blanks, and the position after it.
pub open spec fn token_at(s: Seq<char>, i: int) -> Option<(TokenView, int)>
    decreases s.len() - i, 0int,
{
    if i < 0 || i > s.len() {
        None
    } else {
        let k = i + run(s, i, RunKind::Space);
        if k >= s.len() {
            None
        } else if s[k] == '^' {
            Some((TokenView::Note, k + 1))
        } else if s[k] == '.' {
            Some((TokenView::Rest, k + 1))
        } else if s[k] == '-' {
            Some((TokenView::Sustain, k + 1))
        } else if s[k] == '[' {
            let (ts, m) = tokens_from(s, k + 1);
            let e = m + run(s, m, RunKind::Space);
            if 0 <= e < s.len() && s[e] == ']' {
                Some((TokenView::Group(ts), e + 1))
            } else {
                None
            }
        } else {
            None
        }
    }
}

/// The tokens read one after another from `i`, and the position where the first
/// one that cannot be read starts.
pub open spec fn tokens_from(s: Seq<char>, i: int) -> (Seq<TokenView>, int)
    decreases s.len() - i, 1int,
{
    match token_at(s, i) {
        Some((t, j)) => if i < j <= s.len() {
            let (ts, m) = tokens_from(s, j);
            (seq![t] + ts, m)
        } else {
            (seq![], i)
        },
        None => (seq![], i),
    }
}

fn token_at_exec(v: &Vec<char>, i: usize) -> (r: Option<(Token, usize)>)
    requires
        i <= v.len(),
    ensures
        match token_at(v@, i as int) {
            Some((t, j)) => r matches Some((x, y)) && token_view(x) == t && y == j && i < y <= v.len(),
            None => r is None,
        },
    decreases v.len() - i, 0int,
{
    let k = run_end(v, i, RunKind::Space);
    if k >= v.len() {
        return None;
    }
    let c = v[k];
    if c == '^' {
        Some((Token::Note, k + 1))
    } else if c == '.' {
        Some((Token::Rest, k + 1))
    } else if c == '-' {
        Some((Token::Sustain, k + 1))
    } else if c == '[' {
        let (ts, m) = tokens_from_exec(v, k + 1);
        let e = run_end(v, m, RunKind::Space);
        if e < v.len() && v[e] == ']' {
            Some((Token::Group(ts), e + 1))
        } else {
            None
        }
    } else {
        None
    }
}

fn tokens_from_exec(v: &Vec<char>, i: usize) -> (r: (Vec<Token>, usize))
    requires
        i <= v.len(),
    ensures
        tokens_view(r.0@) == tokens_from(v@, i as int).0,
        r.1 == tokens_from(v@, i as int).1,
        i <= r.1 <= v.len(),
    decreases v.len() - i, 1int,
{
    let ghost s = v@;
    let mut out: Vec<Token> = Vec::new();
    let mut j = i;
    loop
        invariant
            i <= j <= v.len(),
            s == v@,
            tokens_view(out@) + tokens_from(s, j as int).0 == tokens_from(s, i as int).0,
            tokens_from(s, j as int).1 == tokens_from(s, i as int).1,
        decreases v.len() - j,
    {
        match token_at_exec(v, j) {
            Some((t, next)) => {
                let ghost rest = tokens_from(s, next as int);
                assert(tokens_from(s, j as int).0 == seq![token_view(t)] + rest.0);
                proof {
                    lemma_tokens_view_push(out@, t);
                }
                let ghost before = tokens_view(out@);
                out.push(t);
                assert(tokens_view(out@) + rest.0 =~= before + (seq![token_view(t)] + rest.0));
                j = next;
            },
            None => {
                assert(tokens_view(out@) =~= tokens_from(s, i as int).0);
                return (out, j);
            },
        }
    }
}

/// The tokens of a bar that starts at `i`, and the position after them and the
/// blanks that follow.
pub open spec fn block_at(s: Seq<char>, i: int) -> (Seq<TokenView>, int) {
    let (ts, m) = tokens_from(s, i);
    (ts, m + run(s, m, RunKind::Space))
}

fn block_at_exec(v: &Vec<char>, i: usize) -> (r: (Block, usize))
    requires
        i <= v.len(),
    ensures
        tokens_view(r.0.tokens@) == block_at(v@, i as int).0,
        r.1 == block_at(v@, i as int).1,
        i <= r.1 <= v.len(),
{
    let (tokens, m) = tokens_from_exec(v, i);
    let e = run_end(v, m, RunKind::Space);
    (Block { tokens }, e)
}

/// The bars read from `i`, each closed by `|`, and the position after the last `|`.
pub open spec fn blocks_from(s: Seq<char>, i: int) -> (Seq<Seq<TokenView>>, int)
    decreases s.len() - i,
{
    let (ts, e) = block_at(s, i);
    if i <= e < s.len() && s[e] == '|' {
        let (bs, f) = blocks_from(s, e + 1);
        (seq![ts] + bs, f)
    } else {
        (seq![], i)
    }
}

fn blocks_from_exec(v: &Vec<char>, i: usize) -> (r: (Vec<Block>, usize))
    requires
        i <= v.len(),
    ensures
        blocks_view(r.0@) == blocks_from(v@, i as int).0,
        r.1 == blocks_from(v@, i as int).1,
        i <= r.1 <= v.len(),
{
    let ghost s = v@;
    let mut out: Vec<Block> = Vec::new();
    let mut j = i;
    loop
        invariant
            i <= j <= v.len(),
            s == v@,
            blocks_view(out@) + blocks_from(s, j as int).0 == blocks_from(s, i as int).0,
            blocks_from(s, j as int).1 == blocks_from(s, i as int).1,
        decreases v.len() - j,
    {
        let (b, e) = block_at_exec(v, j);
        if e < v.len() && v[e] == '|' {
            let ghost rest = blocks_from(s, e + 1);
            proof {
                lemma_blocks_view_push(out@, b);
            }
            let ghost before = blocks_view(out@);
            let ghost bv = tokens_view(b.tokens@);
            out.push(b);
            assert(blocks_view(out@) + rest.0 =~= before + (seq![bv] + rest.0));
            j = e + 1;
        } else {
            assert(blocks_view(out@) =~= blocks_from(s, i as int).0);
            return (out, j);
        }
    }
}

// ---------------------------------------------------------------------------
// Pattern lines
// ---------------------------------------------------------------------------

/// `| bar | bar | ...` from `i`: at least one bar, each closed by `|`.
pub open spec fn line_blocks_at(s: Seq<char>, i: int) -> Result<(Seq<Seq<TokenView>>, int), ErrorKind> {
    if 0 <= i < s.len() && s[i] == '|' {
        let (bs, f) = blocks_from(s, i + 1);
        if bs.len() > 0 {
            Ok((bs, f))
        } else {
            Err(ErrorKind::Char)
        }
    } else {
        Err(ErrorKind::Char)
    }
}

/// Which step of the grammar failed: an expected character was missing, or a
/// run that must hold at least one character was empty.
#[derive(Clone, Copy, Debug, PartialEq, Eq, Structural)]
pub enum ErrorKind {
    Char,
    TakeWhile1,
}

impl ErrorKind {
    pub open spec fn spec_name(self) -> Seq<char> {
        match self {
            ErrorKind::Char => "Char"@,
            ErrorKind::TakeWhile1 => "TakeWhile1"@,
        }
    }

    /// The name of the failed step.
    pub fn name(self) -> (r: &'static str)
        ensures
            r@ == self.spec_name(),
    {
        match self {
            ErrorKind::Char => "Char",
            ErrorKind::TakeWhile1 => "TakeWhile1",
        }
    }
}

fn line_blocks_at_exec(v: &Vec<char>, i: usize) -> (r: Result<(Vec<Block>, usize), ErrorKind>)
    requires
        i <= v.len(),
    ensures
        match line_blocks_at(v@, i as int) {
            Ok((bs, f)) => r matches Ok((x, y)) && blocks_view(x@) == bs && y == f && i < y <= v.len(),
            Err(k) => r == Err::<(Vec<Block>, usize), ErrorKind>(k),
        },
{
    if i < v.len() && v[i] == '|' {
        let (bs, f) = blocks_from_exec(v, i + 1);
        if bs.len() > 0 {
            Ok((bs, f))
        } else {
            Err(ErrorKind::Char)
        }
    } else {
        Err(ErrorKind::Char)
    }
}

/// A pattern line: a key (anything up to the first `|`, at least one character),
/// then its bars; the key is trimmed.
pub open spec fn pattern_at(s: Seq<char>) -> Result<(Seq<char>, Seq<Seq<TokenView>>, int), ErrorKind> {
    let n = run(s, 0, RunKind::Key);
    if n == 0 {
        Err(ErrorKind::TakeWhile1)
    } else {
        match line_blocks_at(s, n as int) {
            Ok((bs, f)) => Ok((trim(s.take(n as int)), bs, f)),
            Err(k) => Err(k),
        }
    }
}

/// A track header: `#`, blanks, a name (up to `:`, at least one character), `:`,
/// blanks and the channel's digits; a channel beyond 255 reads as 1. What
/// follows the digits is not read.
pub open spec fn header_entry(s: Seq<char>) -> Option<(Seq<char>, u8)> {
    if s.len() > 0 && s[0] == '#' {
        let a: int = 1 + run(s, 1, RunKind::Space) as int;
        let n: int = run(s, a, RunKind::Name) as int;
        let c: int = a + n;
        if n > 0 && c < s.len() && s[c] == ':' {
            let d: int = c + 1 + run(s, c + 1, RunKind::Space) as int;
            let nd: int = run(s, d, RunKind::Digit) as int;
            if nd > 0 {
                let value = digits_value(s.subrange(d, d + nd));
                Some((trim(s.subrange(a, c)), if value <= 255 { value as u8 } else { 1u8 }))
            } else {
                None
            }
        } else {
            None
        }
    } else {
        None
    }
}

/// One line of a score, as plain values.
pub enum EntryView {
    TrackHeader(Seq<char>, u8),
    Pattern(Seq<char>, Seq<Seq<TokenView>>),
    Comment,
    Empty,
}

/// What a trimmed line holds, tried in this order: a comment, a track header, a
/// blank line, a pattern line; when none fits, the pattern line's failure.
pub open spec fn line_entry(s: Seq<char>) -> Result<EntryView, ErrorKind> {
    if s.len() > 0 && s[0] == '>' {
        Ok(EntryView::Comment)
    } else {
        match header_entry(s) {
            Some((name, channel)) => Ok(EntryView::TrackHeader(name, channel)),
            None => if run(s, 0, RunKind::Space) == s.len() {
                Ok(EntryView::Empty)
            } else {
                match pattern_at(s) {
                    Ok((key, bs, _)) => Ok(EntryView::Pattern(key, bs)),
                    Err(k) => Err(k),
                }
            },
        }
    }
}

/// One line of a score.
pub enum ParsedLine {
    TrackHeader { name: String, channel: u8 },
    Pattern { key: String, blocks: Vec<Block> },
    Comment,
    Empty,
}

pub open spec fn parsed_line_view(p: ParsedLine) -> EntryView {
    match p {
        ParsedLine::TrackHeader { name, channel } => EntryView::TrackHeader(name@, channel),
        ParsedLine::Pattern { key, blocks } => EntryView::Pattern(key@, blocks_view(blocks@)),
        ParsedLine::Comment => EntryView::Comment,
        ParsedLine::Empty => EntryView::Empty,
    }
}

/// The bar that starts the input (after blanks), and the rest of the input after
/// it and the blanks that follow it.
pub fn parse_block_content(input: &str) -> (r: (String, Block))
    ensures
        tokens_view(r.1.tokens@) == block_at(input@, 0).0,
        r.0@ == input@.skip(block_at(input@, 0).1),
{
    let v = chars_of(input);
    let (b, e) = block_at_exec(&v, 0);
    let rest = slice_vec(&v, e, v.len());
    assert(rest@ =~= input@.skip(e as int));
    (string_of(&rest), b)
}

/// `|` and the bars that follow, each closed by `|`: the rest of the input after
/// the last `|`, and the bars.
pub fn parse_line_blocks(input: &str) -> (r: Result<(String, Vec<Block>), ErrorKind>)
    ensures
        match line_blocks_at(input@, 0) {
            Ok((bs, f)) => r matches Ok((rest, x)) && blocks_view(x@) == bs && rest@ == input@.skip(f),
            Err(k) => r == Err::<(String, Vec<Block>), ErrorKind>(k),
        },
{
    let v = chars_of(input);
    match line_blocks_at_exec(&v, 0) {
        Ok((bs, f)) => {
            let rest = slice_vec(&v, f, v.len());
            assert(rest@ =~= input@.skip(f as int));
            Ok((string_of(&rest), bs))
        },
        Err(k) => Err(k),
    }
}

/// The key of a pattern line: the characters before the first `|` or line break,
/// at least one; the rest of the input, and the key.
pub fn parse_key(input: &str) -> (r: Result<(String, String), ErrorKind>)
    ensures
        ({
            let n = run(input@, 0, RunKind::Key);
            if n > 0 {
                r matches Ok((rest, key)) && key@ == input@.take(n as int) && rest@ == input@.skip(n as int)
            } else {
                r == Err::<(String, String), ErrorKind>(ErrorKind::TakeWhile1)
            }
        }),
{
    let v = chars_of(input);
    let n = run_end(&v, 0, RunKind::Key);
    if n == 0 {
        return Err(ErrorKind::TakeWhile1);
    }
    let key = slice_vec(&v, 0, n);
    let rest = slice_vec(&v, n, v.len());
    assert(key@ =~= input@.take(n as int));
    assert(rest@ =~= input@.skip(n as int));
    Ok((string_of(&rest), string_of(&key)))
}

fn pattern_exec(v: &Vec<char>) -> (r: Result<(ParsedLine, usize), ErrorKind>)
    ensures
        match pattern_at(v@) {
            Ok((key, bs, f)) => r matches Ok((p, y)) && parsed_line_view(p) == EntryView::Pattern(key, bs)
                && y == f && y <= v.len(),
            Err(k) => r == Err::<(ParsedLine, usize), ErrorKind>(k),
        },
{
    let n = run_end(v, 0, RunKind::Key);
    if n == 0 {
        return Err(ErrorKind::TakeWhile1);
    }
    match line_blocks_at_exec(v, n) {
        Ok((blocks, f)) => {
            let key = trimmed(&slice_vec(v, 0, n));
            Ok((ParsedLine::Pattern { key: string_of(&key), blocks }, f))
        },
        Err(k) => Err(k),
    }
}

/// A pattern line: the rest of the input after its last `|`, and the line.
pub fn parse_pattern_line(input: &str) -> (r: Result<(String, ParsedLine), ErrorKind>)
    ensures
        match pattern_at(input@) {
            Ok((key, bs, f)) => r matches Ok((rest, p)) && parsed_line_view(p) == EntryView::Pattern(key, bs)
                && rest@ == input@.skip(f),
            Err(k) => r == Err::<(String, ParsedLine), ErrorKind>(k),
        },
{
    let v = chars_of(input);
    match pattern_exec(&v) {
        Ok((p, f)) => {
            let rest = slice_vec(&v, f, v.len());
            assert(rest@ =~= input@.skip(f as int));
            Ok((string_of(&rest), p))
        },
        Err(k) => Err(k),
    }
}

fn header_exec(v: &Vec<char>) -> (r: Option<ParsedLine>)
    ensures
        match header_entry(v@) {
            Some((name, channel)) => r matches Some(p) && parsed_line_view(p) == EntryView::TrackHeader(name, channel),
            None => r is None,
        },
{
    if v.len() == 0 || v[0] != '#' {
        return None;
    }
    let a = run_end(v, 1, RunKind::Space);
    let c = run_end(v, a, RunKind::Name);
    if c == a || c >= v.len() || v[c] != ':' {
        return None;
    }
    let d = run_end(v, c + 1, RunKind::Space);
    let e = run_end(v, d, RunKind::Digit);
    if e == d {
        return None;
    }
    let value = crate::text::read_digits(v, d, e, 255);
    let ghost digits = v@.subrange(d as int, e as int);
    proof {
        lemma_run_chars(v@, d as int, RunKind::Digit);
        assert forall|m: int| 0 <= m < digits.len() implies is_digit(#[trigger] digits[m]) by {
            assert(digits[m] == v@[d + m]);
            assert(in_run(v@[d + m], RunKind::Digit));
        }
    }
    let channel: u8 = match value {
        Some(n) => n as u8,
        None => 1,
    };
    let name = trimmed(&slice_vec(v, a, c));
    Some(ParsedLine::TrackHeader { name: string_of(&name), channel })
}

fn all_spaces(v: &Vec<char>) -> (b: bool)
    ensures
        b == (run(v@, 0, RunKind::Space) == v@.len()),
{
    run_end(v, 0, RunKind::Space) == v.len()
}

fn line_entry_exec(v: &Vec<char>) -> (r: Result<ParsedLine, ErrorKind>)
    ensures
        match line_entry(v@) {
            Ok(e) => r matches Ok(p) && parsed_line_view(p) == e,
            Err(k) => r matches Err(x) && x == k,
        },
{
    if v.len() > 0 && v[0] == '>' {
        return Ok(ParsedLine::Comment);
    }
    if let Some(h) = header_exec(v) {
        return Ok(h);
    }
    if all_spaces(v) {
        return Ok(ParsedLine::Empty);
    }
    match pattern_exec(v) {
        Ok((p, _)) => Ok(p),
        Err(k) => Err(k),
    }
}

/// What a (trimmed) line of a score holds.
pub fn parse_line_entry(input: &str) -> (r: Result<ParsedLine, ErrorKind>)
    ensures
        match line_entry(input@) {
            Ok(e) => r matches Ok(p) && parsed_line_view(p) == e,
            Err(k) => r matches Err(x) && x == k,
        },
{
    line_entry_exec(&chars_of(input))
}

// ---------------------------------------------------------------------------
// Songs
// ---------------------------------------------------------------------------

/// A track as plain values: its name, its channel and its pattern lines (key and bars).
pub type TrackView = (Seq<char>, u8, Seq<(Seq<char>, Seq<Seq<TokenView>>)>);

pub open spec fn line_view(l: Line) -> (Seq<char>, Seq<Seq<TokenView>>) {
    (l.note@, blocks_view(l.blocks@))
}

pub open spec fn lines_view(ls: Seq<Line>) -> Seq<(Seq<char>, Seq<Seq<TokenView>>)>
    decreases ls.len(),
{
    if ls.len() == 0 {
        seq![]
    } else {
        lines_view(ls.drop_last()).push(line_view(ls.last()))
    }
}

pub open spec fn track_view(t: Track) -> TrackView {
    (t.name@, t.channel, lines_view(t.lines@))
}

pub open spec fn current_view(c: Option<Track>) -> Option<TrackView> {
    match c {
        Some(t) => Some(track_view(t)),
        None => None,
    }
}

pub open spec fn tracks_view(ts: Seq<Track>) -> Seq<TrackView>
    decreases ts.len(),
{
    if ts.len() == 0 {
        seq![]
    } else {
        tracks_view(ts.drop_last()).push(track_view(ts.last()))
    }
}

/// The end of the line that starts at `start`: its `\n`, or the end of the text.
pub open spec fn line_end(s: Seq<char>, start: int) -> int {
    start + nl_pos(s.skip(start))
}

/// The line that starts at `start`, without its line break (`\n` or `\r\n`).
pub open spec fn line_text(s: Seq<char>, start: int) -> Seq<char> {
    let e = line_end(s, start);
    let raw = s.subrange(start, e);
    if e < s.len() && raw.len() > 0 && raw.last() == '\r' {
        raw.drop_last()
    } else {
        raw
    }
}

pub open spec fn close_track(done: Seq<TrackView>, cur: Option<TrackView>) -> Seq<TrackView> {
    match cur {
        Some(t) => done.push(t),
        None => done,
    }
}

/// A header closes the current track and opens another; a pattern line joins the
/// current track (and is dropped before the first header); comments and blank
/// lines change nothing.
pub open spec fn step_entry(done: Seq<TrackView>, cur: Option<TrackView>, e: EntryView) -> (
    Seq<TrackView>,
    Option<TrackView>,
) {
    match e {
        EntryView::TrackHeader(name, channel) => (close_track(done, cur), Some((name, channel, seq![]))),
        EntryView::Pattern(key, bs) => (
            done,
            match cur {
                Some(t) => Some((t.0, t.1, t.2.push((key, bs)))),
                None => None,
            },
        ),
        _ => (done, cur),
    }
}

/// The tracks read from the line that starts at `start` on, after `done` and
/// `cur`; or the first line that holds no entry: where it starts, its text and
/// what failed.
pub open spec fn body_from(s: Seq<char>, start: int, done: Seq<TrackView>, cur: Option<TrackView>) -> Result<
    Seq<TrackView>,
    (int, Seq<char>, ErrorKind),
>
    decreases s.len() - start,
{
    if start < 0 || start >= s.len() {
        Ok(close_track(done, cur))
    } else {
        let line = line_text(s, start);
        let e = line_end(s, start);
        match line_entry(trim(line)) {
            Err(k) => Err((start, line, k)),
            Ok(x) => {
                let (d2, c2) = step_entry(done, cur, x);
                if e < s.len() {
                    body_from(s, e + 1, d2, c2)
                } else {
                    Ok(close_track(d2, c2))
                }
            },
        }
    }
}

/// Why a score could not be read, with the span (UTF-8 byte offset and length) it
/// concerns.
pub enum ParseError {
    /// A line that holds no entry.
    NomError { offset: usize, length: usize, kind: ErrorKind },
    /// A frontmatter that is not closed or not valid YAML.
    YamlError { offset: usize, length: usize, msg: String },
}

/// The number of UTF-8 bytes of `v[a..b]`.
fn byte_count(v: &Vec<char>, a: usize, b: usize) -> (r: usize)
    requires
        a <= b <= v.len(),
        4 * v@.len() <= usize::MAX,
    ensures
        r == byte_len(v@.subrange(a as int, b as int)),
{
    let mut n: usize = 0;
    let mut i = a;
    while i < b
        invariant
            a <= i <= b <= v.len(),
            4 * v@.len() <= usize::MAX,
            n == byte_len(v@.subrange(a as int, i as int)),
            n <= 4 * (i - a),
        decreases b - i,
    {
        let c = v[i];
        let u = c as u32;
        let w: usize = if u < 0x80 {
            1
        } else if u < 0x800 {
            2
        } else if u < 0x10000 {
            3
        } else {
            4
        };
        assert(w == utf8_len(c));
        assert(v@.subrange(a as int, i + 1).drop_last() =~= v@.subrange(a as int, i as int));
        n = n + w;
        i += 1;
    }
    n
}

proof fn lemma_tracks_view_push(ts: Seq<Track>, t: Track)
    ensures
        tracks_view(ts.push(t)) == tracks_view(ts).push(track_view(t)),
{
    assert(ts.push(t).drop_last() =~= ts);
}

proof fn lemma_lines_view_push(ls: Seq<Line>, l: Line)
    ensures
        lines_view(ls.push(l)) == lines_view(ls).push(line_view(l)),
{
    assert(ls.push(l).drop_last() =~= ls);
}

/// The end of the line that starts at `start`.
fn line_end_exec(v: &Vec<char>, start: usize) -> (r: usize)
    requires
        start <= v.len(),
    ensures
        r == line_end(v@, start as int),
        start <= r <= v.len(),
        r < v.len() ==> v@[r as int] == '\n',
{
    let mut j = start;
    while j < v.len() && v[j] != '\n'
        invariant
            start <= j <= v.len(),
            forall|m: int| start <= m < j ==> v@[m] != '\n',
        decreases v.len() - j,
    {
        j += 1;
    }
    proof {
        let t = v@.skip(start as int);
        assert forall|m: int| 0 <= m < j - start implies t[m] != '\n' by {
            assert(t[m] == v@[start + m]);
        }
        if j < v.len() {
            assert(t[j - start] == v@[j as int]);
        }
        lemma_nl_pos(t, j - start);
    }
    j
}

/// Reads the pattern lines of a score from `body_start` on (after its
/// frontmatter), line by line: the song with the given metadata and the tracks
/// read, or the span of the first line that holds no entry.
pub fn parse_song_body(source: &str, body_start: usize, metadata: Frontmatter) -> (r: Result<Song, ParseError>)
    requires
        body_start <= source@.len(),
        4 * source@.len() <= usize::MAX,
    ensures
        match body_from(source@, body_start as int, seq![], None) {
            Ok(ts) => r matches Ok(song) && tracks_view(song.tracks@) == ts && song.metadata == metadata,
            Err((start, line, k)) => r matches Err(ParseError::NomError { offset, length, kind })
                && offset == byte_len(source@.take(start)) && length == byte_len(line) && kind == k,
        },
{
    let v = chars_of(source);
    let ghost s = v@;
    let mut tracks: Vec<Track> = Vec::new();
    let mut current: Option<Track> = None;
    let mut start = body_start;
    loop
        invariant
            start <= v.len(),
            s == v@,
            s == source@,
            4 * s.len() <= usize::MAX,
            body_from(s, start as int, tracks_view(tracks@), current_view(current)) == body_from(
                s,
                body_start as int,
                seq![],
                None,
            ),
        decreases v.len() - start,
    {
        let ghost cur_view = current_view(current);
        if start >= v.len() {
            let ghost before = tracks_view(tracks@);
            if let Some(t) = current {
                proof {
                    lemma_tracks_view_push(tracks@, t);
                }
                tracks.push(t);
            }
            assert(tracks_view(tracks@) == close_track(before, cur_view));
            return Ok(Song { metadata, tracks });
        }
        let e = line_end_exec(&v, start);
        let mut le = e;
        if e < v.len() && e > start && v[e - 1] == '\r' {
            le = e - 1;
        }
        let raw = slice_vec(&v, start, le);
        assert(raw@ =~= line_text(s, start as int));
        let t = trimmed(&raw);
        match line_entry_exec(&t) {
            Err(k) => {
                let offset = byte_count(&v, 0, start);
                let length = byte_count(&v, start, le);
                assert(s.subrange(0, start as int) =~= s.take(start as int));
                return Err(ParseError::NomError { offset, length, kind: k });
            },
            Ok(entry) => {
                let ghost ev = parsed_line_view(entry);
                let ghost before = tracks_view(tracks@);
                match entry {
                    ParsedLine::TrackHeader { name, channel } => {
                        if let Some(t) = current.take() {
                            proof {
                                lemma_tracks_view_push(tracks@, t);
                            }
                            tracks.push(t);
                        }
                        assert(tracks_view(tracks@) == close_track(before, cur_view));
                        current = Some(Track { name, channel, lines: Vec::new() });
                        assert(lines_view(Seq::<Line>::empty()) =~= seq![]);
                    },
                    ParsedLine::Pattern { key, blocks } => {
                        match current.take() {
                            Some(mut t) => {
                                let ghost l0 = t.lines@;
                                let l = Line { note: key, blocks };
                                proof {
                                    lemma_lines_view_push(l0, l);
                                }
                                t.lines.push(l);
                                current = Some(t);
                            },
                            None => {},
                        }
                    },
                    _ => {},
                }
                if e >= v.len() {
                    let ghost before2 = tracks_view(tracks@);
                    let ghost cur2 = current_view(current);
                    if let Some(t) = current {
                        proof {
                            lemma_tracks_view_push(tracks@, t);
                        }
                        tracks.push(t);
                    }
                    assert(tracks_view(tracks@) == close_track(before2, cur2));
                    return Ok(Song { metadata, tracks });
                }
                start = e + 1;
            },
        }
    }
}

// ---------------------------------------------------------------------------
// Frontmatter
// ---------------------------------------------------------------------------

/// Where a score's frontmatter is.
pub enum FrontmatterSplit {
    /// The score does not start with `---`: its body starts at the first character.
    Absent,
    /// The YAML text between the opening `---` line and the next `---`, where the
    /// body starts (a character index, after the closing `---` and its line
    /// break, if any), and the byte offset of that place.
    Yaml { yaml: String, body_start: usize, end_offset: usize },
    /// The opening `---` is not followed by a line break, or is never closed: the
    /// byte offset where reading stopped.
    Malformed { offset: usize },
}

/// The length of the line break (`\n` or `\r\n`) at `i`, if there is one.
pub open spec fn line_break_at(s: Seq<char>, i: int) -> int {
    if 0 <= i < s.len() && s[i] == '\n' {
        1
    } else if 0 <= i && i + 1 < s.len() && s[i] == '\r' && s[i + 1] == '\n' {
        2
    } else {
        0
    }
}

/// Where the frontmatter of `s` is: `(yaml start, yaml end, body start)` in
/// characters, or the character index where reading stopped.
pub open spec fn frontmatter_of(s: Seq<char>) -> Option<Result<(int, int, int), int>> {
    if !is_prefix("---"@, s) {
        None
    } else {
        let lb = line_break_at(s, 3);
        if lb == 0 {
            Some(Err(3))
        } else {
            let p = 3 + lb;
            match find_from(s, "---"@, p) {
                None => Some(Err(p)),
                Some(q) => Some(Ok((p, q, q + 3 + line_break_at(s, q + 3)))),
            }
        }
    }
}

fn line_break_exec(v: &Vec<char>, i: usize) -> (r: usize)
    ensures
        r == line_break_at(v@, i as int),
{
    if i < v.len() && v[i] == '\n' {
        1
    } else if i < v.len() && v.len() - i > 1 && v[i] == '\r' && v[i + 1] == '\n' {
        2
    } else {
        0
    }
}

fn find_dashes(v: &Vec<char>, from: usize) -> (r: Option<usize>)
    requires
        from <= v.len(),
    ensures
        match find_from(v@, "---"@, from as int) {
            Some(q) => r == Some(q as usize) && from <= q && q + 3 <= v.len(),
            None => r is None,
        },
{
    let pat = chars_of("---");
    proof {
        reveal_strlit("---");
    }
    let mut i = from;
    while i < v.len()
        invariant
            from <= i <= v.len(),
            pat@ == "---"@,
            "---"@.len() == 3,
            find_from(v@, "---"@, from as int) == find_from(v@, "---"@, i as int),
        decreases v.len() - i,
    {
        if crate::text::has_prefix_at(v, i, &pat) {
            return Some(i);
        }
        i += 1;
    }
    None
}

/// Finds the frontmatter of a score.
pub fn split_frontmatter(source: &str) -> (r: FrontmatterSplit)
    requires
        4 * source@.len() <= usize::MAX,
    ensures
        match frontmatter_of(source@) {
            None => r is Absent,
            Some(Err(i)) => r matches FrontmatterSplit::Malformed { offset } && offset == byte_len(
                source@.take(i),
            ),
            Some(Ok((p, q, b))) => r matches FrontmatterSplit::Yaml { yaml, body_start, end_offset }
                && yaml@ == source@.subrange(p, q) && body_start == b && b <= source@.len()
                && end_offset == byte_len(source@.take(b)),
        },
{
    let v = chars_of(source);
    let dashes = chars_of("---");
    if !crate::text::starts_with(&v, &dashes) {
        return FrontmatterSplit::Absent;
    }
    proof {
        reveal_strlit("---");
    }
    let lb = line_break_exec(&v, 3);
    if lb == 0 {
        let offset = byte_count(&v, 0, 3);
        assert(v@.subrange(0, 3) =~= source@.take(3));
        return FrontmatterSplit::Malformed { offset };
    }
    let p = 3 + lb;
    match find_dashes(&v, p) {
        None => {
            let offset = byte_count(&v, 0, p);
            assert(v@.subrange(0, p as int) =~= source@.take(p as int));
            FrontmatterSplit::Malformed { offset }
        },
        Some(q) => {
            let b = q + 3 + line_break_exec(&v, q + 3);
            let yaml = slice_vec(&v, p, q);
            let end_offset = byte_count(&v, 0, b);
            assert(v@.subrange(0, b as int) =~= source@.take(b as int));
            FrontmatterSplit::Yaml { yaml: string_of(&yaml), body_start: b, end_offset }
        },
    }
}

} // verus!
