//! Track headers (`# Name: channel [s] [x]`) and the frontmatter settings that the
//! editor writes: `bpm`, `loop` and `loop_range`.
use vstd::prelude::*;
use crate::text::{
    all_digits, append, chars_of, chars_strings, concat, decimal, decimal_chars, eq_chars,
    first_index_of, first_where, is_digit, is_prefix, is_ws, join_lines, join_lines_vec,
    lemma_first_where, lemma_last_where, last_where, parse_unsigned, parse_unsigned_at, position_of, skip_ws, slice_vec,
    split_lines, split_lines_vec, starts_with, string_of, string_views, trim, trim_bounds,
    trim_start, trimmed, views, words, words_from, lead_ws, lemma_lead_ws_unique, nl_pos,
    lemma_nl_pos_bound, strip_cr, lemma_trail_ws_unique, lemma_decimal_value, lemma_first_index_of, nonws_len,
    lemma_split_first_line, lemma_split_join, lemma_trail_ws_bound, trail_ws, trim_end,
};
use crate::token::Frontmatter;
use crate::validation::{parse_signature, signature_outcome};

verus! {

/// A track header line: `# <name>: <channel>` with the flags `s` (solo) and `x` (mute).
#[derive(Clone, Debug, PartialEq, Eq)]
pub struct TrackHeader {
    pub name: String,
    pub channel: u8,
    pub solo: bool,
    pub muted: bool,
}

// ---------------------------------------------------------------------------
// Track headers
// ---------------------------------------------------------------------------

/// Number of ASCII digits that open `s`.
pub open spec fn digit_prefix_len(s: Seq<char>) -> nat
    decreases s.len(),
{
    if s.len() > 0 && is_digit(s[0]) {
        1 + digit_prefix_len(s.drop_first())
    } else {
        0
    }
}

proof fn lemma_digit_prefix_len(s: Seq<char>, n: int)
    requires
        0 <= n <= s.len(),
        forall|j: int| 0 <= j < n ==> is_digit(#[trigger] s[j]),
        n < s.len() ==> !is_digit(s[n]),
    ensures
        digit_prefix_len(s) == n,
    decreases s.len(),
{
    if n > 0 {
        assert forall|j: int| 0 <= j < n - 1 implies is_digit(#[trigger] s.drop_first()[j]) by {
            assert(s.drop_first()[j] == s[j + 1]);
        }
        if n - 1 < s.drop_first().len() {
            assert(s.drop_first()[n - 1] == s[n]);
        }
        lemma_digit_prefix_len(s.drop_first(), n - 1);
    }
}

/// What a track header line holds: `(name, channel, solo, muted)`.
///
/// The trimmed line starts with one `#` (not `##`); the text up to the first `:`
/// after it is the name; after the colon and any blanks come the decimal channel,
/// `1..=16`, then blank-separated flags, each `s` or `x`.
pub open spec fn spec_track_header(line: Seq<char>) -> Option<(Seq<char>, u8, bool, bool)> {
    let t = trim(line);
    if is_prefix("##"@, t) || !is_prefix("#"@, t) {
        None
    } else {
        let body = t.skip(1);
        match first_index_of(body, ':') {
            None => None,
            Some(c) => {
                let rest = trim_start(body.skip(c + 1));
                let nd = digit_prefix_len(rest);
                match parse_unsigned(rest.take(nd as int), 255) {
                    None => None,
                    Some(ch) => {
                        let flags = words(rest.skip(nd as int));
                        if !(1 <= ch <= 16) {
                            None
                        } else if forall|k: int|
                            0 <= k < flags.len() ==> #[trigger] flags[k] == "s"@ || flags[k] == "x"@ {
                            Some((trim(body.take(c)), ch as u8, flags.contains("s"@), flags.contains("x"@)))
                        } else {
                            None
                        }
                    },
                }
            },
        }
    }
}

/// `h` is the header that `line` holds.
pub open spec fn header_is(h: TrackHeader, line: Seq<char>) -> bool {
    spec_track_header(line) == Some((h.name@, h.channel, h.solo, h.muted))
}

fn eq_lit(v: &Vec<char>, lit: &str) -> (b: bool)
    ensures
        b == (v@ == lit@),
{
    eq_chars(v, &chars_of(lit))
}

/// Reads a track header line.
pub fn parse_track_header(line: &str) -> (r: Option<TrackHeader>)
    ensures
        match spec_track_header(line@) {
            Some(h) => r matches Some(x) && x.name@ == h.0 && x.channel == h.1 && x.solo == h.2
                && x.muted == h.3,
            None => r is None,
        },
{
    let v = chars_of(line);
    parse_track_header_chars(&v)
}

/// Reads a track header line given as characters.
pub fn parse_track_header_chars(v: &Vec<char>) -> (r: Option<TrackHeader>)
    ensures
        match spec_track_header(v@) {
            Some(h) => r matches Some(x) && x.name@ == h.0 && x.channel == h.1 && x.solo == h.2
                && x.muted == h.3,
            None => r is None,
        },
{
    let t = trimmed(v);
    if starts_with(&t, &chars_of("##")) || !starts_with(&t, &chars_of("#")) {
        return None;
    }
    proof {
        reveal_strlit("#");
    }
    let body = slice_vec(&t, 1, t.len());
    assert(body@ =~= t@.skip(1));
    let c = position_of(&body, ':')?;
    let after = slice_vec(&body, c + 1, body.len());
    assert(after@ =~= body@.skip(c + 1));
    let a = skip_ws(&after, 0);
    proof {
        lemma_lead_ws_unique(after@, a as int);
    }
    let rest = slice_vec(&after, a, after.len());
    assert(rest@ =~= trim_start(after@));
    let mut nd: usize = 0;
    while nd < rest.len() && crate::text::is_ascii_digit(rest[nd])
        invariant
            nd <= rest.len(),
            forall|j: int| 0 <= j < nd ==> is_digit(#[trigger] rest@[j]),
        decreases rest.len() - nd,
    {
        nd += 1;
    }
    proof {
        lemma_digit_prefix_len(rest@, nd as int);
        assert(rest@.subrange(0, nd as int) =~= rest@.take(nd as int));
    }
    let ch = parse_unsigned_at(&rest, 0, nd, 255)?;
    if !(1 <= ch && ch <= 16) {
        return None;
    }
    let flags = words_from(&rest, nd);
    let (solo, muted) = header_flags(&flags)?;
    let n = trimmed(&slice_vec(&body, 0, c));
    proof {
        assert(body@.take(c as int) =~= body@.subrange(0, c as int));
    }
    Some(TrackHeader { name: string_of(&n), channel: ch as u8, solo, muted })
}

/// The solo and mute flags of a header's flag words, when every word is `s` or `x`.
fn header_flags(flags: &Vec<Vec<char>>) -> (r: Option<(bool, bool)>)
    ensures
        ({
            let fs = views(flags@);
            if forall|k: int| 0 <= k < fs.len() ==> #[trigger] fs[k] == "s"@ || fs[k] == "x"@ {
                r == Some((fs.contains("s"@), fs.contains("x"@)))
            } else {
                r is None
            }
        }),
{
    let mut solo = false;
    let mut muted = false;
    let mut k: usize = 0;
    let ghost fs = views(flags@);
    while k < flags.len()
        invariant
            k <= flags.len(),
            fs == views(flags@),
            forall|j: int| 0 <= j < k ==> #[trigger] fs[j] == "s"@ || fs[j] == "x"@,
            solo == exists|j: int| 0 <= j < k && fs[j] == "s"@,
            muted == exists|j: int| 0 <= j < k && fs[j] == "x"@,
        decreases flags.len() - k,
    {
        let is_s = eq_lit(&flags[k], "s");
        let is_x = eq_lit(&flags[k], "x");
        assert(fs[k as int] == flags@[k as int]@);
        if is_s {
            solo = true;
        } else if is_x {
            muted = true;
        } else {
            assert(!(fs[k as int] == "s"@ || fs[k as int] == "x"@));
            return None;
        }
        proof {
            reveal_strlit("s");
            reveal_strlit("x");
            assert("s"@ != "x"@) by {
                assert("s"@[0] != "x"@[0]);
            }
        }
        k += 1;
    }
    proof {
        if solo {
            let j = choose|j: int| 0 <= j < k && fs[j] == "s"@;
            assert(fs.contains("s"@));
        } else {
            assert(!fs.contains("s"@));
        }
        if muted {
            let j = choose|j: int| 0 <= j < k && fs[j] == "x"@;
            assert(fs.contains("x"@));
        } else {
            assert(!fs.contains("x"@));
        }
    }
    Some((solo, muted))
}

/// The canonical text of a track header: `# <name>: <channel>`, then ` s` when
/// solo and ` x` when muted.
pub open spec fn spec_format_track_header(h: TrackHeader) -> Seq<char> {
    "# "@ + h.name@ + ": "@ + decimal(h.channel as nat) + (if h.solo {
        " s"@
    } else {
        Seq::empty()
    }) + (if h.muted {
        " x"@
    } else {
        Seq::empty()
    })
}

/// Writes a track header in canonical form.
pub fn format_track_header(header: &TrackHeader) -> (r: String)
    ensures
        r@ == spec_format_track_header(*header),
{
    let mut out = chars_of("# ");
    append(&mut out, &chars_of(header.name.as_str()));
    append(&mut out, &chars_of(": "));
    append(&mut out, &decimal_chars(header.channel as u64));
    let ghost base = out@;
    if header.solo {
        append(&mut out, &chars_of(" s"));
    }
    let ghost mid = out@;
    if header.muted {
        append(&mut out, &chars_of(" x"));
    }
    proof {
        if !header.solo {
            assert(base + Seq::<char>::empty() =~= base);
        }
        if !header.muted {
            assert(mid + Seq::<char>::empty() =~= mid);
        }
    }
    string_of(&out)
}

/// The flags of a canonical header: ` s` when solo, then ` x` when muted.
pub open spec fn flag_text(solo: bool, muted: bool) -> Seq<char> {
    (if solo { " s"@ } else { Seq::empty() }) + (if muted { " x"@ } else { Seq::empty() })
}

proof fn lemma_word_after_blank(c: char, rest: Seq<char>)
    requires
        !is_ws(c),
        rest.len() == 0 || is_ws(rest[0]),
    ensures
        words(seq![' ', c] + rest) == seq![seq![c]] + words(rest),
{
    let s = seq![' ', c] + rest;
    assert(is_ws(' '));
    lemma_lead_ws_unique(s, 1);
    let t = s.skip(1);
    assert(t =~= seq![c] + rest);
    assert(t[0] == c);
    if rest.len() > 0 {
        assert(t[1] == rest[0]);
    }
    lemma_nonws_len_is(t, 1);
    assert(t.take(1) =~= seq![c]);
    assert(t.skip(1) =~= rest);
}

proof fn lemma_nonws_len_is(t: Seq<char>, n: int)
    requires
        n == 1,
        t.len() >= 1,
        !is_ws(t[0]),
        t.len() == 1 || is_ws(t[1]),
    ensures
        nonws_len(t) == 1,
{
    let d = t.drop_first();
    if d.len() > 0 {
        assert(d[0] == t[1]);
    }
    assert(nonws_len(d) == 0);
}

proof fn lemma_flag_words(solo: bool, muted: bool)
    ensures
        ({
            let fs = words(flag_text(solo, muted));
            &&& forall|k: int| 0 <= k < fs.len() ==> #[trigger] fs[k] == "s"@ || fs[k] == "x"@
            &&& fs.contains("s"@) == solo
            &&& fs.contains("x"@) == muted
        }),
{
    reveal_strlit(" s");
    reveal_strlit(" x");
    reveal_strlit("s");
    reveal_strlit("x");
    let e = Seq::<char>::empty();
    assert(words(e) =~= Seq::<Seq<char>>::empty());
    let xs = if muted { " x"@ } else { e };
    let wx: Seq<Seq<char>> = if muted { seq!["x"@] } else { seq![] };
    if muted {
        assert(" x"@ =~= seq![' ', 'x'] + e);
        lemma_word_after_blank('x', e);
        assert("x"@ =~= seq!['x']);
        assert(seq!["x"@] =~= seq![seq!['x']] + words(e));
    }
    assert(words(xs) == wx);
    let ws = if solo {
        assert(flag_text(solo, muted) =~= seq![' ', 's'] + xs);
        if muted {
            assert(xs[0] == ' ');
        }
        lemma_word_after_blank('s', xs);
        assert("s"@ =~= seq!['s']);
        assert(seq![seq!['s']] + wx =~= seq!["s"@] + wx);
        seq!["s"@] + wx
    } else {
        assert(flag_text(solo, muted) =~= xs);
        wx
    };
    let fs = words(flag_text(solo, muted));
    assert(fs == ws);
    if solo {
        assert(fs[0] == "s"@);
    }
    if muted {
        assert(fs[fs.len() - 1] == "x"@);
    }
    assert("s"@[0] != "x"@[0]);
    assert("s"@ != "x"@);
}

proof fn lemma_canonical_line_trimmed(name: Seq<char>, digits: Seq<char>, flags: Seq<char>)
    requires
        digits.len() > 0,
        all_digits(digits),
        flags.len() > 0 ==> !is_ws(flags.last()),
    ensures
        ({
            let line = "# "@ + name + ": "@ + digits + flags;
            &&& trim(line) == line
            &&& !is_prefix("##"@, line)
            &&& is_prefix("#"@, line)
        }),
{
    reveal_strlit("# ");
    reveal_strlit(": ");
    reveal_strlit("##");
    reveal_strlit("#");
    let line = "# "@ + name + ": "@ + digits + flags;
    assert(line[0] == '#');
    lemma_lead_ws_unique(line, 0);
    if flags.len() > 0 {
        assert(line.last() == flags.last());
    } else {
        assert(line.last() == digits.last());
        assert(is_digit(digits[digits.len() - 1]));
    }
    lemma_trail_ws_unique(line, 0);
    assert(trim(line) =~= line);
    assert(line[1] == ' ');
    assert(line.take(1) =~= "#"@);
    assert(line.take(2) != "##"@) by {
        assert(line.take(2)[1] == ' ');
    }
}

proof fn lemma_canonical_body(name: Seq<char>, digits: Seq<char>, flags: Seq<char>)
    requires
        name.len() > 0 ==> !is_ws(name[0]) && !is_ws(name.last()),
        forall|i: int| 0 <= i < name.len() ==> name[i] != ':',
        digits.len() > 0,
        all_digits(digits),
        flags.len() == 0 || flags[0] == ' ',
    ensures
        ({
            let body = (seq![' '] + name + ": "@ + digits + flags);
            let c: int = 1 + name.len() as int;
            &&& first_index_of(body, ':') == Some(c)
            &&& trim(body.take(c)) == name
            &&& trim_start(body.skip(c + 1)) == digits + flags
        }),
{
    reveal_strlit(": ");
    let body = seq![' '] + name + ": "@ + digits + flags;
    let c: int = 1 + name.len() as int;
    assert forall|j: int| 0 <= j < c implies body[j] != ':' by {
        if j > 0 {
            assert(body[j] == name[j - 1]);
        }
    }
    assert(body[c] == ':');
    lemma_first_index_of(body, ':', c);
    let head = body.take(c);
    assert(head =~= seq![' '] + name);
    assert(is_ws(' '));
    lemma_lead_ws_unique(head, 1);
    assert(trim_start(head) =~= name);
    if name.len() > 0 {
        lemma_trail_ws_unique(name, 0);
    } else {
        lemma_trail_ws_unique(name, 0);
    }
    assert(trim(head) =~= name);
    let after = body.skip(c + 1);
    assert(after =~= seq![' '] + digits + flags);
    assert(after[1] == digits[0]);
    assert(is_digit(digits[0]));
    lemma_lead_ws_unique(after, 1);
    assert(trim_start(after) =~= digits + flags);
}

proof fn lemma_canonical_rest(digits: Seq<char>, flags: Seq<char>, channel: u8)
    requires
        digits == decimal(channel as nat),
        flags.len() == 0 || flags[0] == ' ',
    ensures
        ({
            let rest = digits + flags;
            let nd = digit_prefix_len(rest);
            &&& nd == digits.len()
            &&& parse_unsigned(rest.take(nd as int), 255) == Some(channel as nat)
            &&& rest.skip(nd as int) == flags
        }),
{
    lemma_decimal_value(channel as nat);
    let rest = digits + flags;
    assert forall|j: int| 0 <= j < digits.len() implies is_digit(#[trigger] rest[j]) by {
        assert(rest[j] == digits[j]);
    }
    if flags.len() > 0 {
        assert(rest[digits.len() as int] == ' ');
    }
    lemma_digit_prefix_len(rest, digits.len() as int);
    assert(rest.take(digits.len() as int) =~= digits);
    assert(rest.skip(digits.len() as int) =~= flags);
    assert(is_digit(digits[0]));
}

/// Writing a header and reading the line back gives the same header, for every
/// header whose name can be read back: without `:`, and neither starting nor
/// ending with a blank (an empty name too).
pub proof fn track_header_round_trip(h: TrackHeader)
    requires
        h.name@.len() > 0 ==> !is_ws(h.name@[0]) && !is_ws(h.name@.last()),
        forall|i: int| 0 <= i < h.name@.len() ==> h.name@[i] != ':',
        1 <= h.channel <= 16,
    ensures
        header_is(h, spec_format_track_header(h)),
{
    reveal_strlit("# ");
    reveal_strlit(" s");
    reveal_strlit(" x");
    let name = h.name@;
    let digits = decimal(h.channel as nat);
    let flags = flag_text(h.solo, h.muted);
    lemma_decimal_value(h.channel as nat);
    let line = spec_format_track_header(h);
    assert(line =~= "# "@ + name + ": "@ + digits + flags);
    if flags.len() > 0 {
        assert(flags.last() == 's' || flags.last() == 'x');
        assert(flags[0] == ' ');
    }
    lemma_canonical_line_trimmed(name, digits, flags);
    assert(line.skip(1) =~= seq![' '] + name + ": "@ + digits + flags);
    lemma_canonical_body(name, digits, flags);
    lemma_canonical_rest(digits, flags, h.channel);
    lemma_flag_words(h.solo, h.muted);
}

/// The 0-based MIDI channel of a track header line.
pub fn parse_track_header_channel(line: &str) -> (r: Option<u8>)
    ensures
        match spec_track_header(line@) {
            Some(h) => r == Some((h.1 - 1) as u8),
            None => r is None,
        },
{
    let h = parse_track_header(line)?;
    match crate::validation::to_zero_based_channel(h.channel) {
        Ok(c) => Some(c),
        Err(_) => None,
    }
}

// ---------------------------------------------------------------------------
// Frontmatter
// ---------------------------------------------------------------------------

/// Whether the source opens with a frontmatter delimiter line.
pub open spec fn opens_frontmatter(ls: Seq<Seq<char>>) -> bool {
    ls.len() > 0 && ls[0] == "---"@
}

/// Line `i` (after the first) is a `---` delimiter.
pub open spec fn is_closing(ls: Seq<Seq<char>>) -> spec_fn(int) -> bool {
    |i: int| i >= 1 && ls[i] == "---"@
}

/// The row of the frontmatter's closing delimiter.
pub open spec fn frontmatter_end(ls: Seq<Seq<char>>) -> Option<int> {
    first_where(ls.len() as int, is_closing(ls))
}

/// The lines of a source text (`str::lines`).
pub fn source_lines(source: &str) -> (r: Vec<Vec<char>>)
    ensures
        views(r@) == split_lines(source@),
{
    let v = chars_of(source);
    split_lines_vec(&v)
}

fn find_closing(ls: &Vec<Vec<char>>) -> (r: Option<usize>)
    ensures
        r matches Some(i) ==> frontmatter_end(views(ls@)) == Some(i as int) && 1 <= i < ls.len(),
        r is None ==> frontmatter_end(views(ls@)) is None,
{
    let ghost vs = views(ls@);
    let ghost p = is_closing(vs);
    if ls.len() == 0 {
        proof {
            lemma_first_where(0, p, 0);
        }
        return None;
    }
    assert(!p(0));
    let mut i: usize = 1;
    while i < ls.len()
        invariant
            1 <= i <= ls.len(),
            vs == views(ls@),
            p == is_closing(vs),
            forall|j: int| 0 <= j < i ==> !#[trigger] p(j),
        decreases ls.len() - i,
    {
        assert(vs[i as int] == ls@[i as int]@);
        if eq_lit(&ls[i], "---") {
            proof {
                lemma_first_where(vs.len() as int, p, i as int);
            }
            return Some(i);
        }
        i += 1;
    }
    proof {
        lemma_first_where(vs.len() as int, p, vs.len() as int);
    }
    None
}

/// Number of blank (all-whitespace) lines of `ls` from row `from` on.
pub open spec fn blank_run(ls: Seq<Seq<char>>, from: int) -> nat
    decreases ls.len() - from,
{
    if 0 <= from < ls.len() && trim(ls[from]).len() == 0 {
        1 + blank_run(ls, from + 1)
    } else {
        0
    }
}

/// The first row of the score body: `0` without frontmatter, else the first row
/// after the closing delimiter that is not blank.
pub open spec fn spec_score_body_start(ls: Seq<Seq<char>>) -> Result<int, Seq<char>> {
    if !opens_frontmatter(ls) {
        Ok(0)
    } else {
        match frontmatter_end(ls) {
            None => Err("Frontmatter block is not closed"@),
            Some(e) => Ok(e + 1 + blank_run(ls, e + 1)),
        }
    }
}

fn is_blank(v: &Vec<char>) -> (b: bool)
    ensures
        b == (trim(v@).len() == 0),
{
    let (a, c) = trim_bounds(v);
    a == c
}

fn opens_fm(ls: &Vec<Vec<char>>) -> (b: bool)
    ensures
        b == opens_frontmatter(views(ls@)),
{
    ls.len() > 0 && {
        assert(views(ls@)[0] == ls@[0]@);
        eq_lit(&ls[0], "---")
    }
}

/// The first row of the score body of `source`.
pub fn score_body_start_row(source: &str) -> (r: Result<usize, String>)
    ensures
        match spec_score_body_start(split_lines(source@)) {
            Ok(n) => r == Ok::<usize, String>(n as usize),
            Err(m) => r matches Err(e) && e@ == m,
        },
        r matches Ok(n) ==> spec_score_body_start(split_lines(source@)) == Ok::<int, Seq<char>>(n as int),
{
    let ls = source_lines(source);
    score_body_start_lines(&ls)
}

fn score_body_start_lines(ls: &Vec<Vec<char>>) -> (r: Result<usize, String>)
    ensures
        match spec_score_body_start(views(ls@)) {
            Ok(n) => r == Ok::<usize, String>(n as usize),
            Err(m) => r matches Err(e) && e@ == m,
        },
        r matches Ok(n) ==> n <= ls.len() && spec_score_body_start(views(ls@)) == Ok::<int, Seq<char>>(n as int),
{
    let ghost vs = views(ls@);
    if !opens_fm(ls) {
        return Ok(0);
    }
    let e = match find_closing(ls) {
        Some(e) => e,
        None => {
            return Err(string_of(&chars_of("Frontmatter block is not closed")));
        },
    };
    let mut row = e + 1;
    while row < ls.len() && is_blank(&ls[row])
        invariant
            e + 1 <= row <= ls.len(),
            vs == views(ls@),
            blank_run(vs, e + 1) == (row - (e + 1)) + blank_run(vs, row as int),
        decreases ls.len() - row,
    {
        assert(vs[row as int] == ls@[row as int]@);
        row += 1;
    }
    proof {
        if row < ls.len() {
            assert(vs[row as int] == ls@[row as int]@);
        }
    }
    Ok(row)
}


// ---------------------------------------------------------------------------
// Writing frontmatter settings
// ---------------------------------------------------------------------------

/// `lines.join("\n") + "\n"`.
pub open spec fn finish(ls: Seq<Seq<char>>) -> Seq<char> {
    join_lines(ls) + "\n"@
}

fn finish_source(ls: &Vec<Vec<char>>) -> (r: String)
    ensures
        r@ == finish(views(ls@)),
{
    let mut v = join_lines_vec(ls);
    v.push('\n');
    proof {
        reveal_strlit("\n");
        assert(v@ =~= join_lines(views(ls@)) + "\n"@);
    }
    string_of(&v)
}

/// Line `i` (after the first) holds the setting `key` (its trimmed text starts with `key:`).
pub open spec fn key_line(ls: Seq<Seq<char>>, key: Seq<char>) -> spec_fn(int) -> bool {
    |i: int| i >= 1 && is_prefix(key + ":"@, trim(ls[i]))
}

/// What writing the scalar setting `key: value` into the frontmatter of `src` gives.
///
/// Without frontmatter a block holding only the setting is put before the text. In
/// a closed block the first line of the setting is replaced (a bare `key:`, which
/// opens a nested value, is refused); without such a line the setting is added
/// before the closing delimiter.
pub open spec fn spec_set_simple(src: Seq<char>, key: Seq<char>, value: Seq<char>, label: Seq<char>) -> Result<
    Seq<char>,
    Seq<char>,
> {
    let ls = split_lines(src);
    let line = key + ": "@ + value;
    if !opens_frontmatter(ls) {
        if src.len() == 0 {
            Ok("---\n"@ + line + "\n---\n"@)
        } else {
            Ok("---\n"@ + line + "\n---\n\n"@ + src)
        }
    } else {
        match frontmatter_end(ls) {
            None => Err(label + " update failed: frontmatter block is not closed"@),
            Some(e) => match first_where(e, key_line(ls, key)) {
                Some(i) => if trim(ls[i]) == key + ":"@ {
                    Err(label + " update supports only simple `"@ + key + ": value`"@)
                } else {
                    Ok(finish(ls.update(i, line)))
                },
                None => Ok(finish(ls.insert(e, line))),
            },
        }
    }
}

fn lit(s: &str) -> (r: Vec<char>)
    ensures
        r@ == s@,
{
    chars_of(s)
}

fn cat(a: &Vec<char>, b: &Vec<char>) -> (r: Vec<char>)
    ensures
        r@ == a@ + b@,
{
    concat(a, b)
}

proof fn lemma_views_update(ls: Seq<Vec<char>>, i: int, x: Vec<char>)
    requires
        0 <= i < ls.len(),
    ensures
        views(ls.update(i, x)) == views(ls).update(i, x@),
{
    assert(views(ls.update(i, x)) =~= views(ls).update(i, x@));
}

proof fn lemma_views_insert(ls: Seq<Vec<char>>, i: int, x: Vec<char>)
    requires
        0 <= i <= ls.len(),
    ensures
        views(ls.insert(i, x)) == views(ls).insert(i, x@),
{
    assert(views(ls.insert(i, x)) =~= views(ls).insert(i, x@));
}

/// The frontmatter text for a source without frontmatter: `---\n<body>---\n`, then
/// a blank line and the source when it is not empty.
fn new_frontmatter(src: &Vec<char>, body: &Vec<char>) -> (r: Vec<char>)
    ensures
        r@ == (if src@.len() == 0 {
            "---\n"@ + body@ + "---\n"@
        } else {
            "---\n"@ + body@ + "---\n\n"@ + src@
        }),
{
    let head = cat(&cat(&lit("---\n"), body), &lit("---\n"));
    if src.len() == 0 {
        head
    } else {
        let r = cat(&cat(&head, &lit("\n")), src);
        proof {
            reveal_strlit("---\n");
            reveal_strlit("---\n\n");
            reveal_strlit("\n");
            assert(r@ =~= "---\n"@ + body@ + "---\n\n"@ + src@);
        }
        r
    }
}

fn first_key_line(ls: &Vec<Vec<char>>, e: usize, key: &Vec<char>) -> (r: Option<usize>)
    requires
        e <= ls.len(),
    ensures
        r matches Some(i) ==> first_where(e as int, key_line(views(ls@), key@)) == Some(i as int) && 1 <= i < e,
        r is None ==> first_where(e as int, key_line(views(ls@), key@)) is None,
{
    let ghost vs = views(ls@);
    let ghost p = key_line(vs, key@);
    let mut pre = key.clone();
    pre.push(':');
    proof {
        reveal_strlit(":");
        assert(pre@ =~= key@ + ":"@);
    }
    if e == 0 {
        proof {
            lemma_first_where(0, p, 0);
        }
        return None;
    }
    assert(!p(0));
    let mut i: usize = 1;
    while i < e
        invariant
            1 <= i <= e <= ls.len(),
            vs == views(ls@),
            p == key_line(vs, key@),
            pre@ == key@ + ":"@,
            forall|j: int| 0 <= j < i ==> !#[trigger] p(j),
        decreases e - i,
    {
        assert(vs[i as int] == ls@[i as int]@);
        let t = trimmed(&ls[i]);
        if starts_with(&t, &pre) {
            proof {
                lemma_first_where(e as int, p, i as int);
            }
            return Some(i);
        }
        i += 1;
    }
    proof {
        lemma_first_where(e as int, p, e as int);
    }
    None
}

/// Writes the scalar setting `key: value` into the frontmatter of `source`.
pub fn set_simple_frontmatter_value(source: &str, key: &str, value: &str, label: &str) -> (r: Result<String, String>)
    ensures
        match spec_set_simple(source@, key@, value@, label@) {
            Ok(t) => r matches Ok(x) && x@ == t,
            Err(m) => r matches Err(x) && x@ == m,
        },
{
    let src = chars_of(source);
    let k = chars_of(key);
    let line = cat(&cat(&k, &lit(": ")), &chars_of(value));
    let mut ls = split_lines_vec(&src);
    if !opens_fm(&ls) {
        let body = cat(&line, &lit("\n"));
        let r = new_frontmatter(&src, &body);
        proof {
            reveal_strlit("\n");
            reveal_strlit("---\n");
            reveal_strlit("\n---\n");
            reveal_strlit("---\n\n");
            reveal_strlit("\n---\n\n");
            assert("---\n"@ + body@ + "---\n"@ =~= "---\n"@ + line@ + "\n---\n"@);
            assert("---\n"@ + body@ + "---\n\n"@ + src@ =~= "---\n"@ + line@ + "\n---\n\n"@ + src@);
        }
        return Ok(string_of(&r));
    }
    let e = match find_closing(&ls) {
        Some(e) => e,
        None => {
            let m = cat(&chars_of(label), &lit(" update failed: frontmatter block is not closed"));
            return Err(string_of(&m));
        },
    };
    match first_key_line(&ls, e, &k) {
        Some(i) => {
            let t = trimmed(&ls[i]);
            assert(views(ls@)[i as int] == ls@[i as int]@);
            let mut bare = k.clone();
            bare.push(':');
            proof {
                reveal_strlit(":");
                assert(bare@ =~= k@ + ":"@);
            }
            if eq_chars(&t, &bare) {
                let m = cat(
                    &cat(&cat(&chars_of(label), &lit(" update supports only simple `")), &k),
                    &lit(": value`"),
                );
                return Err(string_of(&m));
            }
            let ghost old_ls = ls@;
            ls.set(i, line);
            proof {
                lemma_views_update(old_ls, i as int, line);
            }
            Ok(finish_source(&ls))
        },
        None => {
            let ghost old_ls = ls@;
            ls.insert(e, line);
            proof {
                lemma_views_insert(old_ls, e as int, line);
            }
            Ok(finish_source(&ls))
        },
    }
}

/// Writes `bpm: <bpm>`; a tempo outside `1..=999` is refused.
pub fn set_bpm_frontmatter(source: &str, bpm: u32) -> (r: Result<String, String>)
    ensures
        !(1 <= bpm <= 999) ==> (r matches Err(m) && m@ == "BPM must be 1..999"@),
        1 <= bpm <= 999 ==> match spec_set_simple(source@, "bpm"@, decimal(bpm as nat), "BPM"@) {
            Ok(t) => r matches Ok(x) && x@ == t,
            Err(m) => r matches Err(x) && x@ == m,
        },
{
    if !(1 <= bpm && bpm <= 999) {
        return Err(string_of(&lit("BPM must be 1..999")));
    }
    let value = string_of(&decimal_chars(bpm as u64));
    set_simple_frontmatter_value(source, "bpm", value.as_str(), "BPM")
}

/// Writes `loop: true` or `loop: false`.
pub fn set_loop_enabled_frontmatter(source: &str, enabled: bool) -> (r: Result<String, String>)
    ensures
        match spec_set_simple(source@, "loop"@, if enabled { "true"@ } else { "false"@ }, "Loop"@) {
            Ok(t) => r matches Ok(x) && x@ == t,
            Err(m) => r matches Err(x) && x@ == m,
        },
{
    set_simple_frontmatter_value(source, "loop", if enabled { "true" } else { "false" }, "Loop")
}


// ---------------------------------------------------------------------------
// Loop settings
// ---------------------------------------------------------------------------

/// The trimmed text of line `i` starts with `loop:`.
pub open spec fn starts_loop(ls: Seq<Seq<char>>, i: int) -> bool {
    is_prefix("loop:"@, trim(ls[i]))
}

/// The trimmed text of line `i` starts with `loop_range:` (and not `loop:`).
pub open spec fn starts_range(ls: Seq<Seq<char>>, i: int) -> bool {
    !starts_loop(ls, i) && is_prefix("loop_range:"@, trim(ls[i]))
}

/// Line `i` is a `loop` or `loop_range` setting that the editor cannot rewrite: a
/// `loop:` other than `loop: true` / `loop: false`, or a bare `loop_range:`.
pub open spec fn complex_loop_line(ls: Seq<Seq<char>>) -> spec_fn(int) -> bool {
    |i: int|
        i >= 1 && ((starts_loop(ls, i) && trim(ls[i]) != "loop: true"@ && trim(ls[i]) != "loop: false"@)
            || (starts_range(ls, i) && trim(ls[i]) == "loop_range:"@))
}

/// Line `i` is `loop: true` or `loop: false`.
pub open spec fn simple_loop_line(ls: Seq<Seq<char>>) -> spec_fn(int) -> bool {
    |i: int| i >= 1 && starts_loop(ls, i)
}

/// Line `i` is a `loop_range:` setting.
pub open spec fn range_line(ls: Seq<Seq<char>>) -> spec_fn(int) -> bool {
    |i: int| i >= 1 && starts_range(ls, i)
}

/// What enabling the loop over `range` in the frontmatter of `src` gives.
///
/// Without frontmatter a block with `loop: true` and the range is put first. In a
/// closed block the last `loop:` line becomes `loop: true` (or one is added before
/// the closing delimiter), and the last `loop_range:` line takes the range (or one
/// is added before the closing delimiter); a setting the editor cannot rewrite is
/// refused.
pub open spec fn spec_set_loop_range(src: Seq<char>, range: Seq<char>) -> Result<Seq<char>, Seq<char>> {
    let ls = split_lines(src);
    if !opens_frontmatter(ls) {
        if src.len() == 0 {
            Ok("---\nloop: true\nloop_range: "@ + range + "\n---\n"@)
        } else {
            Ok("---\nloop: true\nloop_range: "@ + range + "\n---\n\n"@ + src)
        }
    } else {
        match frontmatter_end(ls) {
            None => Err("Loop range failed: frontmatter block is not closed"@),
            Some(e) => match first_where(e, complex_loop_line(ls)) {
                Some(i) => if starts_loop(ls, i) {
                    Err("Loop range supports only simple `loop: true` or `loop: false`"@)
                } else {
                    Err("Loop range supports only simple `loop_range: start..end`"@)
                },
                None => {
                    let ll = last_where(e, simple_loop_line(ls));
                    let rl = last_where(e, range_line(ls));
                    let l1 = match ll {
                        Some(i) => ls.update(i, "loop: true"@),
                        None => ls.insert(e, "loop: true"@),
                    };
                    let rl1 = match ll {
                        Some(_) => rl,
                        None => match rl {
                            Some(j) => Some(j + 1),
                            None => None,
                        },
                    };
                    let line = "loop_range: "@ + range;
                    let l2 = match rl1 {
                        Some(j) => l1.update(j, line),
                        None => l1.insert(
                            match frontmatter_end(l1) {
                                Some(c) => c,
                                None => l1.len() as int,
                            },
                            line,
                        ),
                    };
                    Ok(finish(l2))
                },
            },
        }
    }
}

fn trimmed_line(ls: &Vec<Vec<char>>, i: usize) -> (t: Vec<char>)
    requires
        i < ls.len(),
    ensures
        t@ == trim(views(ls@)[i as int]),
{
    assert(views(ls@)[i as int] == ls@[i as int]@);
    trimmed(&ls[i])
}

/// Scans rows `1..e` for the settings that loop editing reads: the first line that
/// cannot be rewritten, and the last simple `loop:` and `loop_range:` lines.
fn scan_loop_lines(ls: &Vec<Vec<char>>, e: usize) -> (r: (Option<usize>, Option<usize>, Option<usize>))
    requires
        1 <= e <= ls.len(),
    ensures
        r.0 matches Some(i) ==> first_where(e as int, complex_loop_line(views(ls@))) == Some(i as int) && i < e,
        r.0 is None ==> first_where(e as int, complex_loop_line(views(ls@))) is None,
        r.0 is None ==> (r.1 matches Some(i) ==> last_where(e as int, simple_loop_line(views(ls@))) == Some(i as int) && i < e),
        r.0 is None ==> (r.1 is None ==> last_where(e as int, simple_loop_line(views(ls@))) is None),
        r.0 is None ==> (r.2 matches Some(i) ==> last_where(e as int, range_line(views(ls@))) == Some(i as int) && i < e),
        r.0 is None ==> (r.2 is None ==> last_where(e as int, range_line(views(ls@))) is None),
{
    let ghost vs = views(ls@);
    let ghost pc = complex_loop_line(vs);
    let ghost pl = simple_loop_line(vs);
    let ghost pr = range_line(vs);
    let loop_pre = lit("loop:");
    let range_pre = lit("loop_range:");
    let mut ll: Option<usize> = None;
    let mut rl: Option<usize> = None;
    let mut i: usize = 1;
    assert(!pc(0) && !pl(0) && !pr(0));
    while i < e
        invariant
            1 <= i <= e <= ls.len(),
            vs == views(ls@),
            pc == complex_loop_line(vs),
            pl == simple_loop_line(vs),
            pr == range_line(vs),
            loop_pre@ == "loop:"@,
            range_pre@ == "loop_range:"@,
            forall|j: int| 0 <= j < i ==> !#[trigger] pc(j),
            match ll {
                Some(k) => k < i && pl(k as int) && forall|j: int| k < j < i ==> !#[trigger] pl(j),
                None => forall|j: int| 0 <= j < i ==> !#[trigger] pl(j),
            },
            match rl {
                Some(k) => k < i && pr(k as int) && forall|j: int| k < j < i ==> !#[trigger] pr(j),
                None => forall|j: int| 0 <= j < i ==> !#[trigger] pr(j),
            },
        decreases e - i,
    {
        let t = trimmed_line(ls, i);
        if starts_with(&t, &loop_pre) {
            if eq_chars(&t, &lit("loop: true")) || eq_chars(&t, &lit("loop: false")) {
                ll = Some(i);
            } else {
                proof {
                    lemma_first_where(e as int, pc, i as int);
                }
                return (Some(i), ll, rl);
            }
        } else if starts_with(&t, &range_pre) {
            if eq_chars(&t, &lit("loop_range:")) {
                proof {
                    lemma_first_where(e as int, pc, i as int);
                }
                return (Some(i), ll, rl);
            }
            rl = Some(i);
        }
        i += 1;
    }
    proof {
        lemma_first_where(e as int, pc, e as int);
        match ll {
            Some(k) => lemma_last_where(e as int, pl, k as int),
            None => lemma_last_where(e as int, pl, -1),
        }
        match rl {
            Some(k) => lemma_last_where(e as int, pr, k as int),
            None => lemma_last_where(e as int, pr, -1),
        }
    }
    (None, ll, rl)
}

/// Enables the loop over `loop_range` in the frontmatter of `source`.
pub fn set_loop_range_frontmatter(source: &str, loop_range: &str) -> (r: Result<String, String>)
    ensures
        match spec_set_loop_range(source@, loop_range@) {
            Ok(t) => r matches Ok(x) && x@ == t,
            Err(m) => r matches Err(x) && x@ == m,
        },
{
    let src = chars_of(source);
    let range = chars_of(loop_range);
    let mut ls = split_lines_vec(&src);
    if !opens_fm(&ls) {
        let body = cat(&cat(&lit("loop: true\nloop_range: "), &range), &lit("\n"));
        let r = new_frontmatter(&src, &body);
        proof {
            reveal_strlit("loop: true\nloop_range: ");
            reveal_strlit("---\nloop: true\nloop_range: ");
            reveal_strlit("\n");
            reveal_strlit("---\n");
            reveal_strlit("\n---\n");
            reveal_strlit("---\n\n");
            reveal_strlit("\n---\n\n");
            assert("---\n"@ + body@ + "---\n"@ =~= "---\nloop: true\nloop_range: "@ + range@ + "\n---\n"@);
            assert("---\n"@ + body@ + "---\n\n"@ + src@ =~= "---\nloop: true\nloop_range: "@ + range@ + "\n---\n\n"@ + src@);
        }
        return Ok(string_of(&r));
    }
    let e = match find_closing(&ls) {
        Some(e) => e,
        None => {
            return Err(string_of(&lit("Loop range failed: frontmatter block is not closed")));
        },
    };
    let (bad, ll, rl) = scan_loop_lines(&ls, e);
    if let Some(i) = bad {
        let t = trimmed_line(&ls, i);
        if starts_with(&t, &lit("loop:")) {
            return Err(string_of(&lit("Loop range supports only simple `loop: true` or `loop: false`")));
        } else {
            return Err(string_of(&lit("Loop range supports only simple `loop_range: start..end`")));
        }
    }
    let ghost l0 = ls@;
    let rl1 = match ll {
        Some(i) => {
            ls.set(i, lit("loop: true"));
            proof {
                lemma_views_update(l0, i as int, ls@[i as int]);
            }
            rl
        },
        None => {
            ls.insert(e, lit("loop: true"));
            proof {
                lemma_views_insert(l0, e as int, ls@[e as int]);
            }
            match rl {
                Some(j) => Some(j + 1),
                None => None,
            }
        },
    };
    let line = cat(&lit("loop_range: "), &range);
    let ghost l1 = ls@;
    match rl1 {
        Some(j) => {
            assert(j < ls.len());
            ls.set(j, line);
            proof {
                lemma_views_update(l1, j as int, line);
            }
        },
        None => {
            let at = match find_closing(&ls) {
                Some(c) => c,
                None => ls.len(),
            };
            ls.insert(at, line);
            proof {
                lemma_views_insert(l1, at as int, line);
            }
        },
    }
    Ok(finish_source(&ls))
}


/// Line `i` is a `loop` or `loop_range` setting.
pub open spec fn setting_line(ls: Seq<Seq<char>>, i: int) -> bool {
    starts_loop(ls, i) || starts_range(ls, i)
}

/// Line `i` is a setting whose removal turns looping off: `loop: true` or a
/// `loop_range:`.
pub open spec fn enabling_line(ls: Seq<Seq<char>>) -> spec_fn(int) -> bool {
    |i: int| i >= 1 && (trim(ls[i]) == "loop: true"@ || starts_range(ls, i))
}

/// Line `i` (after the first) is a `loop` or `loop_range` setting.
pub open spec fn any_setting_line(ls: Seq<Seq<char>>) -> spec_fn(int) -> bool {
    |i: int| i >= 1 && setting_line(ls, i)
}

/// Rows `1..n` of `ls` without the `loop` and `loop_range` settings.
pub open spec fn kept_rows(ls: Seq<Seq<char>>, n: int) -> Seq<Seq<char>>
    decreases n,
{
    if n <= 1 {
        seq![]
    } else if setting_line(ls, n - 1) {
        kept_rows(ls, n - 1)
    } else {
        kept_rows(ls, n - 1).push(ls[n - 1])
    }
}

/// The lines left when the loop settings leave a block closed at row `e`: the block
/// without them, or, when nothing but blank lines remains in it, the lines after it
/// (without the first of them when that one is blank).
pub open spec fn cleared_rows(ls: Seq<Seq<char>>, e: int) -> Seq<Seq<char>> {
    let mid = kept_rows(ls, e);
    if forall|k: int| 0 <= k < mid.len() ==> trim(#[trigger] mid[k]).len() == 0 {
        let rest = ls.skip(e + 1);
        if rest.len() > 0 && trim(rest[0]).len() == 0 {
            rest.drop_first()
        } else {
            rest
        }
    } else {
        seq![ls[0]] + mid + ls.skip(e)
    }
}

/// What clearing the loop settings of the frontmatter of `src` gives: `None` when
/// nothing turns looping off; else the text without its `loop` and `loop_range`
/// lines, and without the whole block (and one blank line after it) when nothing
/// else remains in it.
pub open spec fn spec_clear_loop(src: Seq<char>) -> Result<Option<Seq<char>>, Seq<char>> {
    let ls = split_lines(src);
    if !opens_frontmatter(ls) {
        Ok(None)
    } else {
        match frontmatter_end(ls) {
            None => Err("Loop clear failed: frontmatter block is not closed"@),
            Some(e) => match first_where(e, complex_loop_line(ls)) {
                Some(i) => if starts_loop(ls, i) {
                    Err("Loop clear supports only simple `loop: true` or `loop: false`"@)
                } else {
                    Err("Loop clear supports only simple `loop_range: start..end`"@)
                },
                None => if first_where(e, enabling_line(ls)) is None {
                    Ok(None)
                } else {
                    Ok(Some(finish(cleared_rows(ls, e))))
                },
            },
        }
    }
}

/// The block that setting a loop range puts before a text without frontmatter.
pub open spec fn loop_block(range: Seq<char>) -> Seq<char> {
    "---\nloop: true\nloop_range: "@ + range + "\n---\n\n"@
}

proof fn lemma_loop_block_lines(range: Seq<char>, s: Seq<char>)
    requires
        forall|j: int| 0 <= j < range.len() ==> range[j] != '\n' && range[j] != '\r',
    ensures
        split_lines(loop_block(range) + s) == seq!["---"@, "loop: true"@, "loop_range: "@ + range, "---"@, Seq::<char>::empty()]
            + split_lines(s),
{
    reveal_strlit("---\nloop: true\nloop_range: ");
    reveal_strlit("\n---\n\n");
    reveal_strlit("---");
    reveal_strlit("loop: true");
    reveal_strlit("loop_range: ");
    let l2 = "loop_range: "@ + range;
    let e = Seq::<char>::empty();
    let nl = seq!['\n'];
    assert(loop_block(range) + s =~= "---"@ + nl + ("loop: true"@ + nl + (l2 + nl + ("---"@ + nl + (e + nl + s)))));
    assert forall|j: int| 0 <= j < l2.len() implies l2[j] != '\n' by {
        if j >= 12 {
            assert(l2[j] == range[j - 12]);
        }
    }
    if range.len() > 0 {
        assert(l2.last() == range.last());
    }
    lemma_split_first_line(e, s);
    lemma_split_first_line("---"@, e + nl + s);
    lemma_split_first_line(l2, "---"@ + nl + (e + nl + s));
    lemma_split_first_line("loop: true"@, l2 + nl + ("---"@ + nl + (e + nl + s)));
    lemma_split_first_line("---"@, "loop: true"@ + nl + (l2 + nl + ("---"@ + nl + (e + nl + s))));
    assert(seq!["---"@] + (seq!["loop: true"@] + (seq![l2] + (seq!["---"@] + (seq![e] + split_lines(s))))) =~= seq![
        "---"@,
        "loop: true"@,
        l2,
        "---"@,
        e,
    ] + split_lines(s));
}

/// The line `loop_range: <range>` is a range setting that the editor can rewrite,
/// when the range holds more than blanks.
proof fn lemma_range_line_simple(range: Seq<char>)
    requires
        trim(range).len() > 0,
    ensures
        ({
            let t = trim("loop_range: "@ + range);
            &&& is_prefix("loop_range:"@, t)
            &&& !is_prefix("loop:"@, t)
            &&& t != "loop_range:"@
        }),
{
    reveal_strlit("loop_range: ");
    reveal_strlit("loop_range:");
    reveal_strlit("loop:");
    let l2 = "loop_range: "@ + range;
    lemma_trail_ws_bound(range);
    let n = trail_ws(range);
    if n == range.len() {
        crate::text::lemma_lead_ws_bound(range);
        lemma_lead_ws_unique(range, range.len() as int);
        assert(trim_start(range).len() == 0);
        assert(trim(range).len() == 0);
    }
    assert(n < range.len());
    assert forall|j: int| l2.len() - n <= j < l2.len() implies is_ws(#[trigger] l2[j]) by {
        assert(l2[j] == range[j - 12]);
    }
    assert(l2[l2.len() - n - 1] == range[range.len() - n - 1]);
    lemma_trail_ws_unique(l2, n as int);
    assert(!is_ws(l2[0]));
    lemma_lead_ws_unique(l2, 0);
    assert(trim_start(l2) =~= l2);
    let t = trim(l2);
    assert(t =~= l2.take(l2.len() - n));
    assert(t.len() > 12);
    assert(t.take(11) =~= "loop_range:"@);
    assert(t[4] == '_');
    assert("loop:"@[4] == ':');
}

/// The lines of the text with the block are those the clearing reads: the block
/// closes at row 3, no setting in it is refused, looping is on, and nothing but
/// the settings is in it.
proof fn lemma_block_clear_rows(ls: Seq<Seq<char>>, range: Seq<char>)
    requires
        ls.len() >= 5,
        ls[0] == "---"@,
        ls[1] == "loop: true"@,
        ls[2] == "loop_range: "@ + range,
        ls[3] == "---"@,
        trim(range).len() > 0,
    ensures
        frontmatter_end(ls) == Some(3int),
        first_where(3, complex_loop_line(ls)) is None,
        first_where(3, enabling_line(ls)) is Some,
        kept_rows(ls, 3) == Seq::<Seq<char>>::empty(),
{
    reveal_strlit("---");
    reveal_strlit("loop: true");
    reveal_strlit("loop: false");
    reveal_strlit("loop:");
    reveal_strlit("loop_range: ");
    assert(!is_closing(ls)(1)) by {
        assert(ls[1].len() != "---"@.len());
    }
    assert(!is_closing(ls)(2)) by {
        assert(ls[2][0] == 'l');
    }
    assert(!is_closing(ls)(0));
    lemma_first_where(ls.len() as int, is_closing(ls), 3);
    lemma_lead_ws_unique("loop: true"@, 0);
    lemma_trail_ws_unique("loop: true"@, 0);
    assert(trim("loop: true"@) =~= "loop: true"@);
    assert("loop: true"@.take(5) =~= "loop:"@);
    lemma_range_line_simple(range);
    assert(starts_loop(ls, 1));
    assert(!starts_loop(ls, 2));
    assert(starts_range(ls, 2));
    assert forall|k: int| 0 <= k < 3 implies !#[trigger] complex_loop_line(ls)(k) by {}
    lemma_first_where(3, complex_loop_line(ls), 3);
    assert(enabling_line(ls)(1));
    assert(setting_line(ls, 1));
    assert(setting_line(ls, 2));
    assert(kept_rows(ls, 1) =~= Seq::<Seq<char>>::empty());
    assert(kept_rows(ls, 2) =~= Seq::<Seq<char>>::empty());
    assert(kept_rows(ls, 3) =~= Seq::<Seq<char>>::empty());
}

proof fn lemma_set_on_plain(s: Seq<char>, range: Seq<char>)
    requires
        s.len() > 0,
        !opens_frontmatter(split_lines(s)),
    ensures
        spec_set_loop_range(s, range) == Ok::<Seq<char>, Seq<char>>(loop_block(range) + s),
{
    reveal_strlit("---\nloop: true\nloop_range: ");
    reveal_strlit("\n---\n\n");
    assert("---\nloop: true\nloop_range: "@ + range + "\n---\n\n"@ + s =~= loop_block(range) + s);
}

proof fn lemma_clear_of_rows(t: Seq<char>)
    requires
        opens_frontmatter(split_lines(t)),
        frontmatter_end(split_lines(t)) == Some(3int),
        first_where(3, complex_loop_line(split_lines(t))) is None,
        first_where(3, enabling_line(split_lines(t))) is Some,
    ensures
        spec_clear_loop(t) == Ok::<Option<Seq<char>>, Seq<char>>(Some(finish(cleared_rows(split_lines(t), 3)))),
{
}

proof fn lemma_cleared_plain(ls: Seq<Seq<char>>, s: Seq<char>)
    requires
        ls.len() >= 5,
        ls.skip(4) == seq![Seq::<char>::empty()] + split_lines(s),
        kept_rows(ls, 3) == Seq::<Seq<char>>::empty(),
    ensures
        cleared_rows(ls, 3) == split_lines(s),
{
    let rest = ls.skip(4);
    assert(trim(rest[0]).len() == 0);
    assert(rest.drop_first() =~= split_lines(s));
}

proof fn lemma_block_rows(range: Seq<char>, s: Seq<char>)
    requires
        forall|j: int| 0 <= j < range.len() ==> range[j] != '\n' && range[j] != '\r',
    ensures
        ({
            let ls = split_lines(loop_block(range) + s);
            &&& ls.len() >= 5
            &&& ls[0] == "---"@
            &&& ls[1] == "loop: true"@
            &&& ls[2] == "loop_range: "@ + range
            &&& ls[3] == "---"@
            &&& ls.skip(4) == seq![Seq::<char>::empty()] + split_lines(s)
        }),
{
    lemma_loop_block_lines(range, s);
    let ls = split_lines(loop_block(range) + s);
    let head = seq!["---"@, "loop: true"@, "loop_range: "@ + range, "---"@, Seq::<char>::empty()];
    assert(ls[0] == head[0]);
    assert(ls[1] == head[1]);
    assert(ls[2] == head[2]);
    assert(ls[3] == head[3]);
    assert(ls.skip(4) =~= seq![Seq::<char>::empty()] + split_lines(s));
}

proof fn lemma_text_back(s: Seq<char>)
    requires
        s.len() > 0,
        s.last() == '\n',
        forall|j: int| 0 <= j < s.len() ==> s[j] != '\r',
    ensures
        finish(split_lines(s)) == s,
{
    lemma_split_join(s);
    reveal_strlit("\n");
    assert(finish(split_lines(s)) =~= s);
}

/// Setting a loop range on a text without frontmatter and then clearing the loop
/// settings gives the text back: the block that the first added, and the blank
/// line after it, are taken away again. This holds for a text that ends with a
/// newline and has no carriage return, and a one-line range that holds more than
/// blanks.
pub proof fn clear_after_set_gives_back(s: Seq<char>, range: Seq<char>)
    requires
        s.len() > 0,
        s.last() == '\n',
        forall|j: int| 0 <= j < s.len() ==> s[j] != '\r',
        !opens_frontmatter(split_lines(s)),
        trim(range).len() > 0,
        forall|j: int| 0 <= j < range.len() ==> range[j] != '\n' && range[j] != '\r',
    ensures
        spec_set_loop_range(s, range) == Ok::<Seq<char>, Seq<char>>(loop_block(range) + s),
        spec_clear_loop(loop_block(range) + s) == Ok::<Option<Seq<char>>, Seq<char>>(Some(s)),
{
    lemma_set_on_plain(s, range);
    let t = loop_block(range) + s;
    lemma_block_rows(range, s);
    let ls = split_lines(t);
    lemma_block_clear_rows(ls, range);
    reveal_strlit("---");
    lemma_clear_of_rows(t);
    lemma_cleared_plain(ls, s);
    lemma_text_back(s);
}

fn first_enabling(ls: &Vec<Vec<char>>, e: usize) -> (r: bool)
    requires
        1 <= e <= ls.len(),
    ensures
        r == (first_where(e as int, enabling_line(views(ls@))) is Some),
{
    let ghost vs = views(ls@);
    let ghost p = enabling_line(vs);
    let loop_pre = lit("loop:");
    let range_pre = lit("loop_range:");
    let mut i: usize = 1;
    assert(!p(0));
    while i < e
        invariant
            1 <= i <= e <= ls.len(),
            vs == views(ls@),
            p == enabling_line(vs),
            loop_pre@ == "loop:"@,
            range_pre@ == "loop_range:"@,
            forall|j: int| 0 <= j < i ==> !#[trigger] p(j),
        decreases e - i,
    {
        let t = trimmed_line(ls, i);
        if eq_chars(&t, &lit("loop: true")) || (!starts_with(&t, &loop_pre) && starts_with(&t, &range_pre)) {
            proof {
                lemma_first_where(e as int, p, i as int);
            }
            return true;
        }
        i += 1;
    }
    proof {
        lemma_first_where(e as int, p, e as int);
    }
    false
}

/// Clears the loop settings (`loop`, `loop_range`) of the frontmatter of `source`.
pub fn clear_loop_settings_frontmatter(source: &str) -> (r: Result<Option<String>, String>)
    ensures
        match spec_clear_loop(source@) {
            Ok(None) => r matches Ok(None),
            Ok(Some(t)) => r matches Ok(Some(x)) && x@ == t,
            Err(m) => r matches Err(x) && x@ == m,
        },
{
    let src = chars_of(source);
    let ls = split_lines_vec(&src);
    let ghost vs = views(ls@);
    if !opens_fm(&ls) {
        return Ok(None);
    }
    let e = match find_closing(&ls) {
        Some(e) => e,
        None => {
            return Err(string_of(&lit("Loop clear failed: frontmatter block is not closed")));
        },
    };
    let (bad, _, _) = scan_loop_lines(&ls, e);
    if let Some(i) = bad {
        let t = trimmed_line(&ls, i);
        if starts_with(&t, &lit("loop:")) {
            return Err(string_of(&lit("Loop clear supports only simple `loop: true` or `loop: false`")));
        } else {
            return Err(string_of(&lit("Loop clear supports only simple `loop_range: start..end`")));
        }
    }
    if !first_enabling(&ls, e) {
        return Ok(None);
    }
    let out = cleared_block(&ls, e);
    Ok(Some(finish_source(&out)))
}

/// The rows that `cleared_rows` gives for the block closed at row `e`.
fn cleared_block(ls: &Vec<Vec<char>>, e: usize) -> (out: Vec<Vec<char>>)
    requires
        1 <= e < ls.len(),
    ensures
        views(out@) == cleared_rows(views(ls@), e as int),
{
    let ghost vs = views(ls@);
    let (mid, all_blank) = kept_block_rows(ls, e);
    if all_blank {
        let k = if e + 1 < ls.len() && is_blank(&ls[e + 1]) {
            e + 2
        } else {
            e + 1
        };
        let out = rows_from(ls, k);
        proof {
            let rest = vs.skip(e + 1);
            if e + 1 < ls.len() {
                assert(rest[0] == vs[e + 1]);
                assert(vs[e + 1] == ls@[e + 1]@);
            }
            if rest.len() > 0 && trim(rest[0]).len() == 0 {
                assert(vs.skip(k as int) =~= rest.drop_first());
            } else {
                assert(vs.skip(k as int) =~= rest);
            }
        }
        out
    } else {
        let mut out: Vec<Vec<char>> = Vec::new();
        out.push(copy_line(&ls[0]));
        assert(views(out@) =~= seq![vs[0]]);
        append_rows(&mut out, &mid);
        let tail = rows_from(ls, e);
        append_rows(&mut out, &tail);
        out
    }
}

fn copy_line(v: &Vec<char>) -> (r: Vec<char>)
    ensures
        r@ == v@,
{
    let r = slice_vec(v, 0, v.len());
    assert(r@ =~= v@);
    r
}

/// Rows `from..` of `ls`.
fn rows_from(ls: &Vec<Vec<char>>, from: usize) -> (r: Vec<Vec<char>>)
    requires
        from <= ls.len(),
    ensures
        views(r@) == views(ls@).skip(from as int),
{
    let mut out: Vec<Vec<char>> = Vec::new();
    let mut k: usize = from;
    while k < ls.len()
        invariant
            from <= k <= ls.len(),
            views(out@) == views(ls@).subrange(from as int, k as int),
        decreases ls.len() - k,
    {
        let ghost o = views(out@);
        out.push(copy_line(&ls[k]));
        k += 1;
        assert(views(out@) =~= o.push(ls@[k - 1]@));
        assert(views(out@) =~= views(ls@).subrange(from as int, k as int));
    }
    assert(views(ls@).subrange(from as int, ls.len() as int) =~= views(ls@).skip(from as int));
    out
}

/// Appends the rows of `more` to `out`.
fn append_rows(out: &mut Vec<Vec<char>>, more: &Vec<Vec<char>>)
    ensures
        views(final(out)@) == views(old(out)@) + views(more@),
{
    let ghost o = views(out@);
    let mut k: usize = 0;
    while k < more.len()
        invariant
            k <= more.len(),
            views(out@) == o + views(more@).take(k as int),
        decreases more.len() - k,
    {
        let ghost o2 = views(out@);
        out.push(copy_line(&more[k]));
        k += 1;
        assert(views(out@) =~= o2.push(more@[k - 1]@));
        assert(views(out@) =~= o + views(more@).take(k as int));
    }
    assert(views(more@).take(more.len() as int) =~= views(more@));
}

/// Rows `1..e` of `ls` without the loop settings, and whether all of them are blank.
fn kept_block_rows(ls: &Vec<Vec<char>>, e: usize) -> (r: (Vec<Vec<char>>, bool))
    requires
        1 <= e <= ls.len(),
    ensures
        views(r.0@) == kept_rows(views(ls@), e as int),
        r.1 == forall|k: int| 0 <= k < views(r.0@).len() ==> trim(#[trigger] views(r.0@)[k]).len() == 0,
{
    let ghost vs = views(ls@);
    let loop_pre = lit("loop:");
    let range_pre = lit("loop_range:");
    let mut mid: Vec<Vec<char>> = Vec::new();
    let mut all_blank = true;
    let mut i: usize = 1;
    proof {
        assert(views(mid@) =~= kept_rows(vs, 1));
    }
    while i < e
        invariant
            1 <= i <= e <= ls.len(),
            vs == views(ls@),
            loop_pre@ == "loop:"@,
            range_pre@ == "loop_range:"@,
            views(mid@) == kept_rows(vs, i as int),
            all_blank == forall|k: int| 0 <= k < views(mid@).len() ==> trim(#[trigger] views(mid@)[k]).len() == 0,
        decreases e - i,
    {
        let t = trimmed_line(ls, i);
        let is_setting = starts_with(&t, &loop_pre) || starts_with(&t, &range_pre);
        if !is_setting {
            let ghost m0 = views(mid@);
            let line = copy_line(&ls[i]);
            let blank = is_blank(&line);
            mid.push(line);
            proof {
                assert(vs[i as int] == ls@[i as int]@);
                assert(views(mid@) =~= m0.push(vs[i as int]));
            }
            all_blank = all_blank && blank;
            proof {
                let mv = views(mid@);
                if all_blank {
                    assert forall|k: int| 0 <= k < mv.len() implies trim(#[trigger] mv[k]).len() == 0 by {
                        if k < m0.len() {
                            assert(mv[k] == m0[k]);
                        }
                    }
                } else {
                    if !blank {
                        assert(trim(mv[mv.len() - 1]).len() != 0);
                    } else {
                        let k = choose|k: int| 0 <= k < m0.len() && trim(#[trigger] m0[k]).len() != 0;
                        assert(mv[k] == m0[k]);
                    }
                }
            }
        }
        i += 1;
    }
    (mid, all_blank)
}

// ---------------------------------------------------------------------------
// Bars of the score and loop ranges
// ---------------------------------------------------------------------------

/// Number of `|` in `s`.
pub open spec fn pipe_count(s: Seq<char>) -> nat
    decreases s.len(),
{
    if s.len() == 0 {
        0
    } else {
        pipe_count(s.drop_last()) + if s.last() == '|' {
            1nat
        } else {
            0nat
        }
    }
}

/// Bars on a line: one fewer than its `|` (none when it has none).
pub open spec fn bar_count(s: Seq<char>) -> nat {
    if pipe_count(s) == 0 {
        0
    } else {
        (pipe_count(s) - 1) as nat
    }
}

proof fn lemma_pipe_count_bound(s: Seq<char>)
    ensures
        pipe_count(s) <= s.len(),
    decreases s.len(),
{
    if s.len() > 0 {
        lemma_pipe_count_bound(s.drop_last());
    }
}

fn bar_count_in_line(v: &Vec<char>) -> (r: usize)
    ensures
        r == bar_count(v@),
{
    let mut n: usize = 0;
    let mut i: usize = 0;
    while i < v.len()
        invariant
            i <= v.len(),
            n == pipe_count(v@.take(i as int)),
            n <= i,
        decreases v.len() - i,
    {
        assert(v@.take(i + 1).drop_last() =~= v@.take(i as int));
        if v[i] == '|' {
            n += 1;
        }
        i += 1;
    }
    assert(v@.take(v.len() as int) =~= v@);
    if n == 0 {
        0
    } else {
        n - 1
    }
}

/// A template header: its trimmed text starts with `# @`.
pub open spec fn is_template_header(line: Seq<char>) -> bool {
    is_prefix("# @"@, trim(line))
}

/// Sum of the lengths of the lines `ls`.
pub open spec fn total_len(ls: Seq<Seq<char>>) -> nat
    decreases ls.len(),
{
    if ls.len() == 0 {
        0
    } else {
        total_len(ls.drop_last()) + ls.last().len()
    }
}

proof fn lemma_total_len_prepend(a: Seq<char>, ls: Seq<Seq<char>>)
    ensures
        total_len(seq![a] + ls) == a.len() + total_len(ls),
    decreases ls.len(),
{
    if ls.len() == 0 {
        assert(seq![a] + ls =~= seq![a]);
        assert(seq![a].drop_last() =~= Seq::<Seq<char>>::empty());
        assert(total_len(seq![a]) == total_len(seq![a].drop_last()) + a.len());
    } else {
        assert((seq![a] + ls).drop_last() =~= seq![a] + ls.drop_last());
        assert((seq![a] + ls).last() == ls.last());
        lemma_total_len_prepend(a, ls.drop_last());
    }
}

proof fn lemma_split_lines_total(s: Seq<char>)
    ensures
        total_len(split_lines(s)) <= s.len(),
    decreases s.len(),
{
    if s.len() > 0 {
        let i = nl_pos(s);
        lemma_nl_pos_bound(s);
        if i >= s.len() {
            assert(split_lines(s) == seq![s]);
            assert(seq![s].drop_last() =~= Seq::<Seq<char>>::empty());
            assert(total_len(seq![s]) == total_len(seq![s].drop_last()) + s.len());
        } else {
            let head = strip_cr(s.take(i as int));
            let rest = s.skip((i + 1) as int);
            assert(split_lines(s) == seq![head] + split_lines(rest));
            assert(head.len() <= i);
            lemma_split_lines_total(rest);
            lemma_total_len_prepend(head, split_lines(rest));
        }
    }
}

proof fn lemma_total_len_take(ls: Seq<Seq<char>>, r: int)
    requires
        0 <= r <= ls.len(),
    ensures
        total_len(ls.take(r)) <= total_len(ls),
    decreases ls.len() - r,
{
    if r < ls.len() {
        assert(ls.take(r + 1).drop_last() =~= ls.take(r));
        lemma_total_len_take(ls, r + 1);
    } else {
        assert(ls.take(r) =~= ls);
    }
}

/// Walks the lines of a score from `row` on, looking for bar `local` of line
/// `target`. The state is whether the walk is in a track body or in a template
/// body, the number of bars of the track in the sections before the current one
/// (`base`), and the widest line of the current section (`count`). A track header
/// starts a track at bar 0, a template header a template, and a `---` line in a
/// track closes a section. Line `target`, when it is none of these, gives
/// `base + local` if it is in a track and has that bar.
pub open spec fn bar_walk(
    ls: Seq<Seq<char>>,
    row: int,
    target: int,
    local: int,
    in_track: bool,
    in_template: bool,
    base: int,
    count: int,
) -> Result<int, Seq<char>>
    decreases ls.len() - row,
{
    if row < 0 || row >= ls.len() {
        Err("Selected bar no longer exists"@)
    } else {
        let line = ls[row];
        if spec_track_header(line) is Some {
            bar_walk(ls, row + 1, target, local, true, false, 0, 0)
        } else if is_template_header(line) {
            bar_walk(ls, row + 1, target, local, false, true, base, count)
        } else if trim(line) == "---"@ {
            if in_track {
                bar_walk(ls, row + 1, target, local, in_track, in_template, base + count, 0)
            } else {
                bar_walk(ls, row + 1, target, local, in_track, in_template, base, count)
            }
        } else if row == target {
            if in_template || !in_track {
                Err("Loop range needs bars in a track body"@)
            } else if local >= bar_count(line) {
                Err("Selected bar no longer exists"@)
            } else {
                Ok(base + local)
            }
        } else {
            let widest = if in_track && bar_count(line) > count {
                bar_count(line) as int
            } else {
                count
            };
            bar_walk(ls, row + 1, target, local, in_track, in_template, base, widest)
        }
    }
}

/// The index, counted over the whole track, of bar `local` of line `target` of
/// `src`: the walk starts at the score body.
pub open spec fn spec_track_bar_index(src: Seq<char>, target: int, local: int) -> Result<int, Seq<char>> {
    let ls = split_lines(src);
    match spec_score_body_start(ls) {
        Err(m) => Err(m),
        Ok(r0) => bar_walk(ls, r0, target, local, false, false, 0, 0),
    }
}

/// The track-wide index of bar `local_index` of line `target_row`.
pub fn track_bar_index_at(source: &str, target_row: usize, local_index: usize) -> (r: Result<usize, String>)
    ensures
        match spec_track_bar_index(source@, target_row as int, local_index as int) {
            Ok(n) => r == Ok::<usize, String>(n as usize),
            Err(m) => r matches Err(e) && e@ == m,
        },
{
    let src = chars_of(source);
    let ls = split_lines_vec(&src);
    let ghost vs = views(ls@);
    proof {
        lemma_split_lines_total(src@);
    }
    let mut row = match score_body_start_lines(&ls) {
        Ok(r) => r,
        Err(e) => {
            return Err(e);
        },
    };
    let template_pre = lit("# @");
    let rule = lit("---");
    let mut in_track = false;
    let mut in_template = false;
    let mut base: usize = 0;
    let mut count: usize = 0;
    let ghost goal = bar_walk(vs, row as int, target_row as int, local_index as int, false, false, 0, 0);
    proof {
        assert(vs.take(row as int).len() >= 0);
        lemma_total_len_take(vs, row as int);
    }
    while row < ls.len()
        invariant
            row <= ls.len(),
            vs == views(ls@),
            template_pre@ == "# @"@,
            rule@ == "---"@,
            total_len(vs) <= usize::MAX,
            base + count <= total_len(vs.take(row as int)),
            bar_walk(vs, row as int, target_row as int, local_index as int, in_track, in_template, base as int, count as int) == goal,
            goal == spec_track_bar_index(source@, target_row as int, local_index as int),
        decreases ls.len() - row,
    {
        proof {
            lemma_total_len_take(vs, row + 1);
            assert(vs.take(row + 1).drop_last() =~= vs.take(row as int));
            assert(vs[row as int] == ls@[row as int]@);
            lemma_pipe_count_bound(vs[row as int]);
        }
        let line = &ls[row];
        if parse_track_header_chars(line).is_some() {
            in_track = true;
            in_template = false;
            base = 0;
            count = 0;
            row += 1;
            continue;
        }
        let t = trimmed(line);
        if starts_with(&t, &template_pre) {
            in_track = false;
            in_template = true;
            row += 1;
            continue;
        }
        if eq_chars(&t, &rule) {
            if in_track {
                base = base + count;
                count = 0;
            }
            row += 1;
            continue;
        }
        let bars = bar_count_in_line(line);
        if row == target_row {
            if in_template || !in_track {
                return Err(string_of(&lit("Loop range needs bars in a track body")));
            }
            if local_index >= bars {
                return Err(string_of(&lit("Selected bar no longer exists")));
            }
            return Ok(base + local_index);
        }
        if in_track && bars > count {
            count = bars;
        }
        row += 1;
    }
    Err(string_of(&lit("Selected bar no longer exists")))
}

/// The loop range (`start..end`, in the song's unit) that spans bars
/// `start_index..=end_index`: bar indices for the unit `bar`, and beats (bars
/// times the signature's numerator) for the unit `beat`.
pub open spec fn spec_loop_range(unit: Seq<char>, signature: Seq<char>, start: int, end: int) -> Result<Seq<char>, Seq<char>> {
    if unit == "beat"@ {
        match signature_outcome(signature) {
            Err(m) => Err("Cannot set loop range: "@ + m),
            Ok((n, _)) => Ok(decimal((start * n) as nat) + ".."@ + decimal(((end + 1) * n) as nat)),
        }
    } else {
        Ok(decimal(start as nat) + ".."@ + decimal((end + 1) as nat))
    }
}

/// The loop range that spans bars `start_index..=end_index` of a song with the
/// frontmatter `metadata`. In beats the bounds are whole numbers below 2^53,
/// which a float holds exactly; past that the result would depend on float
/// rounding.
pub fn loop_range_for_bar_indices(metadata: &Frontmatter, start_index: usize, end_index: usize) -> (r: Result<String, String>)
    requires
        end_index < usize::MAX,
        metadata.unit@ == "beat"@ ==> start_index < 0x20_0000_0000 && end_index < 0x20_0000_0000,
    ensures
        match spec_loop_range(metadata.unit@, metadata.signature@, start_index as int, end_index as int) {
            Ok(t) => r matches Ok(x) && x@ == t,
            Err(m) => r matches Err(x) && x@ == m,
        },
{
    let unit = chars_of(metadata.unit.as_str());
    let (start, end) = if eq_chars(&unit, &lit("beat")) {
        let numerator = match parse_signature(metadata.signature.as_str()) {
            Ok((n, _)) => n,
            Err(m) => {
                let msg = cat(&lit("Cannot set loop range: "), &chars_of(m.as_str()));
                return Err(string_of(&msg));
            },
        };
        let n = numerator as u64;
        proof {
            reveal_strlit("beat");
        }
        assert((start_index as u64) * n <= 0x20_0000_0000 * 0xffff) by (nonlinear_arith)
            requires start_index < 0x20_0000_0000, n <= 0xffff;
        let last = end_index as u64 + 1;
        assert(last * n <= 0x20_0000_0000 * 0xffff) by (nonlinear_arith)
            requires last <= 0x20_0000_0000, n <= 0xffff;
        ((start_index as u64) * n, last * n)
    } else {
        (start_index as u64, end_index as u64 + 1)
    };
    let text = cat(&cat(&decimal_chars(start), &lit("..")), &decimal_chars(end));
    Ok(string_of(&text))
}

} // verus!
