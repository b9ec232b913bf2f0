//! Adding to a score: tokens into `seq` slots, rest bars, separators, modifier
//! lines, track initialisation lines, new tracks and new template names.
use vstd::prelude::*;
use crate::studio::onset::{cell_intervals, onset_at_or_near_col_with_index};
use crate::studio::selection::{
    bar_at_or_near_col, bar_intervals, bar_spans_in_line, insert_at_col, is_seq_line, line_units,
    replace_char_range, replaced, spans_are, spec_bars, spec_is_seq_line, unit_intervals,
    unit_spans_in_line, UnitSpan,
};
use crate::studio::settings::{parse_track_header, parse_track_header_channel, spec_track_header};
use crate::studio::template_ops::{free_template_name, next_name, slug};
use crate::studio::track_init::{current_track_header_row, enclosing_header, header_at, last_header_row_upto};
use crate::studio::track_ops::{init_run, modifier_line_kind, spec_modifier_kind};
use crate::text::{
    append, chars_of, decimal, decimal_chars, first_index_of, is_prefix, is_whitespace, is_ws, last_where,
    lemma_last_where, lemma_near_col_index_bound, near_col_index, position_of, starts_with, string_of,
    string_views, trim, trim_end, trimmed, trimmed_end,
};

verus! {

/// Where a token was placed: its index among the units of the line.
pub struct PlacedSlot {
    pub index_on_line: usize,
}

/// Placing `token` at column `col` of a `seq` line gives the new line and the
/// index of the placed unit: the unit at or near `col` is replaced; in a line
/// without units, the token goes after the opening pipe of the bar at or near
/// `col` (` t`, or ` t ` when no blank follows that pipe). `None` for a line that
/// is not a `seq` line, or has no bar.
pub open spec fn seq_placement(line: Seq<char>, col: int, token: Seq<char>) -> Option<(Seq<char>, nat)> {
    if !spec_is_seq_line(line) {
        None
    } else {
        let us = line_units(line);
        match near_col_index(cell_intervals(us), col) {
            Some(i) => Some((replaced(line, us[i].0, us[i].1, token), i as nat)),
            None => match near_col_index(spec_bars(line), col) {
                None => None,
                Some(b) => {
                    let at = spec_bars(line)[b].0 + 1;
                    let ins = if at < line.len() && is_ws(line[at]) {
                        seq![' '] + token
                    } else {
                        seq![' '] + token + seq![' ']
                    };
                    Some((replaced(line, at, at, ins), 0))
                },
            },
        }
    }
}

/// The unit at or near `col`, with its index.
pub fn unit_at_or_near_col_with_index(notes: &[UnitSpan], col: usize) -> (r: Option<(usize, UnitSpan)>)
    ensures
        match near_col_index(unit_intervals(notes@), col as int) {
            Some(i) => r == Some((i as usize, notes@[i])),
            None => r is None,
        },
{
    onset_at_or_near_col_with_index(notes, col)
}

/// Places `token` at column `col` of the `seq` line `line`.
pub fn place_seq_token_at_slot(row: usize, line: &mut String, col: usize, token: &str) -> (r: Result<PlacedSlot, ()>)
    ensures
        match seq_placement(old(line)@, col as int, token@) {
            Some((t, i)) => r matches Ok(p) && p.index_on_line == i && final(line)@ == t,
            None => r is Err && final(line)@ == old(line)@,
        },
{
    if !is_seq_line(line.as_str()) {
        return Err(());
    }
    proof {
        lemma_near_col_index_bound(cell_intervals(line_units(line@)), col as int);
    }
    if let Some(index) = replace_near_unit(row, line, col, token) {
        return Ok(PlacedSlot { index_on_line: index });
    }
    if insert_in_bar(row, line, col, token) {
        Ok(PlacedSlot { index_on_line: 0 })
    } else {
        Err(())
    }
}

fn replace_near_unit(row: usize, line: &mut String, col: usize, token: &str) -> (r: Option<usize>)
    ensures
        ({
            let us = line_units(old(line)@);
            match near_col_index(cell_intervals(us), col as int) {
                Some(i) => r == Some(i as usize) && 0 <= i < us.len() <= usize::MAX && final(line)@
                    == replaced(old(line)@, us[i].0, us[i].1, token@),
                None => r is None && final(line)@ == old(line)@,
            }
        }),
{
    let ghost l0 = line@;
    let notes = unit_spans_in_line(row, line.as_str());
    proof {
        assert(unit_intervals(notes@) =~= cell_intervals(line_units(l0)));
        lemma_near_col_index_bound(unit_intervals(notes@), col as int);
        assert(notes@.len() == notes.len());
    }
    match unit_at_or_near_col_with_index(notes.as_slice(), col) {
        Some((index, note)) => {
            proof {
                let k = index as int;
                assert(notes@[k].start_col == line_units(l0)[k].0);
            }
            replace_char_range(line, note.start_col, note.end_col, token);
            Some(index)
        },
        None => None,
    }
}

fn insert_in_bar(row: usize, line: &mut String, col: usize, token: &str) -> (r: bool)
    ensures
        match near_col_index(spec_bars(old(line)@), col as int) {
            None => !r && final(line)@ == old(line)@,
            Some(b) => r && ({
                let l = old(line)@;
                let at = spec_bars(l)[b].0 + 1;
                let ins = if at < l.len() && is_ws(l[at]) {
                    seq![' '] + token@
                } else {
                    seq![' '] + token@ + seq![' ']
                };
                final(line)@ == replaced(l, at, at, ins)
            }),
        },
{
    let ghost l0 = line@;
    let bars = bar_spans_in_line(row, line.as_str());
    proof {
        assert(bar_intervals(bars@) =~= spec_bars(l0));
        lemma_near_col_index_bound(spec_bars(l0), col as int);
    }
    let ghost bv = bars@;
    let bar = match bar_at_or_near_col(bars, col) {
        Some(b) => b,
        None => {
            return false;
        },
    };
    proof {
        let k = choose|k: int| 0 <= k < bv.len() && bv[k] == bar;
        assert(bv[k].start_col < bv[k].end_col);
    }
    let at = bar.start_col + 1;
    let chars = chars_of(line.as_str());
    let mut ins: Vec<char> = Vec::new();
    ins.push(' ');
    append(&mut ins, &chars_of(token));
    if !(at < chars.len() && is_whitespace(chars[at])) {
        ins.push(' ');
    }
    proof {
        if at < chars.len() && is_ws(chars@[at as int]) {
            assert(ins@ =~= seq![' '] + token@);
        } else {
            assert(ins@ =~= seq![' '] + token@ + seq![' ']);
        }
    }
    insert_at_col(line, at, string_of(&ins).as_str());
    true
}

/// Appending a rest bar to a line: its trailing blanks go, then ` . . . . |`; the
/// cursor goes to the column after the new bar's first blank. `None` for a line
/// without a pipe.
pub open spec fn rest_bar_added(line: Seq<char>) -> Option<(Seq<char>, int)> {
    if first_index_of(line, '|') is None {
        None
    } else {
        let t = trim_end(line);
        Some((t + " . . . . |"@, t.len() as int + 1))
    }
}

/// Appends a bar of rests to `line`; gives the cursor column.
pub fn add_rest_bar_to_line(line: &mut String) -> (r: Result<usize, ()>)
    requires
        old(line)@.len() < usize::MAX,
    ensures
        match rest_bar_added(old(line)@) {
            Some((t, c)) => r == Ok::<usize, ()>(c as usize) && final(line)@ == t,
            None => r is Err && final(line)@ == old(line)@,
        },
{
    let v = chars_of(line.as_str());
    if position_of(&v, '|').is_none() {
        return Err(());
    }
    let mut out = trimmed_end(&v);
    proof {
        crate::text::lemma_trail_ws_bound(v@);
    }
    let cursor_col = out.len() + 1;
    append(&mut out, &chars_of(" . . . . |"));
    *line = string_of(&out);
    Ok(cursor_col)
}

/// The row for a new line after the cursor: the next row, at most the end.
pub fn insert_row_after_cursor(lines: &[String], cursor_row: usize) -> (r: usize)
    requires
        lines@.len() == 0 || cursor_row < usize::MAX,
    ensures
        r == (if lines@.len() == 0 {
            0
        } else if cursor_row + 1 < lines@.len() {
            cursor_row + 1
        } else {
            lines@.len() as int
        }),
{
    if lines.len() == 0 {
        0
    } else if cursor_row + 1 < lines.len() {
        cursor_row + 1
    } else {
        lines.len()
    }
}

/// Inserts a `---` separator at `row`.
pub fn insert_separator_at_row(lines: &mut Vec<String>, row: usize)
    requires
        row <= old(lines)@.len(),
    ensures
        string_views(final(lines)@) == string_views(old(lines)@).insert(row as int, "---"@),
{
    let ghost l0 = lines@;
    lines.insert(row, crate::text::owned("---"));
    assert(string_views(lines@) =~= string_views(l0).insert(row as int, "---"@));
}

/// A modifier line (its head is `v` or `p`).
#[verifier::opaque]
pub open spec fn spec_is_modifier_line(l: Seq<char>) -> bool {
    spec_modifier_kind(l) is Some
}

/// A pattern line: it has a pipe, is not a modifier line, and does not start
/// (trimmed) with a template call.
#[verifier::opaque]
pub open spec fn spec_is_pattern_line(l: Seq<char>) -> bool {
    first_index_of(l, '|') is Some && !spec_is_modifier_line(l) && !is_prefix("[@"@, trim(l))
}

/// Whether `line` is a modifier line.
pub fn is_modifier_line(line: &str) -> (b: bool)
    ensures
        b == spec_is_modifier_line(line@),
{
    reveal(spec_is_modifier_line);
    modifier_line_kind(line).is_some()
}

/// Whether `line` is a pattern line.
pub fn is_pattern_line(line: &str) -> (b: bool)
    ensures
        b == spec_is_pattern_line(line@),
{
    reveal(spec_is_pattern_line);
    reveal(spec_is_modifier_line);
    let v = chars_of(line);
    position_of(&v, '|').is_some() && !is_modifier_line(line) && !starts_with(&trimmed(&v), &chars_of("[@"))
}

/// The number of modifier lines from row `from` on.
pub open spec fn modifier_run(ls: Seq<Seq<char>>, from: int) -> nat
    decreases ls.len() - from,
{
    if 0 <= from < ls.len() && spec_is_modifier_line(ls[from]) {
        1 + modifier_run(ls, from + 1)
    } else {
        0
    }
}

fn modifier_at(lines: &[String], i: usize) -> (b: bool)
    requires
        i < lines@.len(),
    ensures
        b == spec_is_modifier_line(string_views(lines@)[i as int]),
{
    assert(string_views(lines@)[i as int] == lines@[i as int]@);
    is_modifier_line(lines[i].as_str())
}

/// The first row after `row` that is not a modifier line.
pub fn first_non_modifier_row_after(lines: &[String], row: usize) -> (r: usize)
    requires
        row < usize::MAX,
    ensures
        r == row + 1 + modifier_run(string_views(lines@), row + 1),
{
    let ghost ls = string_views(lines@);
    let mut r = row + 1;
    while r < lines.len() && modifier_at(lines, r)
        invariant
            row + 1 <= r,
            r <= lines@.len() || r == row + 1,
            ls == string_views(lines@),
            modifier_run(ls, row + 1) == (r - row - 1) + modifier_run(ls, r as int),
        decreases lines@.len() - r,
    {
        r += 1;
    }
    r
}

/// Row `i` is a pattern or modifier line.
pub open spec fn pattern_or_modifier(ls: Seq<Seq<char>>) -> spec_fn(int) -> bool {
    |i: int| spec_is_pattern_line(ls[i]) || spec_is_modifier_line(ls[i])
}

/// Row `i` is a pattern line.
pub open spec fn pattern_at(ls: Seq<Seq<char>>) -> spec_fn(int) -> bool {
    |i: int| spec_is_pattern_line(ls[i])
}

/// Where a new modifier line goes: after the modifier lines that follow the
/// pattern line at or above the cursor (the one above the modifier lines, when
/// the nearest such line is a modifier line).
#[verifier::opaque]
pub open spec fn modifier_row(ls: Seq<Seq<char>>, cursor: int) -> Option<int> {
    let n = if cursor + 1 < ls.len() { cursor + 1 } else { ls.len() as int };
    match last_where(n, pattern_or_modifier(ls)) {
        None => None,
        Some(a) => if spec_is_modifier_line(ls[a]) {
            match last_where(a, pattern_at(ls)) {
                None => None,
                Some(p) => Some(p + 1 + modifier_run(ls, p + 1)),
            }
        } else {
            Some(a + 1 + modifier_run(ls, a + 1))
        },
    }
}

fn pattern_or_modifier_at(lines: &[String], i: usize) -> (b: bool)
    requires
        i < lines@.len(),
    ensures
        b == pattern_or_modifier(string_views(lines@))(i as int),
{
    assert(string_views(lines@)[i as int] == lines@[i as int]@);
    is_pattern_line(lines[i].as_str()) || is_modifier_line(lines[i].as_str())
}

fn pattern_line_at(lines: &[String], i: usize) -> (b: bool)
    requires
        i < lines@.len(),
    ensures
        b == pattern_at(string_views(lines@))(i as int),
{
    assert(string_views(lines@)[i as int] == lines@[i as int]@);
    is_pattern_line(lines[i].as_str())
}

fn last_pattern_or_modifier(lines: &[String], cursor_row: usize) -> (r: Option<usize>)
    ensures
        ({
            let ls = string_views(lines@);
            let n = if cursor_row + 1 < ls.len() { cursor_row + 1 } else { ls.len() as int };
            match last_where(n, pattern_or_modifier(ls)) {
                Some(i) => r == Some(i as usize) && 0 <= i < ls.len(),
                None => r is None,
            }
        }),
{
    let ghost ls = string_views(lines@);
    let ghost pm = pattern_or_modifier(ls);
    let n = if cursor_row < lines.len() {
        cursor_row + 1
    } else {
        lines.len()
    };
    let mut k: usize = n;
    while k > 0
        invariant
            k <= n <= lines@.len(),
            n == (if cursor_row + 1 < ls.len() { cursor_row + 1 } else { ls.len() as int }),
            ls == string_views(lines@),
            pm == pattern_or_modifier(ls),
            forall|j: int| k <= j < n ==> !#[trigger] pm(j),
        decreases k,
    {
        if pattern_or_modifier_at(lines, k - 1) {
            proof {
                lemma_last_where(n as int, pm, k - 1);
            }
            return Some(k - 1);
        }
        k -= 1;
    }
    proof {
        lemma_last_where(n as int, pm, -1);
    }
    None
}

/// The row where a new modifier line goes.
pub fn modifier_insert_row(lines: &[String], cursor_row: usize) -> (r: Option<usize>)
    ensures
        match modifier_row(string_views(lines@), cursor_row as int) {
            Some(i) => r == Some(i as usize),
            None => r is None,
        },
{
    let ghost ls = string_views(lines@);
    let ghost pm = pattern_or_modifier(ls);
    assert(lines@.len() == lines.len());
    let a = match last_pattern_or_modifier(lines, cursor_row) {
        Some(a) => a,
        None => {
            proof {
                reveal(modifier_row);
            }
            return None;
        },
    };
    let is_mod = modifier_at(lines, a);
    proof {
        lemma_modifier_row_at(ls, cursor_row as int, a as int);
    }
    if is_mod {
        return match last_pattern_before(lines, a) {
            Some(p) => Some(first_non_modifier_row_after(lines, p)),
            None => None,
        };
    }
    Some(first_non_modifier_row_after(lines, a))
}

proof fn lemma_modifier_row_at(ls: Seq<Seq<char>>, cursor: int, a: int)
    requires
        last_where(if cursor + 1 < ls.len() { cursor + 1 } else { ls.len() as int }, pattern_or_modifier(ls)) == Some(a),
    ensures
        modifier_row(ls, cursor) == (if spec_is_modifier_line(ls[a]) {
            match last_where(a, pattern_at(ls)) {
                None => None,
                Some(p) => Some(p + 1 + modifier_run(ls, p + 1)),
            }
        } else {
            Some(a + 1 + modifier_run(ls, a + 1))
        }),
{
    reveal(modifier_row);
}

fn last_pattern_before(lines: &[String], a: usize) -> (r: Option<usize>)
    requires
        a < lines@.len(),
    ensures
        match last_where(a as int, pattern_at(string_views(lines@))) {
            Some(i) => r == Some(i as usize) && 0 <= i < a,
            None => r is None,
        },
{
    let ghost ls = string_views(lines@);
    let ghost pp = pattern_at(ls);
    let mut j: usize = a;
    while j > 0
        invariant
            j <= a < lines@.len(),
            ls == string_views(lines@),
            pp == pattern_at(ls),
            forall|i: int| j <= i < a ==> !#[trigger] pp(i),
        decreases j,
    {
        if pattern_line_at(lines, j - 1) {
            proof {
                lemma_last_where(a as int, pp, j - 1);
            }
            return Some(j - 1);
        }
        j -= 1;
    }
    proof {
        lemma_last_where(a as int, pp, -1);
    }
    None
}

/// The name of a modifier label.
pub fn modifier_label_name(label: &str) -> (r: &'static str)
    ensures
        r@ == (if label@ == "v"@ {
            "velocity"@
        } else if label@ == "p"@ {
            "pitch"@
        } else {
            "unknown"@
        }),
{
    let v = chars_of(label);
    if crate::text::eq_chars(&v, &chars_of("v")) {
        "velocity"
    } else if crate::text::eq_chars(&v, &chars_of("p")) {
        "pitch"
    } else {
        "unknown"
    }
}

/// The row of the track header above the cursor, and the row where a new
/// initialisation line goes: after those right below the header.
pub fn track_init_insert_row(lines: &[String], cursor_row: usize) -> (r: Option<(usize, usize)>)
    ensures
        ({
            let ls = string_views(lines@);
            match enclosing_header(ls, cursor_row as int) {
                Some(h) => r == Some((h as usize, (h + 1 + init_run(ls, h + 1)) as usize)),
                None => r is None,
            }
        }),
{
    let ghost ls = string_views(lines@);
    let header_row = match current_track_header_row(lines, cursor_row) {
        Some(h) => h,
        None => {
            return None;
        },
    };
    proof {
        crate::text::lemma_last_where_some(
            if cursor_row + 1 < ls.len() { cursor_row + 1 } else { ls.len() as int },
            header_at(ls),
        );
        crate::text::lemma_first_where_some(ls.len() as int, header_at(ls));
        assert(lines@.len() == lines.len());
    }
    let end = crate::studio::track_ops::init_run_end(lines, header_row + 1);
    Some((header_row, end))
}

/// The header line and channel of a new track: `Track <n>` after the `n - 1`
/// headers (lines that start, trimmed, with one `#`), on the channel after the
/// highest one used (1 when none), at most 16.
pub open spec fn is_any_track_header(l: Seq<char>) -> bool {
    let t = trim(l);
    t.len() > 0 && t[0] == '#' && !is_prefix("##"@, t)
}

/// The number of track-like headers among `ls`.
pub open spec fn header_count(ls: Seq<Seq<char>>) -> nat
    decreases ls.len(),
{
    if ls.len() == 0 {
        0
    } else {
        header_count(ls.drop_last()) + if is_any_track_header(ls.last()) {
            1nat
        } else {
            0nat
        }
    }
}

/// The highest 1-based channel of the track headers of `ls`, plus one (0 when none).
pub open spec fn channel_after(ls: Seq<Seq<char>>) -> nat
    decreases ls.len(),
{
    if ls.len() == 0 {
        0
    } else {
        let m = channel_after(ls.drop_last());
        match spec_track_header(ls.last()) {
            Some(h) => if h.1 + 1 > m {
                (h.1 + 1) as nat
            } else {
                m
            },
            None => m,
        }
    }
}

/// The name and channel of a new track.
pub open spec fn new_track(ls: Seq<Seq<char>>) -> (Seq<char>, int) {
    let c = channel_after(ls);
    (
        "Track "@ + decimal(header_count(ls) + 1),
        if c == 0 {
            1
        } else if c > 16 {
            16
        } else {
            c as int
        },
    )
}

/// The name and channel of the next track to add.
pub fn next_track_header(lines: &[String]) -> (r: (String, u8))
    requires
        lines@.len() < u64::MAX,
    ensures
        r.0@ == new_track(string_views(lines@)).0,
        r.1 as int == new_track(string_views(lines@)).1,
{
    let ghost ls = string_views(lines@);
    let mut count: u64 = 0;
    let mut best: u8 = 0;
    let mut i: usize = 0;
    while i < lines.len()
        invariant
            i <= lines@.len() < u64::MAX,
            ls == string_views(lines@),
            count == header_count(ls.take(i as int)),
            count <= i,
            best == channel_after(ls.take(i as int)),
            best <= 17,
        decreases lines@.len() - i,
    {
        proof {
            assert(ls.take(i + 1).drop_last() =~= ls.take(i as int));
            assert(ls.take(i + 1).last() == lines@[i as int]@);
        }
        let t = trimmed(&chars_of(lines[i].as_str()));
        if t.len() > 0 && t[0] == '#' && !starts_with(&t, &chars_of("##")) {
            count += 1;
        }
        match parse_track_header_channel(lines[i].as_str()) {
            Some(c) => {
                if c + 2 > best {
                    best = c + 2;
                }
            },
            None => {},
        }
        i += 1;
    }
    assert(ls.take(lines@.len() as int) =~= ls);
    let channel = if best == 0 {
        1
    } else if best > 16 {
        16
    } else {
        best
    };
    let mut name = chars_of("Track ");
    append(&mut name, &decimal_chars(count + 1));
    (string_of(&name), channel)
}

/// The 14 lines of a new piano-roll track: a blank line, its header, and a lane
/// for each note from C4 to B4.
pub open spec fn piano_roll(name: Seq<char>, channel: u8) -> Seq<Seq<char>> {
    seq![
        seq![],
        "# "@ + name + ": "@ + decimal(channel as nat),
        "C4  | . . . . |"@,
        "C#4 | . . . . |"@,
        "D4  | . . . . |"@,
        "D#4 | . . . . |"@,
        "E4  | . . . . |"@,
        "F4  | . . . . |"@,
        "F#4 | . . . . |"@,
        "G4  | . . . . |"@,
        "G#4 | . . . . |"@,
        "A4  | . . . . |"@,
        "A#4 | . . . . |"@,
        "B4  | . . . . |"@
    ]
}

/// The lines of a new piano-roll track named `track_name` on `channel`.
pub fn piano_roll_track_lines(track_name: &str, channel: u8) -> (r: Vec<String>)
    ensures
        string_views(r@) == piano_roll(track_name@, channel),
{
    let mut header = chars_of("# ");
    append(&mut header, &chars_of(track_name));
    append(&mut header, &chars_of(": "));
    append(&mut header, &decimal_chars(channel as u64));
    let mut lines: Vec<String> = Vec::new();
    lines.push(String::new());
    lines.push(string_of(&header));
    lines.push(crate::text::owned("C4  | . . . . |"));
    lines.push(crate::text::owned("C#4 | . . . . |"));
    lines.push(crate::text::owned("D4  | . . . . |"));
    lines.push(crate::text::owned("D#4 | . . . . |"));
    lines.push(crate::text::owned("E4  | . . . . |"));
    lines.push(crate::text::owned("F4  | . . . . |"));
    lines.push(crate::text::owned("F#4 | . . . . |"));
    lines.push(crate::text::owned("G4  | . . . . |"));
    lines.push(crate::text::owned("G#4 | . . . . |"));
    lines.push(crate::text::owned("A4  | . . . . |"));
    lines.push(crate::text::owned("A#4 | . . . . |"));
    lines.push(crate::text::owned("B4  | . . . . |"));
    assert(string_views(lines@) =~= piano_roll(track_name@, channel));
    lines
}

/// The base name of an empty template added at `cursor`: the slug of the name of
/// the last track header at or above it, unless empty; else `template`.
pub open spec fn empty_template_base(ls: Seq<Seq<char>>, cursor: int) -> Seq<char> {
    let n = if cursor + 1 < ls.len() { cursor + 1 } else { ls.len() as int };
    match last_where(n, header_at(ls)) {
        Some(h) => {
            let sl = slug(spec_track_header(ls[h])->Some_0.0);
            if sl.len() > 0 {
                sl
            } else {
                "template"@
            }
        },
        None => "template"@,
    }
}

/// The name of a new empty template added at `cursor_row`.
pub fn next_empty_template_name(lines: &[String], cursor_row: usize) -> (r: String)
    ensures
        ({
            let ls = string_views(lines@);
            r@ == next_name(ls, empty_template_base(ls, cursor_row as int))
        }),
{
    let ghost ls = string_views(lines@);
    let b = match last_header_row_upto(lines, cursor_row) {
        Some(i) => {
            assert(ls[i as int] == lines@[i as int]@);
            match parse_track_header(lines[i].as_str()) {
                Some(h) => {
                    let sl = crate::studio::template_ops::slug_chars(&chars_of(h.name.as_str()));
                    if sl.len() > 0 {
                        sl
                    } else {
                        chars_of("template")
                    }
                },
                None => chars_of("template"),
            }
        },
        None => chars_of("template"),
    };
    proof {
        crate::text::lemma_last_where_some(
            if cursor_row + 1 < ls.len() { cursor_row + 1 } else { ls.len() as int },
            header_at(ls),
        );
    }
    string_of(&free_template_name(lines, &b))
}

} // verus!
