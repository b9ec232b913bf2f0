//! Placing and toggling onsets (`^`, `.`, `-`) on the lanes of note-head and drum
//! lines.
use vstd::prelude::*;
use crate::studio::selection::{
    bar_at_or_near_col, bar_intervals, bar_spans_in_line, bars_are, insert_at_col,
    lane_body_token_spans_in_line, lane_body_units, lane_cells, lane_head_token, pipe_cols,
    replace_char_range, replaced, spans_are, spec_bars, spec_lane_head, unit_interval_vec,
    unit_intervals, UnitKind, UnitSpan,
};
use crate::text::{
    string_views, chars_of, int_intervals, is_whitespace, is_ws, lemma_near_col_index_bound, near_col, near_col_index,
};

verus! {

/// Where an onset was placed: its index among the lane units of the line, and the
/// onset placed.
pub struct PlacedOnset {
    pub index_on_line: usize,
    pub token: char,
}

/// The column intervals of units given as `(start, end, kind)`.
pub open spec fn cell_intervals(us: Seq<(int, int, UnitKind)>) -> Seq<(int, int)> {
    us.map_values(|u: (int, int, UnitKind)| (u.0, u.1))
}

/// Every lane cell is one column wide.
proof fn lemma_lane_cells_width(s: Seq<char>, i: int, hi: int)
    ensures
        forall|k: int| 0 <= k < lane_cells(s, i, hi).len() ==> #[trigger] lane_cells(s, i, hi)[k].1
            == lane_cells(s, i, hi)[k].0 + 1,
    decreases hi - i,
{
    if i < hi {
        lemma_lane_cells_width(s, i + 1, hi);
        let rest = lane_cells(s, i + 1, hi);
        let all = lane_cells(s, i, hi);
        assert forall|k: int| 0 <= k < all.len() implies #[trigger] all[k].1 == all[k].0 + 1 by {
            if s[i] == '^' || s[i] == '.' || s[i] == '-' {
                if k > 0 {
                    assert(all[k] == rest[k - 1]);
                }
            } else {
                assert(all[k] == rest[k]);
            }
        }
    }
}

proof fn lemma_lane_units_width(s: Seq<char>)
    ensures
        forall|k: int| 0 <= k < lane_body_units(s).len() ==> #[trigger] lane_body_units(s)[k].1
            == lane_body_units(s)[k].0 + 1,
{
    let ps = pipe_cols(s);
    if !(spec_lane_head(s) is None || ps.len() < 2) {
        lemma_lane_cells_width(s, ps[0] + 1, ps.last());
    }
}

/// Placing the onset `token` at column `col` of a lane line gives the new line and
/// the index of the placed onset: the lane unit at or near `col` is replaced; in a
/// lane without units, the onset goes after the opening pipe of the bar at or near
/// `col` (` t`, or ` t ` when no blank follows that pipe). `None` for a line that
/// is not a lane line, or has no bar.
pub open spec fn onset_placement(line: Seq<char>, col: int, token: char) -> Option<(Seq<char>, nat)> {
    if spec_lane_head(line) is None {
        None
    } else {
        let us = lane_body_units(line);
        match near_col_index(cell_intervals(us), col) {
            Some(i) => Some((replaced(line, us[i].0, us[i].1, seq![token]), i as nat)),
            None => match near_col_index(spec_bars(line), col) {
                None => None,
                Some(b) => {
                    let at = spec_bars(line)[b].0 + 1;
                    let ins = if at < line.len() && is_ws(line[at]) {
                        seq![' ', token]
                    } else {
                        seq![' ', token, ' ']
                    };
                    Some((replaced(line, at, at, ins), 0))
                },
            },
        }
    }
}

/// The lane unit at or near `col`, with its index.
pub fn onset_at_or_near_col_with_index(onsets: &[UnitSpan], col: usize) -> (r: Option<(usize, UnitSpan)>)
    ensures
        match near_col_index(unit_intervals(onsets@), col as int) {
            Some(i) => r == Some((i as usize, onsets@[i])),
            None => r is None,
        },
{
    let iv = unit_interval_vec(onsets);
    match near_col(&iv, col) {
        Some(i) => Some((i, onsets[i].duplicate())),
        None => None,
    }
}

/// The onset that toggling `token` gives: a rest for a note-on, else a note-on.
pub fn toggled_onset_token(token: &str) -> (r: char)
    ensures
        r == (if token@ == "^"@ {
            '.'
        } else {
            '^'
        }),
{
    let v = chars_of(token);
    proof {
        reveal_strlit("^");
    }
    if v.len() == 1 && v[0] == '^' {
        assert(v@ =~= "^"@);
        '.'
    } else {
        '^'
    }
}

/// The lane unit at or near column `col` of `line`.
pub fn current_onset_token(line: &str, col: usize) -> (r: Option<UnitSpan>)
    ensures
        ({
            let us = lane_body_units(line@);
            match near_col_index(cell_intervals(us), col as int) {
                Some(i) => r matches Some(u) && u.row == 0 && u.start_col == us[i].0 && u.end_col
                    == us[i].1 && u.kind == us[i].2 && u.token@ == line@.subrange(us[i].0, us[i].1),
                None => r is None,
            }
        }),
{
    let onsets = lane_body_token_spans_in_line(0, line);
    proof {
        assert(unit_intervals(onsets@) =~= cell_intervals(lane_body_units(line@)));
        lemma_near_col_index_bound(unit_intervals(onsets@), col as int);
    }
    match onset_at_or_near_col_with_index(onsets.as_slice(), col) {
        Some((_, onset)) => Some(onset),
        None => None,
    }
}

/// Places the onset `token` at column `col` of the lane line `line`.
pub fn place_lane_onset_at_slot(row: usize, line: &mut String, col: usize, token: char) -> (r: Result<PlacedOnset, ()>)
    ensures
        match onset_placement(old(line)@, col as int, token) {
            Some((t, i)) => r matches Ok(p) && p.index_on_line == i && p.token == token && final(line)@ == t,
            None => r is Err && final(line)@ == old(line)@,
        },
{
    if lane_head_token(line.as_str()).is_none() {
        return Err(());
    }
    proof {
        lemma_near_col_index_bound(cell_intervals(lane_body_units(line@)), col as int);
    }
    if let Some(index) = replace_near_onset(row, line, col, token) {
        return Ok(PlacedOnset { index_on_line: index, token });
    }
    if insert_onset_in_bar(line, col, token) {
        Ok(PlacedOnset { index_on_line: 0, token })
    } else {
        Err(())
    }
}

/// Replaces the lane unit at or near `col` with `token`, giving its index; `None`,
/// with the line unchanged, when the lane has no unit.
fn replace_near_onset(row: usize, line: &mut String, col: usize, token: char) -> (r: Option<usize>)
    ensures
        ({
            let us = lane_body_units(old(line)@);
            match near_col_index(cell_intervals(us), col as int) {
                Some(i) => r == Some(i as usize) && 0 <= i < us.len() <= usize::MAX && final(line)@ == replaced(old(line)@, us[i].0, us[i].1, seq![token]),
                None => r is None && final(line)@ == old(line)@,
            }
        }),
{
    let ghost l0 = line@;
    let onsets = lane_body_token_spans_in_line(row, line.as_str());
    proof {
        assert(unit_intervals(onsets@) =~= cell_intervals(lane_body_units(l0)));
        lemma_lane_units_width(l0);
        lemma_near_col_index_bound(unit_intervals(onsets@), col as int);
        assert(onsets@.len() == onsets.len());
    }
    match onset_at_or_near_col_with_index(onsets.as_slice(), col) {
        Some((index, onset)) => {
            let text = token_text(token);
            proof {
                let k = index as int;
                assert(onsets@[k].start_col == lane_body_units(l0)[k].0);
                assert(lane_body_units(l0)[k].1 == lane_body_units(l0)[k].0 + 1);
            }
            replace_char_range(line, onset.start_col, onset.end_col, text.as_str());
            Some(index)
        },
        None => None,
    }
}

/// Puts `token` after the opening pipe of the bar at or near `col`; `false`, with
/// the line unchanged, when the line has no bar.
fn insert_onset_in_bar(line: &mut String, col: usize, token: char) -> (r: bool)
    ensures
        match near_col_index(spec_bars(old(line)@), col as int) {
            None => !r && final(line)@ == old(line)@,
            Some(b) => r && ({
                let l = old(line)@;
                let at = spec_bars(l)[b].0 + 1;
                let ins = if at < l.len() && is_ws(l[at]) {
                    seq![' ', token]
                } else {
                    seq![' ', token, ' ']
                };
                final(line)@ == replaced(l, at, at, ins)
            }),
        },
{
    let ghost l0 = line@;
    let bars = bar_spans_in_line(0, line.as_str());
    proof {
        assert(bar_intervals(bars@) =~= spec_bars(l0));
        lemma_near_col_index_bound(spec_bars(l0), col as int);
    }
    let ghost bv = bars@;
    let bar = match bar_at_or_near_col(bars, col) {
        Some(b) => b,
        None => {
            return false;
        },
    };
    proof {
        let k = choose|k: int| 0 <= k < bv.len() && bv[k] == bar;
        assert(bv[k].start_col < bv[k].end_col);
    }
    let at = bar.start_col + 1;
    let chars = chars_of(line.as_str());
    let mut ins: Vec<char> = Vec::new();
    ins.push(' ');
    ins.push(token);
    if !(at < chars.len() && is_whitespace(chars[at])) {
        ins.push(' ');
    }
    let text = crate::text::string_of(&ins);
    proof {
        if at < chars.len() && is_ws(chars@[at as int]) {
            assert(ins@ =~= seq![' ', token]);
        } else {
            assert(ins@ =~= seq![' ', token, ' ']);
        }
    }
    insert_at_col(line, at, text.as_str());
    true
}

fn token_text(token: char) -> (r: String)
    ensures
        r@ == seq![token],
{
    let mut v: Vec<char> = Vec::new();
    v.push(token);
    assert(v@ =~= seq![token]);
    crate::text::string_of(&v)
}

/// Why an onset edit at the cursor was refused.
#[derive(Clone, Copy, Debug, PartialEq, Eq, Structural)]
pub enum OnsetRefusal {
    NoCurrentLine,
    PlaceNeedsLane,
    ToggleNeedsLane,
}

impl OnsetRefusal {
    pub open spec fn spec_message(self) -> Seq<char> {
        match self {
            OnsetRefusal::NoCurrentLine => "No current line"@,
            OnsetRefusal::PlaceNeedsLane => "Onset edit needs a note-head or drum lane line"@,
            OnsetRefusal::ToggleNeedsLane => "Onset toggle needs a note-head or drum lane line"@,
        }
    }

    /// What the status line says of the refusal.
    pub fn message(self) -> (r: &'static str)
        ensures
            r@ == self.spec_message(),
    {
        match self {
            OnsetRefusal::NoCurrentLine => "No current line",
            OnsetRefusal::PlaceNeedsLane => "Onset edit needs a note-head or drum lane line",
            OnsetRefusal::ToggleNeedsLane => "Onset toggle needs a note-head or drum lane line",
        }
    }
}

/// Where the cursor goes after placing onset number `index` of the new line: onto
/// that onset, or back to column `col` when the line has no such onset.
pub open spec fn onset_cursor_col(line: Seq<char>, index: nat, col: int) -> int {
    if index < lane_body_units(line).len() {
        lane_body_units(line)[index as int].0
    } else {
        col
    }
}

fn cursor_col_after(row: usize, line: &str, index: usize, col: usize) -> (r: usize)
    ensures
        r == onset_cursor_col(line@, index as nat, col as int),
{
    let onsets = lane_body_token_spans_in_line(row, line);
    if index < onsets.len() {
        onsets[index].start_col
    } else {
        col
    }
}

/// Places the onset `token` at the cursor `(row, col)` (see `onset_placement`),
/// and gives the onset placed and the column the cursor moves to. On a refusal the
/// lines stay as they were.
pub fn place_onset_at_cursor(lines: &mut Vec<String>, row: usize, col: usize, token: char) -> (r: Result<(char, usize), OnsetRefusal>)
    ensures
        ({
            let ls = string_views(old(lines)@);
            if row >= ls.len() {
                r == Err::<(char, usize), OnsetRefusal>(OnsetRefusal::NoCurrentLine) && final(lines)@ == old(lines)@
            } else {
                match onset_placement(ls[row as int], col as int, token) {
                    None => r == Err::<(char, usize), OnsetRefusal>(OnsetRefusal::PlaceNeedsLane) && final(lines)@ == old(lines)@,
                    Some((t, i)) => string_views(final(lines)@) == ls.update(row as int, t) && r == Ok::<(char, usize), OnsetRefusal>(
                        (token, onset_cursor_col(t, i, col as int) as usize),
                    ),
                }
            }
        }),
{
    let ghost ls = string_views(lines@);
    if row >= lines.len() {
        return Err(OnsetRefusal::NoCurrentLine);
    }
    let mut line = lines[row].clone();
    match place_lane_onset_at_slot(row, &mut line, col, token) {
        Err(()) => Err(OnsetRefusal::PlaceNeedsLane),
        Ok(placed) => {
            let c = cursor_col_after(row, line.as_str(), placed.index_on_line, col);
            let ghost t = line@;
            lines.set(row, line);
            proof {
                assert(string_views(lines@) =~= ls.update(row as int, t));
            }
            Ok((placed.token, c))
        },
    }
}

/// The onset that toggling at column `col` of `line` places: a rest where the
/// nearest lane unit is a note-on, else a note-on.
pub open spec fn toggle_token_at(line: Seq<char>, col: int) -> char {
    let us = lane_body_units(line);
    match near_col_index(cell_intervals(us), col) {
        Some(i) => if line.subrange(us[i].0, us[i].1) == "^"@ {
            '.'
        } else {
            '^'
        },
        None => '^',
    }
}

/// Toggles the onset at the cursor `(row, col)`: the nearest lane unit becomes a
/// rest if it is a note-on, and a note-on otherwise (placed as by `onset_placement`);
/// gives the onset placed and the column the cursor moves to. On a refusal the
/// lines stay as they were.
pub fn toggle_onset_at_cursor(lines: &mut Vec<String>, row: usize, col: usize) -> (r: Result<(char, usize), OnsetRefusal>)
    ensures
        ({
            let ls = string_views(old(lines)@);
            if row >= ls.len() {
                r == Err::<(char, usize), OnsetRefusal>(OnsetRefusal::NoCurrentLine) && final(lines)@ == old(lines)@
            } else {
                let token = toggle_token_at(ls[row as int], col as int);
                match onset_placement(ls[row as int], col as int, token) {
                    None => r == Err::<(char, usize), OnsetRefusal>(OnsetRefusal::ToggleNeedsLane)
                        && final(lines)@ == old(lines)@,
                    Some((t, i)) => string_views(final(lines)@) == ls.update(row as int, t) && r == Ok::<(char, usize), OnsetRefusal>(
                        (token, onset_cursor_col(t, i, col as int) as usize),
                    ),
                }
            }
        }),
{
    let ghost ls = string_views(lines@);
    if row >= lines.len() {
        return Err(OnsetRefusal::NoCurrentLine);
    }
    let token = match current_onset_token(lines[row].as_str(), col) {
        Some(span) => toggled_onset_token(span.token.as_str()),
        None => '^',
    };
    proof {
        assert(ls[row as int] == lines@[row as int]@);
    }
    let mut line = lines[row].clone();
    match place_lane_onset_at_slot(row, &mut line, col, token) {
        Err(()) => Err(OnsetRefusal::ToggleNeedsLane),
        Ok(placed) => {
            let c = cursor_col_after(row, line.as_str(), placed.index_on_line, col);
            let ghost t = line@;
            lines.set(row, line);
            proof {
                assert(string_views(lines@) =~= ls.update(row as int, t));
            }
            Ok((placed.token, c))
        },
    }
}

} // verus!
