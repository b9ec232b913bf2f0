//! The editor's selection: what it covers, how the text area shows it, and where
//! moving it up or down takes it.
use vstd::prelude::*;
use crate::studio::selection::{
    bar_spans_in_line, bars_are, is_lane_body_token, is_seq_line, line_units, spans_are, spec_bars,
    spec_is_seq_line, unit_spans_in_line, BarSpan, UnitKind, UnitSpan,
};
use crate::studio::template_ops::{calls_are, call_name, scan_calls, template_call_spans_in_line, TemplateCallSpan};
use crate::text::{append, chars_of, decimal, decimal_chars, eq_chars, first_where, lemma_first_where, string_of, string_views};

verus! {

/// What is selected.
#[allow(inconsistent_fields)]
pub enum StudioSelection {
    Unit { row: usize, start_col: usize, end_col: usize, token: String, kind: UnitKind },
    UnitRange { anchor: UnitSpan, focus: UnitSpan },
    Bar { span: BarSpan },
    BarRange { anchor: BarSpan, focus: BarSpan },
    TemplateCall { span: TemplateCallSpan },
    TemplateCallRange { anchor: TemplateCallSpan, focus: TemplateCallSpan },
    LineRange { anchor_row: usize },
}

pub open spec fn min_u(a: usize, b: usize) -> usize {
    if a <= b { a } else { b }
}

pub open spec fn max_u(a: usize, b: usize) -> usize {
    if a <= b { b } else { a }
}

/// The rows that the selection covers, first and last; with no selection, or a
/// line range, the rows from its anchor to the cursor.
pub open spec fn spec_line_range(sel: Option<StudioSelection>, cursor_row: usize) -> (usize, usize) {
    match sel {
        Some(StudioSelection::LineRange { anchor_row }) => (min_u(anchor_row, cursor_row), max_u(anchor_row, cursor_row)),
        Some(StudioSelection::Unit { row, .. }) => (row, row),
        Some(StudioSelection::UnitRange { anchor, focus }) => (min_u(anchor.row, focus.row), max_u(anchor.row, focus.row)),
        Some(StudioSelection::Bar { span }) => (span.row, span.row),
        Some(StudioSelection::BarRange { anchor, focus }) => (min_u(anchor.row, focus.row), max_u(anchor.row, focus.row)),
        Some(StudioSelection::TemplateCall { span }) => (span.row, span.row),
        Some(StudioSelection::TemplateCallRange { anchor, focus }) => (
            min_u(anchor.row, focus.row),
            max_u(anchor.row, focus.row),
        ),
        None => (cursor_row, cursor_row),
    }
}

fn min_max(a: usize, b: usize) -> (r: (usize, usize))
    ensures
        r == (min_u(a, b), max_u(a, b)),
{
    if a <= b { (a, b) } else { (b, a) }
}

/// The rows that the selection covers.
pub fn selected_line_range(selection: &Option<StudioSelection>, cursor_row: usize) -> (r: (usize, usize))
    ensures
        r == spec_line_range(*selection, cursor_row),
{
    match selection {
        Some(StudioSelection::LineRange { anchor_row }) => min_max(*anchor_row, cursor_row),
        Some(StudioSelection::Unit { row, .. }) => (*row, *row),
        Some(StudioSelection::UnitRange { anchor, focus }) => min_max(anchor.row, focus.row),
        Some(StudioSelection::Bar { span }) => (span.row, span.row),
        Some(StudioSelection::BarRange { anchor, focus }) => min_max(anchor.row, focus.row),
        Some(StudioSelection::TemplateCall { span }) => (span.row, span.row),
        Some(StudioSelection::TemplateCallRange { anchor, focus }) => min_max(anchor.row, focus.row),
        None => (cursor_row, cursor_row),
    }
}

/// The rows and the bar indices of the rectangle between two selected bars.
pub fn selected_bar_rectangle_bounds(anchor: &BarSpan, focus: &BarSpan) -> (r: ((usize, usize), (usize, usize)))
    ensures
        r == ((min_u(anchor.row, focus.row), max_u(anchor.row, focus.row)), (
            min_u(anchor.index, focus.index),
            max_u(anchor.index, focus.index),
        )),
{
    (min_max(anchor.row, focus.row), min_max(anchor.index, focus.index))
}

/// `(row, col)` comes no later than `(row2, col2)`.
pub open spec fn no_later(row: usize, col: usize, row2: usize, col2: usize) -> bool {
    row < row2 || (row == row2 && col <= col2)
}

/// The number of characters of row `row` (0 past the last row).
pub open spec fn row_len(ls: Seq<Seq<char>>, row: usize) -> int {
    if row < ls.len() {
        ls[row as int].len() as int
    } else {
        0
    }
}

/// How the text area shows a selection: the cursor jumps to `from`, and when
/// `to` is given a visual selection starts there and the cursor jumps on to `to`.
/// Ranges go from their earlier end to their later one; bar ranges across rows
/// show only their focus; a line range runs from the start of its first row to
/// the end of its last (from the anchor's end back to the cursor's row start when
/// the cursor is above the anchor).
pub open spec fn spec_visual(sel: StudioSelection, cursor_row: usize, ls: Seq<Seq<char>>) -> (
    (usize, int),
    Option<(usize, int)>,
) {
    match sel {
        StudioSelection::Unit { row, start_col, end_col, .. } => ((row, start_col as int), Some((row, end_col as int))),
        StudioSelection::UnitRange { anchor, focus } => if no_later(anchor.row, anchor.start_col, focus.row, focus.start_col) {
            ((anchor.row, anchor.start_col as int), Some((focus.row, focus.end_col as int)))
        } else {
            ((focus.row, focus.start_col as int), Some((anchor.row, anchor.end_col as int)))
        },
        StudioSelection::Bar { span } => ((span.row, span.start_col as int), Some((span.row, span.end_col as int))),
        StudioSelection::BarRange { anchor, focus } => if anchor.row == focus.row {
            if no_later(anchor.row, anchor.start_col, focus.row, focus.start_col) {
                ((anchor.row, anchor.start_col as int), Some((focus.row, focus.end_col as int)))
            } else {
                ((focus.row, focus.start_col as int), Some((anchor.row, anchor.end_col as int)))
            }
        } else {
            ((focus.row, focus.start_col as int), None)
        },
        StudioSelection::TemplateCall { span } => ((span.row, span.start_col as int), Some((span.row, span.end_col as int))),
        StudioSelection::TemplateCallRange { anchor, focus } => if no_later(
            anchor.row,
            anchor.start_col,
            focus.row,
            focus.start_col,
        ) {
            ((anchor.row, anchor.start_col as int), Some((focus.row, focus.end_col as int)))
        } else {
            ((focus.row, focus.start_col as int), Some((anchor.row, anchor.end_col as int)))
        },
        StudioSelection::LineRange { anchor_row } => if cursor_row >= anchor_row {
            ((anchor_row, 0), Some((cursor_row, row_len(ls, cursor_row))))
        } else {
            ((anchor_row, row_len(ls, anchor_row)), Some((cursor_row, 0)))
        },
    }
}

/// Where the text area's cursor and visual selection go for a selection.
#[derive(Clone, Copy, Debug, PartialEq, Eq)]
pub struct SelectionVisual {
    pub from: (usize, usize),
    pub to: Option<(usize, usize)>,
}

pub open spec fn visual_view(v: SelectionVisual) -> ((usize, int), Option<(usize, int)>) {
    (
        (v.from.0, v.from.1 as int),
        match v.to {
            Some(t) => Some((t.0, t.1 as int)),
            None => None,
        },
    )
}

fn line_len(lines: &[String], row: usize) -> (r: usize)
    ensures
        r == row_len(string_views(lines@), row),
{
    if row < lines.len() {
        assert(string_views(lines@)[row as int] == lines@[row as int]@);
        chars_of(lines[row].as_str()).len()
    } else {
        0
    }
}

fn visual_between(a_row: usize, a_start: usize, a_end: usize, f_row: usize, f_start: usize, f_end: usize) -> (r: SelectionVisual)
    ensures
        if no_later(a_row, a_start, f_row, f_start) {
            r == SelectionVisual { from: (a_row, a_start), to: Some((f_row, f_end)) }
        } else {
            r == SelectionVisual { from: (f_row, f_start), to: Some((a_row, a_end)) }
        },
{
    if a_row < f_row || (a_row == f_row && a_start <= f_start) {
        SelectionVisual { from: (a_row, a_start), to: Some((f_row, f_end)) }
    } else {
        SelectionVisual { from: (f_row, f_start), to: Some((a_row, a_end)) }
    }
}

/// How the text area shows the selection (nothing without one).
pub fn selection_visual(selection: &Option<StudioSelection>, cursor_row: usize, lines: &[String]) -> (r: Option<
    SelectionVisual,
>)
    ensures
        match *selection {
            None => r is None,
            Some(s) => r matches Some(v) && visual_view(v) == spec_visual(s, cursor_row, string_views(lines@)),
        },
{
    match selection {
        None => None,
        Some(StudioSelection::Unit { row, start_col, end_col, .. }) => Some(
            SelectionVisual { from: (*row, *start_col), to: Some((*row, *end_col)) },
        ),
        Some(StudioSelection::UnitRange { anchor, focus }) => Some(
            visual_between(anchor.row, anchor.start_col, anchor.end_col, focus.row, focus.start_col, focus.end_col),
        ),
        Some(StudioSelection::Bar { span }) => Some(
            SelectionVisual { from: (span.row, span.start_col), to: Some((span.row, span.end_col)) },
        ),
        Some(StudioSelection::BarRange { anchor, focus }) => if anchor.row == focus.row {
            Some(
                visual_between(
                    anchor.row,
                    anchor.start_col,
                    anchor.end_col,
                    focus.row,
                    focus.start_col,
                    focus.end_col,
                ),
            )
        } else {
            Some(SelectionVisual { from: (focus.row, focus.start_col), to: None })
        },
        Some(StudioSelection::TemplateCall { span }) => Some(
            SelectionVisual { from: (span.row, span.start_col), to: Some((span.row, span.end_col)) },
        ),
        Some(StudioSelection::TemplateCallRange { anchor, focus }) => Some(
            visual_between(anchor.row, anchor.start_col, anchor.end_col, focus.row, focus.start_col, focus.end_col),
        ),
        Some(StudioSelection::LineRange { anchor_row }) => {
            let anchor_row = *anchor_row;
            if cursor_row >= anchor_row {
                Some(SelectionVisual { from: (anchor_row, 0), to: Some((cursor_row, line_len(lines, cursor_row))) })
            } else {
                Some(SelectionVisual { from: (anchor_row, line_len(lines, anchor_row)), to: Some((cursor_row, 0)) })
            }
        },
    }
}

// ---------------------------------------------------------------------------
// Moving the selection up or down
// ---------------------------------------------------------------------------

/// How far column `a` is from column `b`.
pub open spec fn col_distance(a: int, b: int) -> int {
    if a >= b { a - b } else { b - a }
}

/// The first of `starts` closest to `col`.
pub open spec fn nearest_to(starts: Seq<int>, col: int) -> Option<int>
    decreases starts.len(),
{
    if starts.len() == 0 {
        None
    } else {
        match nearest_to(starts.drop_last(), col) {
            None => Some(starts.len() - 1),
            Some(i) => if col_distance(starts.last(), col) < col_distance(starts[i], col) {
                Some(starts.len() - 1)
            } else {
                Some(i)
            },
        }
    }
}

proof fn lemma_nearest_bound(starts: Seq<int>, col: int)
    ensures
        nearest_to(starts, col) matches Some(i) ==> 0 <= i < starts.len(),
        starts.len() > 0 ==> nearest_to(starts, col) is Some,
    decreases starts.len(),
{
    if starts.len() > 0 {
        lemma_nearest_bound(starts.drop_last(), col);
    }
}

proof fn lemma_nearest_step(starts: Seq<int>, col: int, n: int)
    requires
        0 <= n < starts.len(),
    ensures
        nearest_to(starts.take(n + 1), col) == (match nearest_to(starts.take(n), col) {
            None => Some(n),
            Some(i) => if col_distance(starts[n], col) < col_distance(starts[i], col) {
                Some(n)
            } else {
                Some(i)
            },
        }),
{
    assert(starts.take(n + 1).drop_last() =~= starts.take(n));
    lemma_nearest_bound(starts.take(n), col);
}

/// The start columns of the units of a line.
pub open spec fn unit_starts(s: Seq<char>) -> Seq<int> {
    Seq::new(line_units(s).len(), |i: int| line_units(s)[i].0)
}

/// The start columns of the bars of a line.
pub open spec fn bar_starts(s: Seq<char>) -> Seq<int> {
    Seq::new(spec_bars(s).len(), |i: int| spec_bars(s)[i].0)
}

/// The start columns of the template calls of a line.
pub open spec fn call_starts(s: Seq<char>) -> Seq<int> {
    Seq::new(scan_calls(s, 0).len(), |i: int| scan_calls(s, 0)[i].0)
}

/// Unit `i` of line `s` at row `row`.
pub open spec fn unit_is(u: UnitSpan, row: usize, s: Seq<char>, i: int) -> bool {
    &&& u.row == row
    &&& u.start_col == line_units(s)[i].0
    &&& u.end_col == line_units(s)[i].1
    &&& u.kind == line_units(s)[i].2
    &&& u.token@ == s.subrange(line_units(s)[i].0, line_units(s)[i].1)
}

/// Bar `k` of line `s` at row `row`.
pub open spec fn bar_is(b: BarSpan, row: usize, s: Seq<char>, k: int) -> bool {
    &&& b.row == row
    &&& b.start_col == spec_bars(s)[k].0
    &&& b.end_col == spec_bars(s)[k].1
    &&& b.index == k
}

/// Template call `k` of line `s` at row `row`.
pub open spec fn call_is(c: TemplateCallSpan, row: usize, s: Seq<char>, k: int) -> bool {
    &&& c.row == row
    &&& c.start_col == scan_calls(s, 0)[k].0
    &&& c.end_col == scan_calls(s, 0)[k].1
    &&& c.closing_bracket_col == scan_calls(s, 0)[k].2
    &&& c.template_name@ == call_name(s, scan_calls(s, 0)[k].0, scan_calls(s, 0)[k].2)
    &&& c.raw_text@ == s.subrange(scan_calls(s, 0)[k].0, scan_calls(s, 0)[k].1)
}

/// The unit of row `row` whose start is closest to column `col`.
pub fn nearest_unit_on_line(lines: &[String], row: usize, col: usize) -> (r: Option<UnitSpan>)
    ensures
        ({
            let ls = string_views(lines@);
            if row < ls.len() {
                match nearest_to(unit_starts(ls[row as int]), col as int) {
                    Some(i) => r matches Some(u) && unit_is(u, row, ls[row as int], i),
                    None => r is None,
                }
            } else {
                r is None
            }
        }),
{
    if row >= lines.len() {
        return None;
    }
    let ghost s = lines@[row as int]@;
    assert(string_views(lines@)[row as int] == s);
    let units = unit_spans_in_line(row, lines[row].as_str());
    let ghost starts = unit_starts(s);
    let mut best: Option<usize> = None;
    let mut best_dist: usize = 0;
    let mut i: usize = 0;
    while i < units.len()
        invariant
            i <= units.len(),
            spans_are(units@, row, s, line_units(s)),
            starts == unit_starts(s),
            nearest_to(starts.take(i as int), col as int) == match best {
                Some(b) => Some(b as int),
                None => None::<int>,
            },
            best matches Some(b) ==> b < i && best_dist == col_distance(starts[b as int], col as int),
        decreases units.len() - i,
    {
        let st = units[i].start_col;
        let d = if st >= col { st - col } else { col - st };
        proof {
            lemma_nearest_step(starts, col as int, i as int);
        }
        match best {
            None => {
                best = Some(i);
                best_dist = d;
            },
            Some(_) => if d < best_dist {
                best = Some(i);
                best_dist = d;
            },
        }
        i += 1;
    }
    assert(starts.take(units.len() as int) =~= starts);
    match best {
        Some(b) => Some(units[b].duplicate()),
        None => None,
    }
}

/// The bar of row `row` whose start is closest to column `col`.
pub fn nearest_bar_on_line(lines: &[String], row: usize, col: usize) -> (r: Option<BarSpan>)
    ensures
        ({
            let ls = string_views(lines@);
            if row < ls.len() {
                match nearest_to(bar_starts(ls[row as int]), col as int) {
                    Some(k) => r matches Some(b) && bar_is(b, row, ls[row as int], k),
                    None => r is None,
                }
            } else {
                r is None
            }
        }),
{
    if row >= lines.len() {
        return None;
    }
    let ghost s = lines@[row as int]@;
    assert(string_views(lines@)[row as int] == s);
    let bars = bar_spans_in_line(row, lines[row].as_str());
    let ghost starts = bar_starts(s);
    let mut best: Option<usize> = None;
    let mut best_dist: usize = 0;
    let mut i: usize = 0;
    while i < bars.len()
        invariant
            i <= bars.len(),
            bars_are(bars@, row, s),
            starts == bar_starts(s),
            nearest_to(starts.take(i as int), col as int) == match best {
                Some(b) => Some(b as int),
                None => None::<int>,
            },
            best matches Some(b) ==> b < i && best_dist == col_distance(starts[b as int], col as int),
        decreases bars.len() - i,
    {
        let st = bars[i].start_col;
        let d = if st >= col { st - col } else { col - st };
        proof {
            lemma_nearest_step(starts, col as int, i as int);
        }
        match best {
            None => {
                best = Some(i);
                best_dist = d;
            },
            Some(_) => if d < best_dist {
                best = Some(i);
                best_dist = d;
            },
        }
        i += 1;
    }
    assert(starts.take(bars.len() as int) =~= starts);
    match best {
        Some(b) => Some(bars[b].duplicate()),
        None => None,
    }
}

/// Bar number `index` of row `row`.
pub fn bar_on_line_by_index(lines: &[String], row: usize, index: usize) -> (r: Option<BarSpan>)
    ensures
        ({
            let ls = string_views(lines@);
            if row < ls.len() && index < spec_bars(ls[row as int]).len() {
                r matches Some(b) && bar_is(b, row, ls[row as int], index as int)
            } else {
                r is None
            }
        }),
{
    if row >= lines.len() {
        return None;
    }
    assert(string_views(lines@)[row as int] == lines@[row as int]@);
    let bars = bar_spans_in_line(row, lines[row].as_str());
    if index < bars.len() {
        Some(bars[index].duplicate())
    } else {
        None
    }
}

/// The template call of row `row` whose start is closest to column `col`.
pub fn nearest_template_call_on_line(lines: &[String], row: usize, col: usize) -> (r: Option<TemplateCallSpan>)
    ensures
        ({
            let ls = string_views(lines@);
            if row < ls.len() {
                match nearest_to(call_starts(ls[row as int]), col as int) {
                    Some(k) => r matches Some(c) && call_is(c, row, ls[row as int], k),
                    None => r is None,
                }
            } else {
                r is None
            }
        }),
{
    if row >= lines.len() {
        return None;
    }
    let ghost s = lines@[row as int]@;
    assert(string_views(lines@)[row as int] == s);
    let calls = template_call_spans_in_line(row, lines[row].as_str());
    let ghost starts = call_starts(s);
    let mut best: Option<usize> = None;
    let mut best_dist: usize = 0;
    let mut i: usize = 0;
    while i < calls.len()
        invariant
            i <= calls.len(),
            calls_are(calls@, row, s, scan_calls(s, 0)),
            starts == call_starts(s),
            nearest_to(starts.take(i as int), col as int) == match best {
                Some(b) => Some(b as int),
                None => None::<int>,
            },
            best matches Some(b) ==> b < i && best_dist == col_distance(starts[b as int], col as int),
        decreases calls.len() - i,
    {
        let st = calls[i].start_col;
        let d = if st >= col { st - col } else { col - st };
        proof {
            lemma_nearest_step(starts, col as int, i as int);
        }
        match best {
            None => {
                best = Some(i);
                best_dist = d;
            },
            Some(_) => if d < best_dist {
                best = Some(i);
                best_dist = d;
            },
        }
        i += 1;
    }
    assert(starts.take(calls.len() as int) =~= starts);
    match best {
        Some(b) => Some(calls[b].duplicate()),
        None => None,
    }
}

/// What moving the selection a row up or down does.
pub enum VerticalMove {
    /// A line range: the text cursor moves a row up (or down).
    MoveCursor { up: bool },
    /// The new selection.
    Select(StudioSelection),
    /// Nothing to select there: the status message.
    Status(&'static str),
}

/// The text of row `n` (empty past the last row).
pub open spec fn row_text(ls: Seq<Seq<char>>, n: int) -> Seq<char> {
    if 0 <= n < ls.len() {
        ls[n]
    } else {
        Seq::empty()
    }
}

/// The row above (`direction < 0`) or below `row` among `n` rows.
pub open spec fn spec_next_row(row: usize, direction: i32, n: int) -> Option<int> {
    if direction < 0 {
        if row >= 1 { Some(row - 1) } else { None }
    } else {
        if row + 1 < n { Some(row + 1) } else { None }
    }
}

pub open spec fn is_status(r: VerticalMove, m: Seq<char>) -> bool {
    r matches VerticalMove::Status(x) && x@ == m
}

/// The selection of unit `i` of line `s` at row `row`.
pub open spec fn selects_unit(r: VerticalMove, row: usize, s: Seq<char>, i: int) -> bool {
    r matches VerticalMove::Select(StudioSelection::Unit { row: ur, start_col, end_col, token, kind })
        && ur == row && start_col == line_units(s)[i].0 && end_col == line_units(s)[i].1
        && kind == line_units(s)[i].2 && token@ == s.subrange(line_units(s)[i].0, line_units(s)[i].1)
}

/// Where moving the selection a row up (`direction < 0`) or down (`direction >= 0`)
/// takes it: a line range moves the cursor; a unit or template call selection
/// selects, on the next row, the one whose start is closest to the current
/// one's; a bar selection selects the bar with the same number there, else the
/// closest one. Ranges move by their focus and become single selections.
pub open spec fn spec_vertical_move(sel: Option<StudioSelection>, ls: Seq<Seq<char>>, direction: i32, r: VerticalMove) -> bool {
    match sel {
        None => is_status(r, "No selection"@),
        Some(StudioSelection::LineRange { .. }) => r matches VerticalMove::MoveCursor { up } && up == (direction < 0),
        Some(StudioSelection::Bar { span }) => bar_move(span, ls, direction, r),
        Some(StudioSelection::BarRange { focus, .. }) => bar_move(focus, ls, direction, r),
        Some(StudioSelection::Unit { row, start_col, .. }) => unit_move(row, start_col, ls, direction, r),
        Some(StudioSelection::UnitRange { focus, .. }) => unit_move(focus.row, focus.start_col, ls, direction, r),
        Some(StudioSelection::TemplateCall { span }) => call_move(span, ls, direction, r),
        Some(StudioSelection::TemplateCallRange { focus, .. }) => call_move(focus, ls, direction, r),
    }
}

pub open spec fn bar_move(span: BarSpan, ls: Seq<Seq<char>>, direction: i32, r: VerticalMove) -> bool {
    match spec_next_row(span.row, direction, ls.len() as int) {
        None => is_status(r, "No more lines"@),
        Some(n) => if span.index < spec_bars(row_text(ls, n)).len() {
            r matches VerticalMove::Select(StudioSelection::Bar { span: b }) && bar_is(b, n as usize, row_text(ls, n), span.index as int)
        } else {
            match nearest_to(bar_starts(row_text(ls, n)), span.start_col as int) {
                Some(k) => r matches VerticalMove::Select(StudioSelection::Bar { span: b }) && bar_is(b, n as usize, row_text(ls, n), k),
                None => is_status(r, "No matching bar on target line"@),
            }
        },
    }
}

pub open spec fn unit_move(row: usize, start_col: usize, ls: Seq<Seq<char>>, direction: i32, r: VerticalMove) -> bool {
    match spec_next_row(row, direction, ls.len() as int) {
        None => is_status(r, "No more lines"@),
        Some(n) => match nearest_to(unit_starts(row_text(ls, n)), start_col as int) {
            Some(i) => selects_unit(r, n as usize, row_text(ls, n), i),
            None => is_status(r, "No unit on target line"@),
        },
    }
}

pub open spec fn call_move(span: TemplateCallSpan, ls: Seq<Seq<char>>, direction: i32, r: VerticalMove) -> bool {
    match spec_next_row(span.row, direction, ls.len() as int) {
        None => is_status(r, "No more lines"@),
        Some(n) => match nearest_to(call_starts(row_text(ls, n)), span.start_col as int) {
            Some(k) => r matches VerticalMove::Select(StudioSelection::TemplateCall { span: c }) && call_is(c, n as usize, row_text(ls, n), k),
            None => is_status(r, "No template call on target line"@),
        },
    }
}

proof fn lemma_empty_line_has_nothing()
    ensures
        unit_starts(Seq::<char>::empty()).len() == 0,
        spec_bars(Seq::<char>::empty()).len() == 0,
        bar_starts(Seq::<char>::empty()).len() == 0,
        call_starts(Seq::<char>::empty()).len() == 0,
{
    let e = Seq::<char>::empty();
    assert(crate::text::first_index_of(e, '|') is None);
    assert(line_units(e).len() == 0);
    assert(crate::studio::selection::pipe_cols(e).len() == 0) by {
        reveal_with_fuel(crate::studio::selection::pipes_from, 2);
    }
    assert(scan_calls(e, 0).len() == 0);
}

fn next_row(row: usize, direction: i32, n: usize) -> (r: Option<usize>)
    ensures
        match spec_next_row(row, direction, n as int) {
            Some(x) => r matches Some(v) && v as int == x,
            None => r is None,
        },
{
    if direction < 0 {
        if row >= 1 { Some(row - 1) } else { None }
    } else {
        if row < n && row + 1 < n { Some(row + 1) } else { None }
    }
}

fn bar_move_exec(span: &BarSpan, lines: &[String], direction: i32) -> (r: VerticalMove)
    ensures
        bar_move(*span, string_views(lines@), direction, r),
{
    let n = match next_row(span.row, direction, lines.len()) {
        Some(n) => n,
        None => return VerticalMove::Status("No more lines"),
    };
    proof {
        lemma_empty_line_has_nothing();
    }
    match bar_on_line_by_index(lines, n, span.index) {
        Some(b) => VerticalMove::Select(StudioSelection::Bar { span: b }),
        None => match nearest_bar_on_line(lines, n, span.start_col) {
            Some(b) => VerticalMove::Select(StudioSelection::Bar { span: b }),
            None => VerticalMove::Status("No matching bar on target line"),
        },
    }
}

fn unit_move_exec(row: usize, start_col: usize, lines: &[String], direction: i32) -> (r: VerticalMove)
    ensures
        unit_move(row, start_col, string_views(lines@), direction, r),
{
    let n = match next_row(row, direction, lines.len()) {
        Some(n) => n,
        None => return VerticalMove::Status("No more lines"),
    };
    proof {
        lemma_empty_line_has_nothing();
    }
    match nearest_unit_on_line(lines, n, start_col) {
        Some(u) => VerticalMove::Select(
            StudioSelection::Unit { row: u.row, start_col: u.start_col, end_col: u.end_col, token: u.token, kind: u.kind },
        ),
        None => VerticalMove::Status("No unit on target line"),
    }
}

fn call_move_exec(span: &TemplateCallSpan, lines: &[String], direction: i32) -> (r: VerticalMove)
    ensures
        call_move(*span, string_views(lines@), direction, r),
{
    let n = match next_row(span.row, direction, lines.len()) {
        Some(n) => n,
        None => return VerticalMove::Status("No more lines"),
    };
    proof {
        lemma_empty_line_has_nothing();
    }
    match nearest_template_call_on_line(lines, n, span.start_col) {
        Some(c) => VerticalMove::Select(StudioSelection::TemplateCall { span: c }),
        None => VerticalMove::Status("No template call on target line"),
    }
}

/// Where moving the selection a row up or down takes it.
pub fn vertical_selection_move(selection: &Option<StudioSelection>, lines: &[String], direction: i32) -> (r: VerticalMove)
    ensures
        spec_vertical_move(*selection, string_views(lines@), direction, r),
{
    match selection {
        None => VerticalMove::Status("No selection"),
        Some(StudioSelection::LineRange { .. }) => VerticalMove::MoveCursor { up: direction < 0 },
        Some(StudioSelection::Bar { span }) => bar_move_exec(span, lines, direction),
        Some(StudioSelection::BarRange { focus, .. }) => bar_move_exec(focus, lines, direction),
        Some(StudioSelection::Unit { row, start_col, .. }) => unit_move_exec(*row, *start_col, lines, direction),
        Some(StudioSelection::UnitRange { focus, .. }) => unit_move_exec(focus.row, focus.start_col, lines, direction),
        Some(StudioSelection::TemplateCall { span }) => call_move_exec(span, lines, direction),
        Some(StudioSelection::TemplateCallRange { focus, .. }) => call_move_exec(focus, lines, direction),
    }
}

// ---------------------------------------------------------------------------
// The selected units, and the selection's label
// ---------------------------------------------------------------------------

/// Unit span `u` is the one with these fields.
pub open spec fn same_unit(u: UnitSpan, row: usize, start_col: usize, end_col: usize, token: Seq<char>, kind: UnitKind) -> bool {
    u.row == row && u.start_col == start_col && u.end_col == end_col && u.token@ == token && u.kind == kind
}

pub open spec fn unit_found(notes: Seq<UnitSpan>, row: usize, start_col: usize, end_col: usize, token: Seq<char>, kind: UnitKind) -> spec_fn(int) -> bool {
    |i: int| same_unit(notes[i], row, start_col, end_col, token, kind)
}

/// Where among `notes` the unit with these fields is first.
pub open spec fn position_of_unit(notes: Seq<UnitSpan>, row: usize, start_col: usize, end_col: usize, token: Seq<char>, kind: UnitKind) -> Option<int> {
    first_where(notes.len() as int, unit_found(notes, row, start_col, end_col, token, kind))
}

/// The positions among `notes` (the units of the score, in order) that the
/// selection covers: the selected unit, or every unit from the anchor's to the
/// focus's; none when they are not found or the selection is of another kind.
pub open spec fn spec_selected_indices(notes: Seq<UnitSpan>, sel: Option<StudioSelection>) -> Seq<int> {
    match sel {
        Some(StudioSelection::Unit { row, start_col, end_col, token, kind }) => match position_of_unit(
            notes,
            row,
            start_col,
            end_col,
            token@,
            kind,
        ) {
            Some(i) => seq![i],
            None => seq![],
        },
        Some(StudioSelection::UnitRange { anchor, focus }) => match (
            position_of_unit(notes, anchor.row, anchor.start_col, anchor.end_col, anchor.token@, anchor.kind),
            position_of_unit(notes, focus.row, focus.start_col, focus.end_col, focus.token@, focus.kind),
        ) {
            (Some(a), Some(f)) => {
                let lo = if a <= f { a } else { f };
                let hi = if a <= f { f } else { a };
                Seq::new((hi - lo + 1) as nat, |k: int| lo + k)
            },
            _ => seq![],
        },
        _ => seq![],
    }
}

fn find_unit(notes: &[UnitSpan], row: usize, start_col: usize, end_col: usize, token: &String, kind: UnitKind) -> (r: Option<usize>)
    ensures
        match position_of_unit(notes@, row, start_col, end_col, token@, kind) {
            Some(i) => r matches Some(x) && x as int == i && 0 <= i < notes@.len(),
            None => r is None,
        },
{
    let ghost p = unit_found(notes@, row, start_col, end_col, token@, kind);
    let tv = chars_of(token.as_str());
    let mut i: usize = 0;
    while i < notes.len()
        invariant
            i <= notes@.len(),
            p == unit_found(notes@, row, start_col, end_col, token@, kind),
            tv@ == token@,
            forall|j: int| 0 <= j < i ==> !#[trigger] p(j),
        decreases notes@.len() - i,
    {
        let n = &notes[i];
        if n.row == row && n.start_col == start_col && n.end_col == end_col && n.kind == kind && eq_chars(
            &chars_of(n.token.as_str()),
            &tv,
        ) {
            proof {
                lemma_first_where(notes@.len() as int, p, i as int);
            }
            return Some(i);
        }
        i += 1;
    }
    proof {
        lemma_first_where(notes@.len() as int, p, notes@.len() as int);
    }
    None
}

/// The positions among `notes` (the units of the score, in order) that the
/// selection covers.
#[verifier::spinoff_prover]
pub fn selected_unit_indices(notes: &[UnitSpan], selection: &Option<StudioSelection>) -> (r: Vec<usize>)
    ensures
        r@.len() == spec_selected_indices(notes@, *selection).len(),
        forall|k: int| 0 <= k < r@.len() ==> #[trigger] r@[k] as int == spec_selected_indices(notes@, *selection)[k],
        forall|k: int| 0 <= k < r@.len() ==> #[trigger] r@[k] < notes@.len(),
{
    match selection {
        Some(StudioSelection::Unit { row, start_col, end_col, token, kind }) => {
            let mut r: Vec<usize> = Vec::new();
            let ghost want = spec_selected_indices(notes@, *selection);
            let ghost pos = position_of_unit(notes@, *row, *start_col, *end_col, token@, *kind);
            assert(want == match pos {
                Some(i) => seq![i],
                None => Seq::<int>::empty(),
            });
            match find_unit(notes, *row, *start_col, *end_col, token, *kind) {
                Some(i) => {
                    assert(pos == Some(i as int));
                    assert(want == seq![i as int]);
                    r.push(i);
                    assert(r@ =~= seq![i]);
                    assert(r@[0] as int == want[0]);
                },
                None => {
                    assert(want.len() == 0);
                    assert(r@ =~= Seq::<usize>::empty());
                },
            }
            r
        },
        Some(StudioSelection::UnitRange { anchor, focus }) => {
            let a = match find_unit(notes, anchor.row, anchor.start_col, anchor.end_col, &anchor.token, anchor.kind) {
                Some(a) => a,
                None => return Vec::new(),
            };
            let f = match find_unit(notes, focus.row, focus.start_col, focus.end_col, &focus.token, focus.kind) {
                Some(f) => f,
                None => return Vec::new(),
            };
            let lo = if a <= f { a } else { f };
            let hi = if a <= f { f } else { a };
            assert(notes@.len() == notes.len());
            let mut r: Vec<usize> = Vec::new();
            let mut k = lo;
            while k <= hi
                invariant
                    lo <= k <= hi + 1,
                    hi < notes.len(),
                    notes@.len() == notes.len(),
                    r@.len() == k - lo,
                    forall|j: int| 0 <= j < r@.len() ==> #[trigger] r@[j] == lo + j,
                decreases hi + 1 - k,
            {
                r.push(k);
                k += 1;
            }
            r
        },
        _ => Vec::new(),
    }
}

/// `n + 1` in decimal.
pub open spec fn one_based(n: usize) -> Seq<char> {
    decimal((n + 1) as nat)
}

fn one_based_chars(n: usize) -> (r: Vec<char>)
    requires
        n < usize::MAX,
    ensures
        r@ == one_based(n),
{
    decimal_chars((n as u64) + 1)
}

pub open spec fn token_label(token: Seq<char>, row: usize, col: usize) -> Seq<char> {
    "token "@ + token + " at line "@ + one_based(row) + ", col "@ + one_based(col)
}

pub open spec fn bar_label(index: usize, row: usize) -> Seq<char> {
    "bar "@ + one_based(index) + " on line "@ + one_based(row)
}

pub open spec fn bar_range_label(sr: usize, er: usize, si: usize, ei: usize) -> Seq<char> {
    if sr == er && si == ei {
        bar_label(si, sr)
    } else if sr == er {
        "bars "@ + one_based(si) + ".."@ + one_based(ei) + " on line "@ + one_based(sr)
    } else if si == ei {
        "bar "@ + one_based(si) + " across lines "@ + one_based(sr) + ".."@ + one_based(er)
    } else {
        "bars "@ + one_based(si) + ".."@ + one_based(ei) + " across lines "@ + one_based(sr) + ".."@
            + one_based(er)
    }
}

pub open spec fn line_label(start: usize, end: usize) -> Seq<char> {
    if start == end {
        "line "@ + one_based(start)
    } else {
        "lines "@ + one_based(start) + ".."@ + one_based(end)
    }
}

/// The units that a unit range covers.
pub open spec fn range_units(notes: Seq<UnitSpan>, sel: Option<StudioSelection>) -> Seq<UnitSpan> {
    let ix = spec_selected_indices(notes, sel);
    Seq::new(ix.len(), |k: int| notes[ix[k]])
}

/// The status-line label of a selection: the token and its place for a unit
/// (and for a unit range of one unit), the count and the end tokens for a longer
/// unit range, the bar or bar rectangle, the template call (its text and place)
/// or the two template calls of a range, else the line or lines covered.
pub open spec fn spec_label(sel: Option<StudioSelection>, cursor_row: usize, notes: Seq<UnitSpan>) -> Seq<char> {
    match sel {
        Some(StudioSelection::Unit { row, start_col, token, .. }) => token_label(token@, row, start_col),
        Some(StudioSelection::UnitRange { .. }) => {
            let us = range_units(notes, sel);
            if us.len() == 1 {
                token_label(us[0].token@, us[0].row, us[0].start_col)
            } else if us.len() >= 2 {
                decimal(us.len()) + " tokens from "@ + us[0].token@ + " to "@ + us.last().token@
            } else {
                "no tokens"@
            }
        },
        Some(StudioSelection::Bar { span }) => bar_label(span.index, span.row),
        Some(StudioSelection::BarRange { anchor, focus }) => bar_range_label(
            min_u(anchor.row, focus.row),
            max_u(anchor.row, focus.row),
            min_u(anchor.index, focus.index),
            max_u(anchor.index, focus.index),
        ),
        Some(StudioSelection::TemplateCall { span }) => "template call "@ + span.raw_text@ + " at line "@
            + one_based(span.row) + ", col "@ + one_based(span.start_col),
        Some(StudioSelection::TemplateCallRange { anchor, focus }) => "template calls from "@
            + anchor.raw_text@ + " to "@ + focus.raw_text@,
        _ => {
            let (s, e) = spec_line_range(sel, cursor_row);
            line_label(s, e)
        },
    }
}

/// The numbers that a label shows stay below `usize::MAX` once made 1-based.
pub open spec fn label_numbers_fit(sel: Option<StudioSelection>, cursor_row: usize, notes: Seq<UnitSpan>) -> bool {
    &&& cursor_row < usize::MAX
    &&& forall|i: int| 0 <= i < notes.len() ==> (#[trigger] notes[i]).row < usize::MAX && notes[i].start_col < usize::MAX
    &&& match sel {
        Some(StudioSelection::Unit { row, start_col, .. }) => row < usize::MAX && start_col < usize::MAX,
        Some(StudioSelection::Bar { span }) => span.row < usize::MAX && span.index < usize::MAX,
        Some(StudioSelection::BarRange { anchor, focus }) => anchor.row < usize::MAX && anchor.index < usize::MAX
            && focus.row < usize::MAX && focus.index < usize::MAX,
        Some(StudioSelection::TemplateCall { span }) => span.row < usize::MAX && span.start_col < usize::MAX,
        Some(StudioSelection::LineRange { anchor_row }) => anchor_row < usize::MAX,
        _ => true,
    }
}

fn push_str(v: &mut Vec<char>, s: &str)
    ensures
        final(v)@ == old(v)@ + s@,
{
    append(v, &chars_of(s));
}

fn push_chars(v: &mut Vec<char>, s: &Vec<char>)
    ensures
        final(v)@ == old(v)@ + s@,
{
    append(v, s);
}

fn token_label_chars(token: &String, row: usize, col: usize) -> (r: Vec<char>)
    requires
        row < usize::MAX,
        col < usize::MAX,
    ensures
        r@ == token_label(token@, row, col),
{
    let mut v = chars_of("token ");
    push_str(&mut v, token.as_str());
    push_str(&mut v, " at line ");
    push_chars(&mut v, &one_based_chars(row));
    push_str(&mut v, ", col ");
    push_chars(&mut v, &one_based_chars(col));
    v
}

fn bar_range_label_chars(sr: usize, er: usize, si: usize, ei: usize) -> (r: Vec<char>)
    requires
        sr < usize::MAX,
        er < usize::MAX,
        si < usize::MAX,
        ei < usize::MAX,
    ensures
        r@ == bar_range_label(sr, er, si, ei),
{
    if sr == er && si == ei {
        let mut v = chars_of("bar ");
        push_chars(&mut v, &one_based_chars(si));
        push_str(&mut v, " on line ");
        push_chars(&mut v, &one_based_chars(sr));
        v
    } else if sr == er {
        let mut v = chars_of("bars ");
        push_chars(&mut v, &one_based_chars(si));
        push_str(&mut v, "..");
        push_chars(&mut v, &one_based_chars(ei));
        push_str(&mut v, " on line ");
        push_chars(&mut v, &one_based_chars(sr));
        v
    } else if si == ei {
        let mut v = chars_of("bar ");
        push_chars(&mut v, &one_based_chars(si));
        push_str(&mut v, " across lines ");
        push_chars(&mut v, &one_based_chars(sr));
        push_str(&mut v, "..");
        push_chars(&mut v, &one_based_chars(er));
        v
    } else {
        let mut v = chars_of("bars ");
        push_chars(&mut v, &one_based_chars(si));
        push_str(&mut v, "..");
        push_chars(&mut v, &one_based_chars(ei));
        push_str(&mut v, " across lines ");
        push_chars(&mut v, &one_based_chars(sr));
        push_str(&mut v, "..");
        push_chars(&mut v, &one_based_chars(er));
        v
    }
}

/// The status-line label of the selection; `notes` are the units of the score.
pub fn selection_label(selection: &Option<StudioSelection>, cursor_row: usize, notes: &[UnitSpan]) -> (r: String)
    requires
        label_numbers_fit(*selection, cursor_row, notes@),
    ensures
        r@ == spec_label(*selection, cursor_row, notes@),
{
    match selection {
        Some(StudioSelection::Unit { row, start_col, token, .. }) => string_of(&token_label_chars(token, *row, *start_col)),
        Some(StudioSelection::UnitRange { .. }) => {
            let ix = selected_unit_indices(notes, selection);
            let ghost us = range_units(notes@, *selection);
            assert(us.len() == ix@.len());
            if ix.len() == 1 {
                let first = &notes[ix[0]];
                assert(us[0] == *first);
                string_of(&token_label_chars(&first.token, first.row, first.start_col))
            } else if ix.len() >= 2 {
                let first = &notes[ix[0]];
                let last = &notes[ix[ix.len() - 1]];
                assert(us[0] == *first);
                assert(us.last() == *last);
                let mut v = decimal_chars(ix.len() as u64);
                push_str(&mut v, " tokens from ");
                push_str(&mut v, first.token.as_str());
                push_str(&mut v, " to ");
                push_str(&mut v, last.token.as_str());
                string_of(&v)
            } else {
                crate::text::owned("no tokens")
            }
        },
        Some(StudioSelection::Bar { span }) => string_of(&bar_range_label_chars(span.row, span.row, span.index, span.index)),
        Some(StudioSelection::BarRange { anchor, focus }) => {
            let ((sr, er), (si, ei)) = selected_bar_rectangle_bounds(anchor, focus);
            string_of(&bar_range_label_chars(sr, er, si, ei))
        },
        Some(StudioSelection::TemplateCall { span }) => {
            let mut v = chars_of("template call ");
            push_str(&mut v, span.raw_text.as_str());
            push_str(&mut v, " at line ");
            push_chars(&mut v, &one_based_chars(span.row));
            push_str(&mut v, ", col ");
            push_chars(&mut v, &one_based_chars(span.start_col));
            string_of(&v)
        },
        Some(StudioSelection::TemplateCallRange { anchor, focus }) => {
            let mut v = chars_of("template calls from ");
            push_str(&mut v, anchor.raw_text.as_str());
            push_str(&mut v, " to ");
            push_str(&mut v, focus.raw_text.as_str());
            string_of(&v)
        },
        _ => {
            let (s, e) = selected_line_range(selection, cursor_row);
            if s == e {
                let mut v = chars_of("line ");
                push_chars(&mut v, &one_based_chars(s));
                string_of(&v)
            } else {
                let mut v = chars_of("lines ");
                push_chars(&mut v, &one_based_chars(s));
                push_str(&mut v, "..");
                push_chars(&mut v, &one_based_chars(e));
                string_of(&v)
            }
        },
    }
}

// ---------------------------------------------------------------------------
// The text area's view
// ---------------------------------------------------------------------------

/// The first row shown after the cursor moved to row `cursor`, when `len` rows
/// fit and row `prev_top` was shown first: it stays, unless the cursor left the
/// view above (the cursor's row comes first) or below (the cursor's row comes last).
pub fn next_scroll_top(prev_top: u16, cursor: u16, len: u16) -> (r: u16)
    requires
        prev_top + len <= u16::MAX,
        cursor < u16::MAX,
    ensures
        r == (if cursor < prev_top {
            cursor as int
        } else if prev_top + len <= cursor {
            cursor + 1 - len
        } else {
            prev_top as int
        }),
{
    if cursor < prev_top {
        cursor
    } else if prev_top + len <= cursor {
        cursor + 1 - len
    } else {
        prev_top
    }
}

/// The width of the line-number gutter: the digits of the line count (at least
/// one line), and two more columns.
pub fn line_number_width(line_count: usize) -> (r: u16)
    ensures
        r == decimal((if line_count >= 1 { line_count } else { 1 }) as nat).len() + 2,
{
    let n: usize = if line_count >= 1 { line_count } else { 1 };
    let digits = decimal_chars(n as u64);
    proof {
        crate::text::lemma_decimal_len_bound(n as nat);
    }
    (digits.len() + 2) as u16
}

// ---------------------------------------------------------------------------
// Pasting yanked units
// ---------------------------------------------------------------------------

/// Where yanked units came from.
#[derive(Clone, Copy, Debug, PartialEq, Eq, Structural)]
pub enum UnitYankContext {
    SeqLine,
    Modifier,
    LaneBody,
}

/// A unit is in the body of a lane line: a lane token, or a token after the first
/// pipe of a line that is not a `seq` line.
pub open spec fn lane_body_unit(line: Seq<char>, u: UnitSpan) -> bool {
    u.kind.spec_is_lane_body() || (!spec_is_seq_line(line) && match crate::text::first_index_of(line, '|') {
        Some(p) => u.start_col > p,
        None => false,
    })
}

/// Units yanked from `context` fit `targets` on `line`: a `seq` line for seq
/// units, modifier values for modifier values, lane bodies for lane units.
pub open spec fn yank_context_fits(context: UnitYankContext, line: Seq<char>, targets: Seq<UnitSpan>) -> bool {
    match context {
        UnitYankContext::SeqLine => spec_is_seq_line(line),
        UnitYankContext::Modifier => forall|i: int| 0 <= i < targets.len() ==> (#[trigger] targets[i]).kind.spec_is_modifier(),
        UnitYankContext::LaneBody => forall|i: int| 0 <= i < targets.len() ==> lane_body_unit(line, #[trigger] targets[i]),
    }
}

/// Whether units yanked from `context` can be pasted over `targets` on `line`:
/// seq units onto a `seq` line, modifier values onto modifier values, lane units
/// onto lane bodies.
pub fn unit_yank_context_matches(context: UnitYankContext, line: &str, targets: &[UnitSpan]) -> (b: bool)
    ensures
        b == yank_context_fits(context, line@, targets@),
{
    match context {
        UnitYankContext::SeqLine => is_seq_line(line),
        UnitYankContext::Modifier => {
            let mut i: usize = 0;
            while i < targets.len()
                invariant
                    context == UnitYankContext::Modifier,
                    i <= targets@.len(),
                    forall|j: int| 0 <= j < i ==> (#[trigger] targets@[j]).kind.spec_is_modifier(),
                decreases targets@.len() - i,
            {
                if !targets[i].kind.is_modifier() {
                    assert(!targets@[i as int].kind.spec_is_modifier());
                    return false;
                }
                i += 1;
            }
            true
        },
        UnitYankContext::LaneBody => {
            let mut i: usize = 0;
            while i < targets.len()
                invariant
                    context == UnitYankContext::LaneBody,
                    i <= targets@.len(),
                    forall|j: int| 0 <= j < i ==> lane_body_unit(line@, #[trigger] targets@[j]),
                decreases targets@.len() - i,
            {
                if !is_lane_body_token(line, &targets[i]) {
                    assert(!lane_body_unit(line@, targets@[i as int]));
                    return false;
                }
                i += 1;
            }
            true
        },
    }
}


/// The kind of units that `units` on `line` are, for yanking: a `seq` line first,
/// then modifier values, then lane-body units.
pub open spec fn yank_context(line: Seq<char>, units: Seq<UnitSpan>) -> Option<UnitYankContext> {
    if spec_is_seq_line(line) {
        Some(UnitYankContext::SeqLine)
    } else if forall|i: int| 0 <= i < units.len() ==> (#[trigger] units[i]).kind.spec_is_modifier() {
        Some(UnitYankContext::Modifier)
    } else if forall|i: int| 0 <= i < units.len() ==> lane_body_unit(line, #[trigger] units[i]) {
        Some(UnitYankContext::LaneBody)
    } else {
        None
    }
}

/// Which kind of units `tokens` on `line` are, for yanking: a `seq` line first,
/// then modifier values, then lane-body units; `None` when they are none of these.
pub fn unit_yank_context_of(line: &str, tokens: &[UnitSpan]) -> (r: Option<UnitYankContext>)
    ensures
        r == yank_context(line@, tokens@),
{
    if unit_yank_context_matches(UnitYankContext::SeqLine, line, tokens) {
        Some(UnitYankContext::SeqLine)
    } else if unit_yank_context_matches(UnitYankContext::Modifier, line, tokens) {
        Some(UnitYankContext::Modifier)
    } else if unit_yank_context_matches(UnitYankContext::LaneBody, line, tokens) {
        Some(UnitYankContext::LaneBody)
    } else {
        None
    }
}

} // verus!
