//! Selectable units of a score line: pitches, rests, sustains, lane onsets,
//! modifier values, bars and bracket groups, and the character-range edits
//! that replace, insert or delete them.
use vstd::prelude::*;
use crate::text::{
    all_digits, append, chars_of, first_index_of, first_where, int_intervals, is_ascii_alnum,
    is_ascii_alphanumeric, is_ascii_digit, is_digit, is_whitespace, is_ws, last_where,
    lead_ws, lemma_first_where, lemma_last_where, lemma_lead_ws_unique, lemma_trail_ws_unique,
    near_col, near_col_index, position_of, skip_ws, skip_ws_back, slice_vec, string_of, trail_ws,
    trim, trim_bounds,
};

verus! {

// ---------------------------------------------------------------------------
// Types
// ---------------------------------------------------------------------------

/// What a selectable unit is.
#[derive(Clone, Copy, Debug, PartialEq, Eq, Structural)]
pub enum UnitKind {
    Pitch,
    SeqRest,
    SeqSustain,
    LaneNoteOn,
    LaneRest,
    LaneSustain,
    ModifierValue,
    ModifierEmpty,
}

impl UnitKind {
    pub fn is_pitch(self) -> (b: bool)
        ensures
            b == (self == UnitKind::Pitch),
    {
        matches!(self, UnitKind::Pitch)
    }

    pub open spec fn spec_is_lane_body(self) -> bool {
        self == UnitKind::LaneNoteOn || self == UnitKind::LaneRest || self == UnitKind::LaneSustain
    }

    pub fn is_lane_body(self) -> (b: bool)
        ensures
            b == self.spec_is_lane_body(),
    {
        matches!(self, UnitKind::LaneNoteOn | UnitKind::LaneRest | UnitKind::LaneSustain)
    }

    pub open spec fn spec_is_seq_body(self) -> bool {
        self == UnitKind::Pitch || self == UnitKind::SeqRest || self == UnitKind::SeqSustain
    }

    pub fn is_seq_body(self) -> (b: bool)
        ensures
            b == self.spec_is_seq_body(),
    {
        matches!(self, UnitKind::Pitch | UnitKind::SeqRest | UnitKind::SeqSustain)
    }

    pub open spec fn spec_is_modifier(self) -> bool {
        self == UnitKind::ModifierValue || self == UnitKind::ModifierEmpty
    }

    pub fn is_modifier(self) -> (b: bool)
        ensures
            b == self.spec_is_modifier(),
    {
        matches!(self, UnitKind::ModifierValue | UnitKind::ModifierEmpty)
    }
}

/// A unit of a line: its row, its columns `start_col..end_col` and its text.
#[derive(Clone, Debug, PartialEq, Eq)]
pub struct UnitSpan {
    pub row: usize,
    pub start_col: usize,
    pub end_col: usize,
    pub token: String,
    pub kind: UnitKind,
}

/// A bar: the columns from its opening pipe through its closing pipe.
#[derive(Clone, Debug, PartialEq, Eq)]
pub struct BarSpan {
    pub row: usize,
    pub start_col: usize,
    pub end_col: usize,
    pub index: usize,
}

/// A bracket group, `start_col..end_col` including both brackets, and the text of
/// the first-level element that a column points at.
#[derive(Clone, Debug, PartialEq, Eq)]
pub struct GroupSpan {
    pub start_col: usize,
    pub end_col: usize,
    pub selected_element: String,
}

#[derive(Clone, Copy, Debug, PartialEq, Eq, Structural)]
pub enum ModifierLineKind {
    Velocity,
    Pitch,
}

/// How the units of a line are read, by the head before its first pipe.
#[derive(Clone, Copy, Debug, PartialEq, Eq, Structural)]
pub enum EditableLineKind {
    SeqLine,
    Lane,
    Modifier(ModifierLineKind),
    Other,
}

impl UnitSpan {
    /// A copy of the span.
    pub fn duplicate(&self) -> (r: UnitSpan)
        ensures
            r == *self,
    {
        UnitSpan {
            row: self.row,
            start_col: self.start_col,
            end_col: self.end_col,
            token: self.token.clone(),
            kind: self.kind,
        }
    }
}

impl BarSpan {
    /// A copy of the span.
    pub fn duplicate(&self) -> (r: BarSpan)
        ensures
            r == *self,
    {
        BarSpan { row: self.row, start_col: self.start_col, end_col: self.end_col, index: self.index }
    }
}

// ---------------------------------------------------------------------------
// Character classes
// ---------------------------------------------------------------------------

pub open spec fn spec_note_token_char(c: char) -> bool {
    is_ascii_alnum(c) || c == '#' || c == '-'
}

pub open spec fn spec_selectable_char(c: char) -> bool {
    spec_note_token_char(c) || c == '.'
}

pub open spec fn spec_modifier_char(c: char) -> bool {
    is_digit(c) || c == '!' || c == '+' || c == '-' || c == '.' || c == ','
}

pub open spec fn spec_group_token_char(c: char) -> bool {
    spec_selectable_char(c) || spec_modifier_char(c) || c == '^'
}

/// A character that can be part of a note name: ASCII letters and digits, `#` and `-`.
pub fn is_note_token_char(c: char) -> (b: bool)
    ensures
        b == spec_note_token_char(c),
{
    is_ascii_alphanumeric(c) || c == '#' || c == '-'
}

fn is_selectable_token_char(c: char) -> (b: bool)
    ensures
        b == spec_selectable_char(c),
{
    is_note_token_char(c) || c == '.'
}

fn is_modifier_token_char(c: char) -> (b: bool)
    ensures
        b == spec_modifier_char(c),
{
    is_ascii_digit(c) || c == '!' || c == '+' || c == '-' || c == '.' || c == ','
}

fn is_group_token_char(c: char) -> (b: bool)
    ensures
        b == spec_group_token_char(c),
{
    is_selectable_token_char(c) || is_modifier_token_char(c) || c == '^'
}

// ---------------------------------------------------------------------------
// Pitch names
// ---------------------------------------------------------------------------

pub open spec fn is_pitch_letter(c: char) -> bool {
    ('A' <= c && c <= 'G') || ('a' <= c && c <= 'g')
}

/// Number of accidentals (`#` or `b`) that open `t`.
pub open spec fn accidental_len(t: Seq<char>) -> nat
    decreases t.len(),
{
    if t.len() > 0 && (t[0] == '#' || t[0] == 'b') {
        1 + accidental_len(t.drop_first())
    } else {
        0
    }
}

/// An octave number: an optional `-`, then one or more ASCII digits.
pub open spec fn is_octave(t: Seq<char>) -> bool {
    let d = if t.len() > 0 && t[0] == '-' {
        t.drop_first()
    } else {
        t
    };
    d.len() > 0 && all_digits(d)
}

/// A pitch name: a letter `A`-`G` (either case), accidentals, then an octave,
/// as in `C4`, `Eb4`, `A#3` or `C-1`.
pub open spec fn is_pitch_token(t: Seq<char>) -> bool {
    t.len() > 0 && is_pitch_letter(t[0]) && is_octave(
        t.drop_first().skip(accidental_len(t.drop_first()) as int),
    )
}

proof fn lemma_accidental_len(t: Seq<char>, n: int)
    requires
        0 <= n <= t.len(),
        forall|j: int| 0 <= j < n ==> (#[trigger] t[j] == '#' || t[j] == 'b'),
        n < t.len() ==> !(t[n] == '#' || t[n] == 'b'),
    ensures
        accidental_len(t) == n,
    decreases t.len(),
{
    if n > 0 {
        assert(t[0] == '#' || t[0] == 'b');
        assert forall|j: int| 0 <= j < n - 1 implies (#[trigger] t.drop_first()[j] == '#'
            || t.drop_first()[j] == 'b') by {
            assert(t.drop_first()[j] == t[j + 1]);
        }
        if n - 1 < t.drop_first().len() {
            assert(t.drop_first()[n - 1] == t[n]);
        }
        lemma_accidental_len(t.drop_first(), n - 1);
    }
}

/// Whether `v[a..b]` is a pitch name.
pub fn pitch_token_at(v: &Vec<char>, a: usize, b: usize) -> (r: bool)
    requires
        a <= b <= v.len(),
    ensures
        r == is_pitch_token(v@.subrange(a as int, b as int)),
{
    let ghost t = v@.subrange(a as int, b as int);
    if a == b {
        return false;
    }
    let c = v[a];
    if !(('A' <= c && c <= 'G') || ('a' <= c && c <= 'g')) {
        return false;
    }
    assert(t[0] == c);
    let ghost u = t.drop_first();
    let mut k = a + 1;
    while k < b && (v[k] == '#' || v[k] == 'b')
        invariant
            a + 1 <= k <= b <= v.len(),
            t == v@.subrange(a as int, b as int),
            u == t.drop_first(),
            forall|j: int| 0 <= j < k - (a + 1) ==> (#[trigger] u[j] == '#' || u[j] == 'b'),
        decreases b - k,
    {
        assert(u[k - (a + 1)] == v@[k as int]);
        k += 1;
    }
    proof {
        if k < b {
            assert(u[k - (a + 1)] == v@[k as int]);
        }
        lemma_accidental_len(u, k - (a + 1));
    }
    let ghost o = u.skip(k - (a + 1));
    assert(o =~= v@.subrange(k as int, b as int));
    let d = if k < b && v[k] == '-' {
        k + 1
    } else {
        k
    };
    let ghost dd = if o.len() > 0 && o[0] == '-' {
        o.drop_first()
    } else {
        o
    };
    assert(dd =~= v@.subrange(d as int, b as int));
    if d == b {
        return false;
    }
    let mut i = d;
    while i < b
        invariant
            d <= i <= b <= v.len(),
            dd == v@.subrange(d as int, b as int),
            t == v@.subrange(a as int, b as int),
            u == t.drop_first(),
            t.len() > 0 && is_pitch_letter(t[0]),
            accidental_len(u) == k - (a + 1),
            o == u.skip(k - (a + 1)),
            dd == (if o.len() > 0 && o[0] == '-' {
                o.drop_first()
            } else {
                o
            }),
            forall|j: int| d <= j < i ==> is_digit(#[trigger] v@[j]),
        decreases b - i,
    {
        if !is_ascii_digit(v[i]) {
            assert(dd[i - d] == v@[i as int]);
            return false;
        }
        i += 1;
    }
    assert forall|j: int| 0 <= j < dd.len() implies is_digit(#[trigger] dd[j]) by {
        assert(dd[j] == v@[j + d]);
    }
    true
}

// ---------------------------------------------------------------------------
// Line kinds and heads
// ---------------------------------------------------------------------------

/// How a line is read, by its head (the text before its first pipe).
pub open spec fn spec_line_kind(head: Seq<char>) -> EditableLineKind {
    let t = trim(head);
    if t == "seq"@ {
        EditableLineKind::SeqLine
    } else if t == "v"@ {
        EditableLineKind::Modifier(ModifierLineKind::Velocity)
    } else if t == "p"@ {
        EditableLineKind::Modifier(ModifierLineKind::Pitch)
    } else if t.len() > 0 {
        EditableLineKind::Lane
    } else {
        EditableLineKind::Other
    }
}

/// The head of a line whose first pipe is at `p`.
pub open spec fn head(s: Seq<char>, p: int) -> Seq<char> {
    s.take(p)
}

/// Whether the line is a `seq` line.
pub open spec fn spec_is_seq_line(s: Seq<char>) -> bool {
    match first_index_of(s, '|') {
        Some(p) => spec_line_kind(s.take(p)) == EditableLineKind::SeqLine,
        None => false,
    }
}

/// The trimmed head of a lane line (`None` for a line without a pipe, an empty
/// head or a `seq` head).
pub open spec fn spec_lane_head(s: Seq<char>) -> Option<Seq<char>> {
    match first_index_of(s, '|') {
        Some(p) => {
            let h = trim(s.take(p));
            if h.len() > 0 && h != "seq"@ {
                Some(h)
            } else {
                None
            }
        },
        None => None,
    }
}

fn line_kind_of(v: &Vec<char>, p: usize) -> (k: EditableLineKind)
    requires
        p <= v.len(),
    ensures
        k == spec_line_kind(v@.take(p as int)),
{
    let h = slice_vec(v, 0, p);
    assert(h@ =~= v@.take(p as int));
    let (a, b) = trim_bounds(&h);
    let t = slice_vec(&h, a, b);
    if eq_lit(&t, &chars_of("seq")) {
        EditableLineKind::SeqLine
    } else if eq_lit(&t, &chars_of("v")) {
        EditableLineKind::Modifier(ModifierLineKind::Velocity)
    } else if eq_lit(&t, &chars_of("p")) {
        EditableLineKind::Modifier(ModifierLineKind::Pitch)
    } else if t.len() > 0 {
        EditableLineKind::Lane
    } else {
        EditableLineKind::Other
    }
}

fn eq_lit(v: &Vec<char>, s: &Vec<char>) -> (b: bool)
    ensures
        b == (v@ == s@),
{
    crate::text::eq_chars(v, s)
}

/// Whether `line` is a `seq` line.
pub fn is_seq_line(line: &str) -> (b: bool)
    ensures
        b == spec_is_seq_line(line@),
{
    let v = chars_of(line);
    is_seq_line_chars(&v)
}

fn is_seq_line_chars(v: &Vec<char>) -> (b: bool)
    ensures
        b == spec_is_seq_line(v@),
{
    match position_of(v, '|') {
        Some(p) => line_kind_of(v, p) == EditableLineKind::SeqLine,
        None => false,
    }
}

/// The head of a lane line, trimmed: `None` when the line has no pipe, or its
/// head is empty or `seq`.
pub fn lane_head_token(line: &str) -> (r: Option<String>)
    ensures
        match spec_lane_head(line@) {
            Some(h) => r matches Some(s) && s@ == h,
            None => r is None,
        },
{
    let v = chars_of(line);
    match lane_head_chars(&v) {
        Some(h) => Some(string_of(&h)),
        None => None,
    }
}

fn lane_head_chars(v: &Vec<char>) -> (r: Option<Vec<char>>)
    ensures
        match spec_lane_head(v@) {
            Some(h) => r matches Some(s) && s@ == h,
            None => r is None,
        },
{
    let p = position_of(v, '|')?;
    let h = slice_vec(v, 0, p);
    assert(h@ =~= v@.take(p as int));
    let (a, b) = trim_bounds(&h);
    let t = slice_vec(&h, a, b);
    if t.len() > 0 && !eq_lit(&t, &chars_of("seq")) {
        Some(t)
    } else {
        None
    }
}

// ---------------------------------------------------------------------------
// Token scanning
// ---------------------------------------------------------------------------

/// The maximal runs of characters of `s[i..hi]` that satisfy `p`, as
/// `(start, end)` column pairs; `cur` is the start of a run already open at `i`.
pub open spec fn scan_runs(
    s: Seq<char>,
    p: spec_fn(char) -> bool,
    i: int,
    hi: int,
    cur: Option<int>,
) -> Seq<(int, int)>
    decreases hi - i,
{
    if i >= hi {
        match cur {
            Some(st) => seq![(st, hi)],
            None => seq![],
        }
    } else if p(s[i]) {
        scan_runs(
            s,
            p,
            i + 1,
            hi,
            if cur is Some {
                cur
            } else {
                Some(i)
            },
        )
    } else {
        match cur {
            Some(st) => seq![(st, i)] + scan_runs(s, p, i + 1, hi, None),
            None => scan_runs(s, p, i + 1, hi, None),
        }
    }
}

/// The unit that a note-like token makes: `.` and `-` are rest and sustain in a
/// `seq` body; a pitch name is a pitch; anything else (a drum name) is no unit.
pub open spec fn note_unit_kind(t: Seq<char>, is_seq: bool) -> Option<UnitKind> {
    if is_seq && t == "."@ {
        Some(UnitKind::SeqRest)
    } else if is_seq && t == "-"@ {
        Some(UnitKind::SeqSustain)
    } else if is_pitch_token(t) {
        Some(UnitKind::Pitch)
    } else {
        None
    }
}

/// The unit of a modifier token: `.` is an empty slot, anything else a value.
pub open spec fn modifier_unit_kind(t: Seq<char>) -> UnitKind {
    if t == "."@ {
        UnitKind::ModifierEmpty
    } else {
        UnitKind::ModifierValue
    }
}

/// How runs are read into units.
#[derive(Clone, Copy, Debug, PartialEq, Eq, Structural)]
pub enum ScanMode {
    SeqBody,
    LaneHead,
    Modifier,
}

pub open spec fn mode_char(m: ScanMode) -> spec_fn(char) -> bool {
    match m {
        ScanMode::Modifier => |c: char| spec_modifier_char(c),
        _ => |c: char| spec_selectable_char(c),
    }
}

/// The unit (if any) that run `r` of `s` makes under mode `m`.
pub open spec fn run_unit(s: Seq<char>, m: ScanMode, r: (int, int)) -> Seq<(int, int, UnitKind)> {
    let t = s.subrange(r.0, r.1);
    match m {
        ScanMode::Modifier => seq![(r.0, r.1, modifier_unit_kind(t))],
        ScanMode::SeqBody => match note_unit_kind(t, true) {
            Some(k) => seq![(r.0, r.1, k)],
            None => seq![],
        },
        ScanMode::LaneHead => match note_unit_kind(t, false) {
            Some(k) => seq![(r.0, r.1, k)],
            None => seq![],
        },
    }
}

/// The units that the runs `rs` make.
pub open spec fn runs_units(s: Seq<char>, m: ScanMode, rs: Seq<(int, int)>) -> Seq<
    (int, int, UnitKind),
>
    decreases rs.len(),
{
    if rs.len() == 0 {
        seq![]
    } else {
        run_unit(s, m, rs[0]) + runs_units(s, m, rs.drop_first())
    }
}

/// The lane body units of `s[i..hi]`: each `^`, `.` and `-`.
pub open spec fn lane_cells(s: Seq<char>, i: int, hi: int) -> Seq<(int, int, UnitKind)>
    decreases hi - i,
{
    if i >= hi {
        seq![]
    } else {
        let rest = lane_cells(s, i + 1, hi);
        if s[i] == '^' {
            seq![(i, i + 1, UnitKind::LaneNoteOn)] + rest
        } else if s[i] == '.' {
            seq![(i, i + 1, UnitKind::LaneRest)] + rest
        } else if s[i] == '-' {
            seq![(i, i + 1, UnitKind::LaneSustain)] + rest
        } else {
            rest
        }
    }
}

/// The columns of the pipes of `s[i..]`.
pub open spec fn pipes_from(s: Seq<char>, i: int) -> Seq<int>
    decreases s.len() - i,
{
    if i >= s.len() {
        seq![]
    } else if s[i] == '|' {
        seq![i] + pipes_from(s, i + 1)
    } else {
        pipes_from(s, i + 1)
    }
}

/// The columns of the pipes of a line.
pub open spec fn pipe_cols(s: Seq<char>) -> Seq<int> {
    pipes_from(s, 0)
}

/// The lane body units of a lane line: every `^`, `.`, `-` between its first and
/// last pipes; none for a line without a lane head.
pub open spec fn lane_body_units(s: Seq<char>) -> Seq<(int, int, UnitKind)> {
    let ps = pipe_cols(s);
    if spec_lane_head(s) is None || ps.len() < 2 {
        seq![]
    } else {
        lane_cells(s, ps[0] + 1, ps.last())
    }
}

/// The units of a line, in column order.
pub open spec fn line_units(s: Seq<char>) -> Seq<(int, int, UnitKind)> {
    match first_index_of(s, '|') {
        None => seq![],
        Some(p) => match spec_line_kind(s.take(p)) {
            EditableLineKind::SeqLine => runs_units(
                s,
                ScanMode::SeqBody,
                scan_runs(s, mode_char(ScanMode::SeqBody), p + 1, s.len() as int, None),
            ),
            EditableLineKind::Lane => runs_units(
                s,
                ScanMode::LaneHead,
                scan_runs(s, mode_char(ScanMode::LaneHead), 0, p, None),
            ) + lane_body_units(s),
            EditableLineKind::Modifier(_) => runs_units(
                s,
                ScanMode::Modifier,
                scan_runs(s, mode_char(ScanMode::Modifier), p + 1, s.len() as int, None),
            ),
            EditableLineKind::Other => seq![],
        },
    }
}

/// Every span of `r` lies within a line of length `len`.
pub open spec fn spans_within(r: Seq<UnitSpan>, len: nat) -> bool {
    forall|k: int| 0 <= k < r.len() ==> #[trigger] r[k].start_col <= r[k].end_col && r[k].end_col <= len
}

/// The spans `r` are the units `us` of line `s` at row `row`.
pub open spec fn spans_are(r: Seq<UnitSpan>, row: usize, s: Seq<char>, us: Seq<(int, int, UnitKind)>) -> bool {
    &&& r.len() == us.len()
    &&& forall|i: int|
        0 <= i < r.len() ==> {
            &&& (#[trigger] r[i]).row == row
            &&& r[i].start_col == us[i].0
            &&& r[i].end_col == us[i].1
            &&& r[i].kind == us[i].2
            &&& r[i].token@ == s.subrange(us[i].0, us[i].1)
        }
}

proof fn lemma_runs_units_split(s: Seq<char>, m: ScanMode, x: (int, int), rest: Seq<(int, int)>)
    ensures
        runs_units(s, m, seq![x] + rest) == run_unit(s, m, x) + runs_units(s, m, rest),
{
    assert((seq![x] + rest).drop_first() =~= rest);
}

fn push_run(
    v: &Vec<char>,
    row: usize,
    m: ScanMode,
    a: usize,
    b: usize,
    out: &mut Vec<UnitSpan>,
)
    requires
        a <= b <= v.len(),
        spans_within(old(out)@, v@.len()),
    ensures
        final(out)@.len() >= old(out)@.len(),
        final(out)@.take(old(out)@.len() as int) == old(out)@,
        spans_are(
            final(out)@.skip(old(out)@.len() as int),
            row,
            v@,
            run_unit(v@, m, (a as int, b as int)),
        ),
        spans_within(final(out)@, v@.len()),
{
    let ghost t = v@.subrange(a as int, b as int);
    let tok = slice_vec(v, a, b);
    let is_dot = b > a && b - a == 1 && v[a] == '.';
    let is_dash = b > a && b - a == 1 && v[a] == '-';
    proof {
        reveal_strlit(".");
        reveal_strlit("-");
        if is_dot {
            assert(t =~= "."@);
        } else {
            assert(t != "."@) by {
                if t == "."@ {
                    assert(t.len() == 1 && t[0] == '.');
                }
            }
        }
        if is_dash {
            assert(t =~= "-"@);
        } else {
            assert(t != "-"@) by {
                if t == "-"@ {
                    assert(t.len() == 1 && t[0] == '-');
                }
            }
        }
    }
    let kind = match m {
        ScanMode::Modifier => {
            if is_dot {
                Some(UnitKind::ModifierEmpty)
            } else {
                Some(UnitKind::ModifierValue)
            }
        },
        ScanMode::SeqBody => {
            if is_dot {
                Some(UnitKind::SeqRest)
            } else if is_dash {
                Some(UnitKind::SeqSustain)
            } else if pitch_token_at(v, a, b) {
                Some(UnitKind::Pitch)
            } else {
                None
            }
        },
        ScanMode::LaneHead => {
            if pitch_token_at(v, a, b) {
                Some(UnitKind::Pitch)
            } else {
                None
            }
        },
    };
    let ghost o = out@;
    match kind {
        Some(k) => {
            out.push(UnitSpan { row, start_col: a, end_col: b, token: string_of(&tok), kind: k });
            assert(out@.skip(o.len() as int) =~= seq![out@[o.len() as int]]);
            assert(spans_within(out@, v@.len())) by {
                assert forall|k: int| 0 <= k < out@.len() implies #[trigger] out@[k].start_col <= out@[k].end_col && out@[k].end_col <= v@.len() by {
                    if k < o.len() {
                        assert(out@[k] == o[k]);
                    }
                }
            }
            assert(out@.take(o.len() as int) =~= o);
        },
        None => {
            assert(out@.skip(o.len() as int) =~= Seq::<UnitSpan>::empty());
            assert(out@.take(o.len() as int) =~= o);
        },
    }
}

proof fn lemma_spans_are_append(
    r1: Seq<UnitSpan>,
    r2: Seq<UnitSpan>,
    row: usize,
    s: Seq<char>,
    u1: Seq<(int, int, UnitKind)>,
    u2: Seq<(int, int, UnitKind)>,
)
    requires
        spans_are(r1, row, s, u1),
        spans_are(r2, row, s, u2),
    ensures
        spans_are(r1 + r2, row, s, u1 + u2),
{
    assert forall|i: int| 0 <= i < (r1 + r2).len() implies {
        &&& (#[trigger] (r1 + r2)[i]).row == row
        &&& (r1 + r2)[i].start_col == (u1 + u2)[i].0
        &&& (r1 + r2)[i].end_col == (u1 + u2)[i].1
        &&& (r1 + r2)[i].kind == (u1 + u2)[i].2
        &&& (r1 + r2)[i].token@ == s.subrange((u1 + u2)[i].0, (u1 + u2)[i].1)
    } by {
        if i < r1.len() {
            assert((r1 + r2)[i] == r1[i]);
        } else {
            assert((r1 + r2)[i] == r2[i - r1.len()]);
        }
    }
}

/// Appends the units of the runs of `v[lo..hi]` under mode `m`.
fn scan_units(v: &Vec<char>, row: usize, lo: usize, hi: usize, m: ScanMode, out: &mut Vec<UnitSpan>)
    requires
        lo <= hi <= v.len(),
        spans_within(old(out)@, v@.len()),
    ensures
        spans_within(final(out)@, v@.len()),
        final(out)@.len() >= old(out)@.len(),
        final(out)@.take(old(out)@.len() as int) == old(out)@,
        spans_are(
            final(out)@.skip(old(out)@.len() as int),
            row,
            v@,
            runs_units(v@, m, scan_runs(v@, mode_char(m), lo as int, hi as int, None)),
        ),
{
    let ghost o = out@;
    let ghost p = mode_char(m);
    let ghost total = runs_units(v@, m, scan_runs(v@, p, lo as int, hi as int, None));
    let mut col = lo;
    let mut cur: Option<usize> = None;
    proof {
        assert(out@.skip(o.len() as int) =~= Seq::<UnitSpan>::empty());
        assert(runs_units(v@, m, Seq::<(int, int)>::empty()) =~= Seq::<(int, int, UnitKind)>::empty());
        let e = Seq::<(int, int, UnitKind)>::empty();
        assert(spans_are(out@.skip(o.len() as int), row, v@, e));
        assert(e + runs_units(v@, m, scan_runs(v@, p, col as int, hi as int, None)) =~= total);
        assert(out@.take(o.len() as int) =~= o);
    }
    while col < hi
        invariant
            lo <= col <= hi <= v.len(),
            p == mode_char(m),
            spans_within(out@, v@.len()),
            cur matches Some(st) ==> lo <= st < col,
            out@.len() >= o.len(),
            out@.take(o.len() as int) == o,
            total == runs_units(v@, m, scan_runs(v@, p, lo as int, hi as int, None)),
            exists|done: Seq<(int, int, UnitKind)>|
                spans_are(out@.skip(o.len() as int), row, v@, done) && done + runs_units(
                    v@,
                    m,
                    scan_runs(
                        v@,
                        p,
                        col as int,
                        hi as int,
                        match cur {
                            Some(st) => Some(st as int),
                            None => None,
                        },
                    ),
                ) == total,
        decreases hi - col,
    {
        let c = v[col];
        let sel = match m {
            ScanMode::Modifier => is_modifier_token_char(c),
            _ => is_selectable_token_char(c),
        };
        let ghost done = choose|done: Seq<(int, int, UnitKind)>|
            spans_are(out@.skip(o.len() as int), row, v@, done) && done + runs_units(
                v@,
                m,
                scan_runs(
                    v@,
                    p,
                    col as int,
                    hi as int,
                    match cur {
                        Some(st) => Some(st as int),
                        None => None,
                    },
                ),
            ) == total;
        assert(sel == p(c));
        if sel {
            if cur.is_none() {
                cur = Some(col);
            }
            col += 1;
            assert(spans_are(out@.skip(o.len() as int), row, v@, done));
        } else {
            match cur {
                Some(st) => {
                    let ghost before = out@;
                    let ghost rest = scan_runs(v@, p, col + 1, hi as int, None);
                    push_run(v, row, m, st, col, out);
                    proof {
                        lemma_runs_units_split(v@, m, (st as int, col as int), rest);
                        let added = run_unit(v@, m, (st as int, col as int));
                        assert(out@.skip(o.len() as int) =~= before.skip(o.len() as int) + out@.skip(
                            before.len() as int,
                        ));
                        assert(out@.take(before.len() as int) == before);
                        assert(out@.take(o.len() as int) =~= before.take(o.len() as int));
                        lemma_spans_are_append(
                            before.skip(o.len() as int),
                            out@.skip(before.len() as int),
                            row,
                            v@,
                            done,
                            added,
                        );
                        assert((done + added) + runs_units(v@, m, rest) =~= done + (added
                            + runs_units(v@, m, rest)));
                    }
                    cur = None;
                    col += 1;
                },
                None => {
                    col += 1;
                    assert(spans_are(out@.skip(o.len() as int), row, v@, done));
                },
            }
        }
    }
    let ghost done = choose|done: Seq<(int, int, UnitKind)>|
        spans_are(out@.skip(o.len() as int), row, v@, done) && done + runs_units(
            v@,
            m,
            scan_runs(
                v@,
                p,
                col as int,
                hi as int,
                match cur {
                    Some(st) => Some(st as int),
                    None => None,
                },
            ),
        ) == total;
    match cur {
        Some(st) => {
            let ghost before = out@;
            push_run(v, row, m, st, hi, out);
            proof {
                lemma_runs_units_split(v@, m, (st as int, hi as int), Seq::<(int, int)>::empty());
                assert(seq![(st as int, hi as int)] + Seq::<(int, int)>::empty() =~= seq![
                    (st as int, hi as int),
                ]);
                let added = run_unit(v@, m, (st as int, hi as int));
                assert(runs_units(v@, m, Seq::<(int, int)>::empty()) =~= Seq::<
                    (int, int, UnitKind),
                >::empty());
                assert(out@.skip(o.len() as int) =~= before.skip(o.len() as int) + out@.skip(
                    before.len() as int,
                ));
                assert(out@.take(before.len() as int) == before);
                assert(out@.take(o.len() as int) =~= before.take(o.len() as int));
                lemma_spans_are_append(
                    before.skip(o.len() as int),
                    out@.skip(before.len() as int),
                    row,
                    v@,
                    done,
                    added,
                );
                assert(done + added =~= total);
            }
        },
        None => {
            assert(runs_units(v@, m, Seq::<(int, int)>::empty()) =~= Seq::<
                (int, int, UnitKind),
            >::empty());
            assert(done =~= total);
        },
    }
}


// ---------------------------------------------------------------------------
// Pipes and bars
// ---------------------------------------------------------------------------

/// Integer view of a vector of columns.
pub open spec fn int_cols(v: Seq<usize>) -> Seq<int> {
    v.map_values(|c: usize| c as int)
}

proof fn lemma_pipes_from_bound(s: Seq<char>, i: int)
    requires
        0 <= i,
    ensures
        forall|k: int| 0 <= k < pipes_from(s, i).len() ==> i <= #[trigger] pipes_from(s, i)[k] < s.len()
            && s[pipes_from(s, i)[k]] == '|',
        forall|k: int, l: int| 0 <= k < l < pipes_from(s, i).len() ==> pipes_from(s, i)[k] < pipes_from(s, i)[l],
    decreases s.len() - i,
{
    if i < s.len() {
        lemma_pipes_from_bound(s, i + 1);
        let r = pipes_from(s, i + 1);
        if s[i] == '|' {
            assert forall|k: int| 0 <= k < pipes_from(s, i).len() implies i <= #[trigger] pipes_from(s, i)[k] < s.len()
                && s[pipes_from(s, i)[k]] == '|' by {
                if k > 0 {
                    assert(pipes_from(s, i)[k] == r[k - 1]);
                }
            }
            assert forall|k: int, l: int| 0 <= k < l < pipes_from(s, i).len() implies pipes_from(s, i)[k] < pipes_from(s, i)[l] by {
                assert(pipes_from(s, i)[l] == r[l - 1]);
                if k > 0 {
                    assert(pipes_from(s, i)[k] == r[k - 1]);
                }
            }
        }
    }
}

/// The columns of the pipes of `v`, in order.
pub fn pipe_positions(v: &Vec<char>) -> (r: Vec<usize>)
    ensures
        int_cols(r@) == pipe_cols(v@),
        forall|k: int| 0 <= k < r.len() ==> #[trigger] r@[k] < v.len() && v@[r@[k] as int] == '|',
        forall|k: int, l: int| 0 <= k < l < r.len() ==> r@[k] < r@[l],
{
    let mut r: Vec<usize> = Vec::new();
    let mut i: usize = 0;
    proof {
        assert(int_cols(r@) =~= Seq::<int>::empty());
    }
    while i < v.len()
        invariant
            i <= v.len(),
            int_cols(r@) + pipes_from(v@, i as int) == pipe_cols(v@),
        decreases v.len() - i,
    {
        if v[i] == '|' {
            let ghost r0 = int_cols(r@);
            r.push(i);
            assert(int_cols(r@) =~= r0.push(i as int));
            assert(int_cols(r@) + pipes_from(v@, i + 1) =~= r0 + pipes_from(v@, i as int));
        }
        i += 1;
    }
    proof {
        assert(int_cols(r@) + Seq::<int>::empty() =~= int_cols(r@));
        lemma_pipes_from_bound(v@, 0);
        assert forall|k: int| 0 <= k < r.len() implies #[trigger] r@[k] < v.len() && v@[r@[k] as int] == '|' by {
            assert(int_cols(r@)[k] == r@[k] as int);
        }
        assert forall|k: int, l: int| 0 <= k < l < r.len() implies r@[k] < r@[l] by {
            assert(int_cols(r@)[k] == r@[k] as int);
            assert(int_cols(r@)[l] == r@[l] as int);
        }
    }
    r
}

/// The bars of a line: bar `k` runs from pipe `k` through pipe `k + 1`.
pub open spec fn spec_bars(s: Seq<char>) -> Seq<(int, int)> {
    let ps = pipe_cols(s);
    Seq::new(
        if ps.len() >= 1 {
            (ps.len() - 1) as nat
        } else {
            0
        },
        |k: int| (ps[k], ps[k + 1] + 1),
    )
}

/// The spans `r` are the bars of line `s` at row `row`.
pub open spec fn bars_are(r: Seq<BarSpan>, row: usize, s: Seq<char>) -> bool {
    &&& r.len() == spec_bars(s).len()
    &&& forall|k: int|
        0 <= k < r.len() ==> {
            &&& (#[trigger] r[k]).row == row
            &&& r[k].start_col == spec_bars(s)[k].0
            &&& r[k].end_col == spec_bars(s)[k].1
            &&& r[k].index == k
        }
}

/// The bars of `line`, each from its opening pipe through its closing pipe.
pub fn bar_spans_in_line(row: usize, line: &str) -> (r: Vec<BarSpan>)
    ensures
        bars_are(r@, row, line@),
        forall|k: int| 0 <= k < r.len() ==> #[trigger] r@[k].start_col < r@[k].end_col <= line@.len(),
        forall|j: int, k: int| 0 <= j < k < r.len() ==> r@[j].start_col < r@[k].start_col,
        forall|j: int| 0 <= j < r.len() - 1 ==> #[trigger] r@[j].end_col == r@[j + 1].start_col + 1,
{
    let v = chars_of(line);
    bar_spans_chars(row, &v)
}

fn bar_spans_chars(row: usize, v: &Vec<char>) -> (r: Vec<BarSpan>)
    ensures
        bars_are(r@, row, v@),
        forall|k: int| 0 <= k < r.len() ==> #[trigger] r@[k].start_col < r@[k].end_col <= v.len(),
        forall|j: int, k: int| 0 <= j < k < r.len() ==> r@[j].start_col < r@[k].start_col,
        forall|j: int| 0 <= j < r.len() - 1 ==> #[trigger] r@[j].end_col == r@[j + 1].start_col + 1,
{
    let ps = pipe_positions(v);
    let mut r: Vec<BarSpan> = Vec::new();
    if ps.len() < 2 {
        return r;
    }
    let mut k: usize = 0;
    while k + 1 < ps.len()
        invariant
            ps.len() >= 2,
            k + 1 <= ps.len(),
            r.len() == k,
            int_cols(ps@) == pipe_cols(v@),
            forall|j: int| 0 <= j < ps.len() ==> #[trigger] ps@[j] < v.len(),
            forall|j: int, l: int| 0 <= j < l < ps.len() ==> ps@[j] < ps@[l],
            forall|j: int|
                0 <= j < k ==> {
                    &&& (#[trigger] r@[j]).row == row
                    &&& r@[j].start_col == ps@[j]
                    &&& r@[j].end_col == ps@[j + 1] + 1
                    &&& r@[j].index == j
                    &&& r@[j].start_col < r@[j].end_col <= v.len()
                },
        decreases ps.len() - k,
    {
        assert(ps@[k as int] < ps@[k + 1]);
        r.push(BarSpan { row, start_col: ps[k], end_col: ps[k + 1] + 1, index: k });
        k += 1;
    }
    proof {
        assert forall|j: int| 0 <= j < r.len() implies {
            &&& (#[trigger] r@[j]).row == row
            &&& r@[j].start_col == spec_bars(v@)[j].0
            &&& r@[j].end_col == spec_bars(v@)[j].1
            &&& r@[j].index == j
        } by {
            assert(int_cols(ps@)[j] == ps@[j] as int);
            assert(int_cols(ps@)[j + 1] == ps@[j + 1] as int);
        }
    }
    r
}

/// The bar "at or near" `col`: the first bar that holds it, else the first that
/// starts at or after it, else the last bar.
pub fn bar_at_or_near_col(bars: Vec<BarSpan>, col: usize) -> (r: Option<BarSpan>)
    ensures
        match near_col_index(bar_intervals(bars@), col as int) {
            Some(i) => r == Some(bars@[i]),
            None => r is None,
        },
{
    let iv = bar_interval_vec(&bars);
    match near_col(&iv, col) {
        Some(i) => Some(bars[i].duplicate()),
        None => None,
    }
}

/// The column intervals of bars.
pub open spec fn bar_intervals(bars: Seq<BarSpan>) -> Seq<(int, int)> {
    bars.map_values(|b: BarSpan| (b.start_col as int, b.end_col as int))
}

fn bar_interval_vec(bars: &Vec<BarSpan>) -> (r: Vec<(usize, usize)>)
    ensures
        int_intervals(r@) == bar_intervals(bars@),
{
    let mut r: Vec<(usize, usize)> = Vec::new();
    let mut i: usize = 0;
    while i < bars.len()
        invariant
            i <= bars.len(),
            int_intervals(r@) == bar_intervals(bars@).take(i as int),
        decreases bars.len() - i,
    {
        let ghost r0 = int_intervals(r@);
        r.push((bars[i].start_col, bars[i].end_col));
        i += 1;
        assert(int_intervals(r@) =~= r0.push((bars@[i - 1].start_col as int, bars@[i - 1].end_col as int)));
        assert(int_intervals(r@) =~= bar_intervals(bars@).take(i as int));
    }
    assert(bar_intervals(bars@).take(bars.len() as int) =~= bar_intervals(bars@));
    r
}

/// The column intervals of units.
pub open spec fn unit_intervals(us: Seq<UnitSpan>) -> Seq<(int, int)> {
    us.map_values(|u: UnitSpan| (u.start_col as int, u.end_col as int))
}

/// The column intervals of a list of units.
pub fn unit_interval_vec(us: &[UnitSpan]) -> (r: Vec<(usize, usize)>)
    ensures
        int_intervals(r@) == unit_intervals(us@),
{
    let mut r: Vec<(usize, usize)> = Vec::new();
    let mut i: usize = 0;
    while i < us.len()
        invariant
            i <= us.len(),
            int_intervals(r@) == unit_intervals(us@).take(i as int),
        decreases us.len() - i,
    {
        let ghost r0 = int_intervals(r@);
        r.push((us[i].start_col, us[i].end_col));
        i += 1;
        assert(int_intervals(r@) =~= r0.push((us@[i - 1].start_col as int, us@[i - 1].end_col as int)));
        assert(int_intervals(r@) =~= unit_intervals(us@).take(i as int));
    }
    assert(unit_intervals(us@).take(us.len() as int) =~= unit_intervals(us@));
    r
}

/// The unit "at or near" `col`: the first unit that holds it, else the first that
/// starts at or after it, else the last unit.
pub fn unit_at_or_near_col(notes: Vec<UnitSpan>, col: usize) -> (r: Option<UnitSpan>)
    ensures
        match near_col_index(unit_intervals(notes@), col as int) {
            Some(i) => r == Some(notes@[i]),
            None => r is None,
        },
{
    let iv = unit_interval_vec(&notes);
    match near_col(&iv, col) {
        Some(i) => Some(notes[i].duplicate()),
        None => None,
    }
}

/// `(left, right)` ordered by `(row, start_col)`.
pub fn ordered_bar_span_bounds<'a>(left: &'a BarSpan, right: &'a BarSpan) -> (r: (&'a BarSpan, &'a BarSpan))
    ensures
        if (left.row < right.row || (left.row == right.row && left.start_col <= right.start_col)) {
            r == (left, right)
        } else {
            r == (right, left)
        },
{
    if left.row < right.row || (left.row == right.row && left.start_col <= right.start_col) {
        (left, right)
    } else {
        (right, left)
    }
}

/// `(left, right)` ordered by `(row, start_col)`.
pub fn ordered_unit_span_bounds<'a>(left: &'a UnitSpan, right: &'a UnitSpan) -> (r: (&'a UnitSpan, &'a UnitSpan))
    ensures
        if (left.row < right.row || (left.row == right.row && left.start_col <= right.start_col)) {
            r == (left, right)
        } else {
            r == (right, left)
        },
{
    if left.row < right.row || (left.row == right.row && left.start_col <= right.start_col) {
        (left, right)
    } else {
        (right, left)
    }
}


// ---------------------------------------------------------------------------
// Units of a line
// ---------------------------------------------------------------------------

/// Appends the lane body units of `v[lo..hi]`.
fn lane_cells_units(v: &Vec<char>, row: usize, lo: usize, hi: usize, out: &mut Vec<UnitSpan>)
    requires
        lo <= hi <= v.len(),
        spans_within(old(out)@, v@.len()),
    ensures
        spans_within(final(out)@, v@.len()),
        final(out)@.len() >= old(out)@.len(),
        final(out)@.take(old(out)@.len() as int) == old(out)@,
        spans_are(final(out)@.skip(old(out)@.len() as int), row, v@, lane_cells(v@, lo as int, hi as int)),
{
    let ghost o = out@;
    let ghost total = lane_cells(v@, lo as int, hi as int);
    let mut col = lo;
    proof {
        let e = Seq::<(int, int, UnitKind)>::empty();
        assert(out@.skip(o.len() as int) =~= Seq::<UnitSpan>::empty());
        assert(spans_are(out@.skip(o.len() as int), row, v@, e));
        assert(e + lane_cells(v@, col as int, hi as int) =~= total);
        assert(out@.take(o.len() as int) =~= o);
    }
    while col < hi
        invariant
            lo <= col <= hi <= v.len(),
            spans_within(out@, v@.len()),
            out@.len() >= o.len(),
            out@.take(o.len() as int) == o,
            total == lane_cells(v@, lo as int, hi as int),
            exists|done: Seq<(int, int, UnitKind)>|
                spans_are(out@.skip(o.len() as int), row, v@, done) && done + lane_cells(
                    v@,
                    col as int,
                    hi as int,
                ) == total,
        decreases hi - col,
    {
        let ghost done = choose|done: Seq<(int, int, UnitKind)>|
            spans_are(out@.skip(o.len() as int), row, v@, done) && done + lane_cells(
                v@,
                col as int,
                hi as int,
            ) == total;
        let c = v[col];
        let kind = if c == '^' {
            Some(UnitKind::LaneNoteOn)
        } else if c == '.' {
            Some(UnitKind::LaneRest)
        } else if c == '-' {
            Some(UnitKind::LaneSustain)
        } else {
            None
        };
        let ghost before = out@;
        let ghost rest = lane_cells(v@, col + 1, hi as int);
        match kind {
            Some(k) => {
                let mut t: Vec<char> = Vec::new();
                t.push(c);
                out.push(UnitSpan { row, start_col: col, end_col: col + 1, token: string_of(&t), kind: k });
                proof {
                    assert forall|j: int| 0 <= j < out@.len() implies #[trigger] out@[j].start_col <= out@[j].end_col && out@[j].end_col <= v@.len() by {
                        if j < before.len() {
                            assert(out@[j] == before[j]);
                        }
                    }
                    let added = seq![(col as int, col + 1, k)];
                    assert(t@ =~= v@.subrange(col as int, col + 1));
                    assert(out@.skip(before.len() as int) =~= seq![out@[before.len() as int]]);
                    assert(spans_are(out@.skip(before.len() as int), row, v@, added));
                    assert(out@.skip(o.len() as int) =~= before.skip(o.len() as int) + out@.skip(
                        before.len() as int,
                    ));
                    assert(out@.take(o.len() as int) =~= before.take(o.len() as int));
                    lemma_spans_are_append(
                        before.skip(o.len() as int),
                        out@.skip(before.len() as int),
                        row,
                        v@,
                        done,
                        added,
                    );
                    assert(lane_cells(v@, col as int, hi as int) == added + rest);
                    assert((done + added) + rest =~= done + (added + rest));
                }
            },
            None => {
                assert(lane_cells(v@, col as int, hi as int) == rest);
            },
        }
        col += 1;
    }
    proof {
        let done = choose|done: Seq<(int, int, UnitKind)>|
            spans_are(out@.skip(o.len() as int), row, v@, done) && done + lane_cells(
                v@,
                col as int,
                hi as int,
            ) == total;
        assert(done + Seq::<(int, int, UnitKind)>::empty() =~= done);
    }
}

fn lane_body_units_exec(v: &Vec<char>, row: usize, out: &mut Vec<UnitSpan>)
    requires
        spans_within(old(out)@, v@.len()),
    ensures
        spans_within(final(out)@, v@.len()),
        final(out)@.len() >= old(out)@.len(),
        final(out)@.take(old(out)@.len() as int) == old(out)@,
        spans_are(final(out)@.skip(old(out)@.len() as int), row, v@, lane_body_units(v@)),
{
    let ghost o = out@;
    let head = lane_head_chars(v);
    let ps = pipe_positions(v);
    if head.is_none() || ps.len() < 2 {
        assert(out@.skip(o.len() as int) =~= Seq::<UnitSpan>::empty());
        assert(out@.take(o.len() as int) =~= o);
        return;
    }
    assert(int_cols(ps@)[0] == ps@[0] as int);
    assert(int_cols(ps@)[ps.len() - 1] == ps@[ps.len() - 1] as int);
    assert(ps@[0] < ps@[ps.len() - 1]);
    lane_cells_units(v, row, ps[0] + 1, ps[ps.len() - 1], out);
}

/// The lane body units (`^`, `.`, `-` between the first and last pipes) of a lane
/// line; none for a line without a lane head.
pub fn lane_body_token_spans_in_line(row: usize, line: &str) -> (r: Vec<UnitSpan>)
    ensures
        spans_are(r@, row, line@, lane_body_units(line@)),
        spans_within(r@, line@.len()),
{
    let v = chars_of(line);
    let mut out: Vec<UnitSpan> = Vec::new();
    lane_body_units_exec(&v, row, &mut out);
    assert(out@.skip(0) =~= out@);
    out
}

/// The selectable units of `line`, in column order.
pub fn unit_spans_in_line(row: usize, line: &str) -> (r: Vec<UnitSpan>)
    ensures
        spans_are(r@, row, line@, line_units(line@)),
        spans_within(r@, line@.len()),
{
    let v = chars_of(line);
    let mut out: Vec<UnitSpan> = Vec::new();
    let p = match position_of(&v, '|') {
        Some(p) => p,
        None => {
            return out;
        },
    };
    match line_kind_of(&v, p) {
        EditableLineKind::SeqLine => {
            scan_units(&v, row, p + 1, v.len(), ScanMode::SeqBody, &mut out);
            assert(out@.skip(0) =~= out@);
        },
        EditableLineKind::Lane => {
            scan_units(&v, row, 0, p, ScanMode::LaneHead, &mut out);
            let ghost first = out@;
            lane_body_units_exec(&v, row, &mut out);
            proof {
                assert(first.skip(0) =~= first);
                assert(out@ =~= first + out@.skip(first.len() as int));
                lemma_spans_are_append(
                    first,
                    out@.skip(first.len() as int),
                    row,
                    v@,
                    runs_units(v@, ScanMode::LaneHead, scan_runs(v@, mode_char(ScanMode::LaneHead), 0, p as int, None)),
                    lane_body_units(v@),
                );
            }
        },
        EditableLineKind::Modifier(_) => {
            scan_units(&v, row, p + 1, v.len(), ScanMode::Modifier, &mut out);
            assert(out@.skip(0) =~= out@);
        },
        EditableLineKind::Other => {},
    }
    out
}

/// Whether `token` lies in the body of a lane line: a lane unit, or any unit after
/// the first pipe of a line that is not a `seq` line.
pub fn is_lane_body_token(line: &str, token: &UnitSpan) -> (b: bool)
    ensures
        b == (token.kind.spec_is_lane_body() || (!spec_is_seq_line(line@) && match first_index_of(
            line@,
            '|',
        ) {
            Some(p) => token.start_col > p,
            None => false,
        })),
{
    if token.kind.is_lane_body() {
        return true;
    }
    let v = chars_of(line);
    if is_seq_line_chars(&v) {
        return false;
    }
    match position_of(&v, '|') {
        Some(p) => token.start_col > p,
        None => false,
    }
}

// ---------------------------------------------------------------------------
// Moving between units
// ---------------------------------------------------------------------------

/// Unit `i` holds position `(row, col)`.
pub open spec fn unit_holds(notes: Seq<UnitSpan>, row: usize, col: usize) -> spec_fn(int) -> bool {
    |i: int| notes[i].row == row && notes[i].start_col <= col < notes[i].end_col
}

/// Unit `i` lies after position `(row, col)`.
pub open spec fn unit_after(notes: Seq<UnitSpan>, row: usize, col: usize) -> spec_fn(int) -> bool {
    |i: int| notes[i].row > row || (notes[i].row == row && notes[i].start_col > col)
}

/// Unit `i` lies before position `(row, col)`.
pub open spec fn unit_before(notes: Seq<UnitSpan>, row: usize, col: usize) -> spec_fn(int) -> bool {
    |i: int| notes[i].row < row || (notes[i].row == row && notes[i].start_col < col)
}

/// The index of the unit after position `(row, col)`: the one that follows the unit
/// holding it, or else the first unit that lies after it.
pub open spec fn next_unit_index(notes: Seq<UnitSpan>, row: usize, col: usize) -> Option<int> {
    match first_where(notes.len() as int, unit_holds(notes, row, col)) {
        Some(i) => if i + 1 < notes.len() {
            Some(i + 1)
        } else {
            None
        },
        None => first_where(notes.len() as int, unit_after(notes, row, col)),
    }
}

/// The index of the unit before position `(row, col)`: the one that precedes the unit
/// holding it, or else the last unit that lies before it.
pub open spec fn previous_unit_index(notes: Seq<UnitSpan>, row: usize, col: usize) -> Option<int> {
    match first_where(notes.len() as int, unit_holds(notes, row, col)) {
        Some(i) => if i > 0 {
            Some(i - 1)
        } else {
            None
        },
        None => last_where(notes.len() as int, unit_before(notes, row, col)),
    }
}

fn holding_unit(notes: &[UnitSpan], row: usize, col: usize) -> (r: Option<usize>)
    ensures
        r matches Some(i) ==> first_where(notes@.len() as int, unit_holds(notes@, row, col)) == Some(i as int) && i < notes@.len(),
        r is None ==> first_where(notes@.len() as int, unit_holds(notes@, row, col)) is None,
{
    let ghost p = unit_holds(notes@, row, col);
    let mut i: usize = 0;
    while i < notes.len()
        invariant
            i <= notes@.len(),
            p == unit_holds(notes@, row, col),
            forall|j: int| 0 <= j < i ==> !#[trigger] p(j),
        decreases notes@.len() - i,
    {
        if notes[i].row == row && notes[i].start_col <= col && col < notes[i].end_col {
            proof {
                lemma_first_where(notes@.len() as int, p, i as int);
            }
            return Some(i);
        }
        i += 1;
    }
    proof {
        lemma_first_where(notes@.len() as int, p, notes@.len() as int);
    }
    None
}

/// The unit after position `(row, col)`, moving across rows.
pub fn next_unit_after_position(notes: &[UnitSpan], row: usize, col: usize) -> (r: Option<UnitSpan>)
    ensures
        match next_unit_index(notes@, row, col) {
            Some(i) => r == Some(notes@[i]),
            None => r is None,
        },
{
    if let Some(i) = holding_unit(notes, row, col) {
        if i < notes.len() - 1 {
            return Some(notes[i + 1].duplicate());
        }
        return None;
    }
    let ghost p = unit_after(notes@, row, col);
    let mut k: usize = 0;
    while k < notes.len()
        invariant
            k <= notes@.len(),
            p == unit_after(notes@, row, col),
            first_where(notes@.len() as int, unit_holds(notes@, row, col)) is None,
            forall|j: int| 0 <= j < k ==> !#[trigger] p(j),
        decreases notes@.len() - k,
    {
        if notes[k].row > row || (notes[k].row == row && notes[k].start_col > col) {
            proof {
                lemma_first_where(notes@.len() as int, p, k as int);
            }
            return Some(notes[k].duplicate());
        }
        k += 1;
    }
    proof {
        lemma_first_where(notes@.len() as int, p, notes@.len() as int);
    }
    None
}

/// The unit before position `(row, col)`, moving across rows.
pub fn previous_unit_before_position(notes: &[UnitSpan], row: usize, col: usize) -> (r: Option<UnitSpan>)
    ensures
        match previous_unit_index(notes@, row, col) {
            Some(i) => r == Some(notes@[i]),
            None => r is None,
        },
{
    if let Some(i) = holding_unit(notes, row, col) {
        if i > 0 {
            return Some(notes[i - 1].duplicate());
        }
        return None;
    }
    let ghost p = unit_before(notes@, row, col);
    let mut k: usize = notes.len();
    while k > 0
        invariant
            k <= notes@.len(),
            p == unit_before(notes@, row, col),
            first_where(notes@.len() as int, unit_holds(notes@, row, col)) is None,
            forall|j: int| k <= j < notes@.len() ==> !#[trigger] p(j),
        decreases k,
    {
        let i = k - 1;
        if notes[i].row < row || (notes[i].row == row && notes[i].start_col < col) {
            proof {
                lemma_last_where(notes@.len() as int, p, i as int);
            }
            return Some(notes[i].duplicate());
        }
        k -= 1;
    }
    proof {
        lemma_last_where(notes@.len() as int, p, -1);
    }
    None
}


// ---------------------------------------------------------------------------
// Character-range edits
// ---------------------------------------------------------------------------

/// Column `col` clamped to the length of `s` (how a column past the end is read).
pub open spec fn clamp_col(s: Seq<char>, col: int) -> int {
    if col < s.len() {
        col
    } else {
        s.len() as int
    }
}

/// `s` with columns `start..end` (clamped to its length) replaced by `rep`.
pub open spec fn replaced(s: Seq<char>, start: int, end: int, rep: Seq<char>) -> Seq<char> {
    s.take(clamp_col(s, start)) + rep + s.skip(clamp_col(s, end))
}

/// A replaced range reads back as the replacement, the rest of the line keeps its
/// text, and putting back the text a range held restores the line.
pub proof fn replaced_range_reads_back(s: Seq<char>, start: int, end: int, rep: Seq<char>)
    requires
        0 <= start,
        clamp_col(s, start) <= clamp_col(s, end),
    ensures
        ({
            let a = clamp_col(s, start);
            let b = clamp_col(s, end);
            let t = replaced(s, start, end, rep);
            &&& t.subrange(a, a + rep.len()) == rep
            &&& t.take(a) == s.take(a)
            &&& t.skip(a + rep.len()) == s.skip(b)
            &&& t.len() == s.len() - (b - a) + rep.len()
            &&& replaced(s, start, end, s.subrange(a, b)) == s
        }),
{
    let a = clamp_col(s, start);
    let b = clamp_col(s, end);
    let t = replaced(s, start, end, rep);
    assert(t.subrange(a, a + rep.len()) =~= rep);
    assert(t.take(a) =~= s.take(a));
    assert(t.skip(a + rep.len()) =~= s.skip(b));
    assert(replaced(s, start, end, s.subrange(a, b)) =~= s);
}

/// Replaces columns `start_col..end_col` of `line` with `replacement`.
pub fn replace_char_range(line: &mut String, start_col: usize, end_col: usize, replacement: &str)
    requires
        clamp_col(old(line)@, start_col as int) <= clamp_col(old(line)@, end_col as int),
    ensures
        final(line)@ == replaced(old(line)@, start_col as int, end_col as int, replacement@),
{
    let v = chars_of(line.as_str());
    let r = chars_of(replacement);
    let out = replace_chars(&v, start_col, end_col, &r);
    *line = string_of(&out);
}

/// `replaced` on character vectors.
pub fn replace_chars(v: &Vec<char>, start_col: usize, end_col: usize, r: &Vec<char>) -> (out: Vec<char>)
    requires
        clamp_col(v@, start_col as int) <= clamp_col(v@, end_col as int),
    ensures
        out@ == replaced(v@, start_col as int, end_col as int, r@),
{
    let a = if start_col < v.len() { start_col } else { v.len() };
    let b = if end_col < v.len() { end_col } else { v.len() };
    let mut out = slice_vec(v, 0, a);
    append(&mut out, r);
    let tail = slice_vec(v, b, v.len());
    append(&mut out, &tail);
    assert(out@ =~= replaced(v@, start_col as int, end_col as int, r@));
    out
}

/// The text of columns `start_col..end_col` of `line` (clamped to its length).
pub fn char_range(line: &str, start_col: usize, end_col: usize) -> (r: String)
    requires
        clamp_col(line@, start_col as int) <= clamp_col(line@, end_col as int),
    ensures
        r@ == line@.subrange(clamp_col(line@, start_col as int), clamp_col(line@, end_col as int)),
{
    let v = chars_of(line);
    let a = if start_col < v.len() { start_col } else { v.len() };
    let b = if end_col < v.len() { end_col } else { v.len() };
    string_of(&slice_vec(&v, a, b))
}

/// Inserts `text` at column `col` of `line` (at its end when `col` is past it).
pub fn insert_at_col(line: &mut String, col: usize, text: &str)
    ensures
        final(line)@ == replaced(old(line)@, col as int, col as int, text@),
{
    let v = chars_of(line.as_str());
    let t = chars_of(text);
    let out = replace_chars(&v, col, col, &t);
    *line = string_of(&out);
}

/// The columns `(a, b)` that deleting the unit at `start..end` removes: the unit
/// with a following comma and the blanks after it; else with a preceding comma and
/// the blanks before it; else with the blanks after it; else with the blanks before it.
pub open spec fn delete_bounds(s: Seq<char>, start: int, end: int) -> (int, int) {
    if end < s.len() && s[end] == ',' {
        (start, end + 1 + lead_ws(s.skip(end + 1)))
    } else if start > 0 && s[start - 1] == ',' {
        (start - 1 - trail_ws(s.take(start - 1)), end)
    } else if end < s.len() && is_ws(s[end]) {
        (start, end + lead_ws(s.skip(end)))
    } else {
        (start - trail_ws(s.take(start)), end)
    }
}

fn skip_ws_counted(v: &Vec<char>, from: usize) -> (r: usize)
    requires
        from <= v.len(),
    ensures
        r == from + lead_ws(v@.skip(from as int)),
        r <= v.len(),
{
    let r = skip_ws(v, from);
    proof {
        let t = v@.skip(from as int);
        assert forall|j: int| 0 <= j < r - from implies is_ws(#[trigger] t[j]) by {
            assert(t[j] == v@[j + from]);
        }
        if r - from < t.len() {
            assert(t[r - from] == v@[r as int]);
        }
        lemma_lead_ws_unique(t, r - from);
    }
    r
}

fn skip_ws_back_counted(v: &Vec<char>, to: usize) -> (r: usize)
    requires
        to <= v.len(),
    ensures
        r == to - trail_ws(v@.take(to as int)),
{
    let r = skip_ws_back(v, to);
    proof {
        let t = v@.take(to as int);
        assert forall|j: int| t.len() - (to - r) <= j < t.len() implies is_ws(#[trigger] t[j]) by {
            assert(t[j] == v@[j]);
        }
        if to - r < t.len() {
            assert(t[t.len() - (to - r) - 1] == v@[r - 1]);
        }
        lemma_trail_ws_unique(t, to - r);
    }
    r
}

/// Deletes the unit `note` from `line` together with its separator.
pub fn delete_unit(line: &mut String, note: &UnitSpan)
    requires
        note.start_col <= note.end_col <= old(line)@.len(),
    ensures
        ({
            let b = delete_bounds(old(line)@, note.start_col as int, note.end_col as int);
            final(line)@ == old(line)@.take(b.0) + old(line)@.skip(b.1)
        }),
{
    let v = chars_of(line.as_str());
    let start = note.start_col;
    let end = note.end_col;
    let (a, b) = if end < v.len() && v[end] == ',' {
        (start, skip_ws_counted(&v, end + 1))
    } else if start > 0 && v[start - 1] == ',' {
        (skip_ws_back_counted(&v, start - 1), end)
    } else if end < v.len() && is_whitespace(v[end]) {
        (start, skip_ws_counted(&v, end))
    } else {
        (skip_ws_back_counted(&v, start), end)
    };
    let mut out = slice_vec(&v, 0, a);
    let tail = slice_vec(&v, b, v.len());
    append(&mut out, &tail);
    *line = string_of(&out);
}

// ---------------------------------------------------------------------------
// Bracket groups
// ---------------------------------------------------------------------------

/// The open-bracket columns on the stack after reading `s[..n]`: `[` pushes its
/// column, `]` pops one (an unmatched `]` is ignored).
pub open spec fn stack_after(s: Seq<char>, n: int) -> Seq<int>
    decreases n,
{
    if n <= 0 {
        seq![]
    } else {
        let st = stack_after(s, n - 1);
        if s[n - 1] == '[' {
            st.push(n - 1)
        } else if s[n - 1] == ']' && st.len() > 0 {
            st.drop_last()
        } else {
            st
        }
    }
}

/// Whether `[` at `i` and `]` at `j` are a matched bracket pair.
pub open spec fn bracket_pair(s: Seq<char>, i: int, j: int) -> bool {
    0 <= j < s.len() && s[j] == ']' && stack_after(s, j).len() > 0 && stack_after(s, j).last() == i
}

/// The forward depth scan from `k` (at depth `d`) for the `]` that brings the
/// depth back to zero.
pub open spec fn depth_close(s: Seq<char>, k: int, d: nat) -> Option<int>
    decreases s.len() - k,
{
    if k >= s.len() || k < 0 {
        None
    } else if s[k] == '[' {
        depth_close(s, k + 1, d + 1)
    } else if s[k] == ']' {
        if d == 0 {
            None
        } else if d == 1 {
            Some(k)
        } else {
            depth_close(s, k + 1, (d - 1) as nat)
        }
    } else {
        depth_close(s, k + 1, d)
    }
}

/// One past the end of the run of group-token characters at `col` (before `end`).
pub open spec fn tok_end(s: Seq<char>, col: int, end: int) -> int
    decreases end - col,
{
    if col >= end || col < 0 || col >= s.len() || !spec_group_token_char(s[col]) {
        col
    } else {
        tok_end(s, col + 1, end)
    }
}

/// The first-level elements of a group body `s[col..end]`, as column intervals:
/// nested groups and runs of group-token characters.
pub open spec fn group_elements(s: Seq<char>, col: int, end: int) -> Seq<(int, int)>
    decreases end - col,
{
    if col >= end || col < 0 || col >= s.len() {
        seq![]
    } else if is_ws(s[col]) {
        group_elements(s, col + 1, end)
    } else if s[col] == '[' {
        match depth_close(s, col, 0) {
            Some(ne) => if ne >= col && ne + 1 <= end {
                seq![(col, ne + 1)] + group_elements(s, ne + 1, end)
            } else if ne >= col {
                seq![(col, ne + 1)]
            } else {
                seq![]
            },
            None => seq![],
        }
    } else if spec_group_token_char(s[col]) {
        let e = tok_end(s, col, end);
        if e > col && e <= end {
            seq![(col, e)] + group_elements(s, e, end)
        } else {
            seq![]
        }
    } else {
        group_elements(s, col + 1, end)
    }
}

/// The element of `es` that holds column `col`.
pub open spec fn element_at(es: Seq<(int, int)>, col: int) -> Option<int> {
    first_where(es.len() as int, |k: int| es[k].0 <= col < es[k].1)
}

pub proof fn lemma_stack_after_bound(s: Seq<char>, n: int)
    requires
        0 <= n <= s.len(),
    ensures
        forall|k: int| 0 <= k < stack_after(s, n).len() ==> 0 <= #[trigger] stack_after(s, n)[k] < n,
    decreases n,
{
    if n > 0 {
        lemma_stack_after_bound(s, n - 1);
        let st = stack_after(s, n - 1);
        assert forall|k: int| 0 <= k < stack_after(s, n).len() implies 0 <= #[trigger] stack_after(s, n)[k] < n by {
            if s[n - 1] == '[' {
                if k < st.len() {
                    assert(stack_after(s, n)[k] == st[k]);
                }
            } else if s[n - 1] == ']' && st.len() > 0 {
                assert(stack_after(s, n)[k] == st[k]);
            }
        }
    }
}

pub proof fn lemma_stack_increasing(s: Seq<char>, n: int)
    requires
        0 <= n <= s.len(),
    ensures
        forall|a: int, b: int| 0 <= a < b < stack_after(s, n).len() ==> stack_after(s, n)[a] < stack_after(s, n)[b],
    decreases n,
{
    if n > 0 {
        lemma_stack_increasing(s, n - 1);
        lemma_stack_after_bound(s, n - 1);
        let st = stack_after(s, n - 1);
        let nw = stack_after(s, n);
        assert forall|a: int, b: int| 0 <= a < b < nw.len() implies nw[a] < nw[b] by {
            if s[n - 1] == '[' {
                if b < st.len() {
                    assert(nw[a] == st[a] && nw[b] == st[b]);
                } else {
                    assert(nw[a] == st[a]);
                    assert(nw[b] == n - 1);
                }
            } else if s[n - 1] == ']' && st.len() > 0 {
                assert(nw[a] == st[a] && nw[b] == st[b]);
            }
        }
    }
}

/// Once the `]` at `j` pops the `[` at `i`, no later stack holds `i`.
pub proof fn lemma_popped_gone(s: Seq<char>, i: int, j: int, n: int)
    requires
        bracket_pair(s, i, j),
        j < n <= s.len(),
    ensures
        forall|k: int| 0 <= k < stack_after(s, n).len() ==> #[trigger] stack_after(s, n)[k] != i,
    decreases n,
{
    let st = stack_after(s, n - 1);
    let nw = stack_after(s, n);
    if n == j + 1 {
        lemma_stack_increasing(s, n - 1);
        assert(s[n - 1] == ']' && st.len() > 0);
        assert(nw == st.drop_last());
        assert(st == stack_after(s, j));
        assert(st.last() == i);
        assert forall|k: int| 0 <= k < nw.len() implies #[trigger] nw[k] != i by {
            assert(nw[k] == st[k]);
            assert(0 <= k < st.len() - 1);
            let l = st.len() - 1;
            assert(0 <= k < l < stack_after(s, n - 1).len());
            assert(stack_after(s, n - 1)[k] < stack_after(s, n - 1)[l]);
            assert(st[k] < st[l]);
        }
    } else {
        lemma_popped_gone(s, i, j, n - 1);
        lemma_stack_after_bound(s, n - 1);
        lemma_stack_after_bound(s, j);
        assert(i < j);
        assert forall|k: int| 0 <= k < nw.len() implies #[trigger] nw[k] != i by {
            if s[n - 1] == '[' {
                if k < st.len() {
                    assert(nw[k] == st[k]);
                } else {
                    assert(nw[k] == n - 1);
                }
            } else if s[n - 1] == ']' && st.len() > 0 {
                assert(nw[k] == st[k]);
            } else {
                assert(nw[k] == st[k]);
            }
        }
    }
}

/// A `[` is matched by at most one `]`.
pub proof fn lemma_pair_unique(s: Seq<char>, i: int, j1: int, j2: int)
    requires
        bracket_pair(s, i, j1),
        bracket_pair(s, i, j2),
    ensures
        j1 == j2,
{
    if j1 < j2 {
        lemma_popped_gone(s, i, j1, j2);
        let st = stack_after(s, j2);
        assert(st[st.len() - 1] != i);
    } else if j2 < j1 {
        lemma_popped_gone(s, i, j2, j1);
        let st = stack_after(s, j1);
        assert(st[st.len() - 1] != i);
    }
}

pub proof fn lemma_depth_close_ge(s: Seq<char>, k: int, d: nat)
    ensures
        depth_close(s, k, d) matches Some(x) ==> k <= x < s.len() && s[x] == ']',
    decreases s.len() - k,
{
    if 0 <= k < s.len() {
        if s[k] == '[' {
            lemma_depth_close_ge(s, k + 1, d + 1);
        } else if s[k] == ']' {
            if d > 1 {
                lemma_depth_close_ge(s, k + 1, (d - 1) as nat);
            }
        } else {
            lemma_depth_close_ge(s, k + 1, d);
        }
    }
}

/// `depth_close` as a loop: the `]` that matches the `[` at `start`.
fn matching_group_end(v: &Vec<char>, start: usize) -> (r: Option<usize>)
    requires
        start < v.len(),
    ensures
        match depth_close(v@, start as int, 0) {
            Some(x) => r == Some(x as usize),
            None => r is None,
        },
{
    let mut depth: usize = 0;
    let mut k = start;
    while k < v.len()
        invariant
            start <= k <= v.len(),
            depth <= k - start,
            depth_close(v@, start as int, 0) == depth_close(v@, k as int, depth as nat),
        decreases v.len() - k,
    {
        let c = v[k];
        if c == '[' {
            depth += 1;
        } else if c == ']' {
            if depth == 0 {
                return None;
            }
            if depth == 1 {
                return Some(k);
            }
            depth -= 1;
        }
        k += 1;
    }
    None
}

fn token_end(v: &Vec<char>, col: usize, end: usize) -> (r: usize)
    requires
        col <= end <= v.len(),
    ensures
        r as int == tok_end(v@, col as int, end as int),
        col <= r <= end,
        col < end && spec_group_token_char(v@[col as int]) ==> r > col,
{
    let mut k = col;
    while k < end && is_group_token_char(v[k])
        invariant
            col <= k <= end <= v.len(),
            tok_end(v@, col as int, end as int) == tok_end(v@, k as int, end as int),
        decreases end - k,
    {
        k += 1;
    }
    k
}

/// The first-level elements of the group body `v[start + 1..end]`.
fn first_level_group_elements(v: &Vec<char>, start: usize, end: usize) -> (r: Vec<(usize, usize)>)
    requires
        start < end <= v.len(),
    ensures
        int_intervals(r@) == group_elements(v@, start + 1, end as int),
        forall|k: int| 0 <= k < r.len() ==> (#[trigger] r@[k]).0 <= r@[k].1 <= v.len(),
{
    let mut r: Vec<(usize, usize)> = Vec::new();
    let mut col = start + 1;
    proof {
        assert(int_intervals(r@) + group_elements(v@, col as int, end as int) =~= group_elements(
            v@,
            start + 1,
            end as int,
        ));
    }
    while col < end
        invariant
            start < col <= end + 1,
            end <= v.len(),
            int_intervals(r@) + group_elements(v@, col as int, end as int) == group_elements(
                v@,
                start + 1,
                end as int,
            ),
            forall|k: int| 0 <= k < r.len() ==> (#[trigger] r@[k]).0 <= r@[k].1 <= v.len(),
        decreases end + 1 - col,
    {
        let ghost r0 = int_intervals(r@);
        let c = v[col];
        if is_whitespace(c) {
            col += 1;
        } else if c == '[' {
            match matching_group_end(v, col) {
                Some(ne) => {
                    proof {
                        lemma_depth_close_ge(v@, col as int, 0);
                    }
                    r.push((col, ne + 1));
                    proof {
                        assert(int_intervals(r@) =~= r0.push((col as int, ne + 1)));
                        if ne + 1 <= end {
                            assert(int_intervals(r@) + group_elements(v@, ne + 1, end as int) =~= r0
                                + group_elements(v@, col as int, end as int));
                        } else {
                            assert(int_intervals(r@) =~= r0 + group_elements(v@, col as int, end as int));
                        }
                    }
                    if ne + 1 > end {
                        proof {
                            assert(int_intervals(r@) + Seq::<(int, int)>::empty() =~= int_intervals(r@));
                            assert(group_elements(v@, end as int, end as int) =~= Seq::<(int, int)>::empty());
                        }
                        col = end;
                    } else {
                        col = ne + 1;
                    }
                },
                None => {
                    proof {
                        assert(group_elements(v@, col as int, end as int) =~= Seq::<(int, int)>::empty());
                    }
                    col = end;
                },
            }
        } else if is_group_token_char(c) {
            let e = token_end(v, col, end);
            r.push((col, e));
            proof {
                assert(int_intervals(r@) =~= r0.push((col as int, e as int)));
                assert(int_intervals(r@) + group_elements(v@, e as int, end as int) =~= r0
                    + group_elements(v@, col as int, end as int));
            }
            col = e;
        } else {
            col += 1;
        }
    }
    proof {
        assert(group_elements(v@, col as int, end as int) =~= Seq::<(int, int)>::empty());
        assert(int_intervals(r@) + Seq::<(int, int)>::empty() =~= int_intervals(r@));
    }
    r
}

/// The innermost matched bracket pair `(i, j)` around column `col`: a pair with
/// `i < col < j` and no pair around `col` opens later.
pub open spec fn innermost_pair(s: Seq<char>, i: int, col: int, j: int) -> bool {
    &&& bracket_pair(s, i, j)
    &&& i < col < j
    &&& forall|a: int, b: int| bracket_pair(s, a, b) && a < col < b ==> a <= i
}

/// The bracket group around `col` (the innermost one) and the text of its
/// first-level element under `col`; `None` when no group holds `col` or no element
/// of it does.
pub fn group_span_containing_col(line: &str, col: usize) -> (r: Option<GroupSpan>)
    ensures
        (forall|a: int, b: int| !(bracket_pair(line@, a, b) && a < col < b)) ==> r is None,
        r matches Some(g) ==> g.start_col < g.end_col && innermost_pair(line@, g.start_col as int, col as int, g.end_col - 1)
            && ({
                let es = group_elements(line@, g.start_col + 1, g.end_col - 1);
                element_at(es, col as int) matches Some(k) && g.selected_element@ == line@.subrange(es[k].0, es[k].1)
            }),
        (exists|a: int, b: int| bracket_pair(line@, a, b) && a < col < b) ==> (r is None <==> exists|i: int, j: int|
            innermost_pair(line@, i, col as int, j) && element_at(group_elements(line@, i + 1, j), col as int) is None),
{
    let v = chars_of(line);
    let ghost s = v@;
    let mut stack: Vec<usize> = Vec::new();
    let mut best: Option<(usize, usize)> = None;
    let mut index: usize = 0;
    while index < v.len()
        invariant
            s == v@,
            index <= v.len(),
            int_cols(stack@) == stack_after(s, index as int),
            best matches Some(p) ==> p.0 < col < p.1 && p.1 < index && bracket_pair(s, p.0 as int, p.1 as int),
            forall|a: int, b: int| b < index && bracket_pair(s, a, b) && a < col < b ==> (best matches Some(p) && a <= p.0),
        decreases v.len() - index,
    {
        let c = v[index];
        let ghost st0 = stack_after(s, index as int);
        assert(stack_after(s, index + 1) == (if c == '[' {
            st0.push(index as int)
        } else if c == ']' && st0.len() > 0 {
            st0.drop_last()
        } else {
            st0
        }));
        if c == '[' {
            stack.push(index);
            assert(int_cols(stack@) =~= st0.push(index as int));
        } else if c == ']' {
            if stack.len() > 0 {
                let start = stack.pop().unwrap();
                proof {
                    assert(int_cols(stack@) =~= st0.drop_last());
                    assert(st0.last() == start as int);
                }
                let better = match best {
                    None => true,
                    Some(p) => start >= p.0,
                };
                if start < col && col < index && better {
                    best = Some((start, index));
                }
            }
        }
        index += 1;
    }
    proof {
        assert(index == v.len());
        assert forall|a: int, b: int| bracket_pair(s, a, b) && a < col < b implies (best matches Some(p) && a <= p.0) by {
            assert(b < s.len());
            assert(b < index);
        }
    }
    let (start, end) = match best {
        Some(p) => p,
        None => {
            return None;
        },
    };
    proof {
        assert(bracket_pair(s, start as int, end as int));
        assert(start < col < end);
        assert(forall|a: int, b: int| bracket_pair(s, a, b) && a < col < b ==> a <= start);
        assert(innermost_pair(s, start as int, col as int, end as int));
        assert forall|i: int, j: int| innermost_pair(s, i, col as int, j) implies i == start && j == end by {
            lemma_pair_unique(s, start as int, end as int, j);
        }
    }
    let es = first_level_group_elements(&v, start, end);
    let ghost ges = group_elements(s, start + 1, end as int);
    let ghost pk = |k: int| ges[k].0 <= col < ges[k].1;
    let mut k: usize = 0;
    while k < es.len()
        invariant
            k <= es.len(),
            int_intervals(es@) == ges,
            ges == group_elements(s, start + 1, end as int),
            pk == (|k: int| ges[k].0 <= col < ges[k].1),
            forall|j: int| 0 <= j < k ==> !#[trigger] pk(j),
            forall|j: int| 0 <= j < es.len() ==> (#[trigger] es@[j]).0 <= es@[j].1 <= v.len(),
            start < end < v.len(),
            s == v@,
            s == line@,
            innermost_pair(s, start as int, col as int, end as int),
        decreases es.len() - k,
    {
        assert(ges[k as int] == (es@[k as int].0 as int, es@[k as int].1 as int));
        if es[k].0 <= col && col < es[k].1 {
            proof {
                lemma_first_where(ges.len() as int, pk, k as int);
            }
            let text = slice_vec(&v, es[k].0, es[k].1);
            proof {
                assert(bracket_pair(line@, start as int, end as int) && start < col < end);
                assert forall|i: int, j: int| innermost_pair(s, i, col as int, j) implies i == start && j == end by {
                    lemma_pair_unique(s, start as int, end as int, j);
                }
            }
            return Some(GroupSpan { start_col: start, end_col: end + 1, selected_element: string_of(&text) });
        }
        k += 1;
    }
    proof {
        lemma_first_where(ges.len() as int, pk, ges.len() as int);
    }
    None
}

/// A unit subdivided in two: `[<token> .]`.
pub fn subdivided_unit(token: &str) -> (r: String)
    ensures
        r@ == "["@ + token@ + " .]"@,
{
    let mut v = chars_of("[");
    append(&mut v, &chars_of(token));
    append(&mut v, &chars_of(" .]"));
    string_of(&v)
}

/// Whether a unit can be subdivided: a `seq` body unit, or a lane body unit of a
/// line that is not a `seq` line.
pub fn is_subdividable_token(line: &str, token: &UnitSpan) -> (b: bool)
    ensures
        b == (token.kind.spec_is_seq_body() || (!spec_is_seq_line(line@) && (token.kind.spec_is_lane_body() || (!spec_is_seq_line(line@) && match first_index_of(line@, '|') {
            Some(p) => token.start_col > p,
            None => false,
        })))),
{
    token.kind.is_seq_body() || (is_lane_body_token(line, token) && !is_seq_line(line))
}

/// The bracket group that shrinking the unit `token` collapses: the group around
/// its first column.
pub fn shrinkable_group_at_token(line: &str, token: &UnitSpan) -> (r: Option<GroupSpan>)
    ensures
        (forall|a: int, b: int| !(bracket_pair(line@, a, b) && a < token.start_col < b)) ==> r is None,
        r matches Some(g) ==> g.start_col < g.end_col && innermost_pair(line@, g.start_col as int, token.start_col as int, g.end_col - 1)
            && ({
                let es = group_elements(line@, g.start_col + 1, g.end_col - 1);
                element_at(es, token.start_col as int) matches Some(k) && g.selected_element@ == line@.subrange(es[k].0, es[k].1)
            }),
        (exists|a: int, b: int| bracket_pair(line@, a, b) && a < token.start_col < b) ==> (r is None <==> exists|i: int, j: int|
            innermost_pair(line@, i, token.start_col as int, j) && element_at(group_elements(line@, i + 1, j), token.start_col as int) is None),
{
    group_span_containing_col(line, token.start_col)
}

} // verus!
