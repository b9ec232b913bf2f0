//! Track-level structure of a score: the rows of its track headers, moving
//! between tracks, and the spans that deleting a track, a template definition or
//! an initialisation line removes.
use vstd::prelude::*;
use crate::studio::selection::int_cols;
use crate::studio::settings::{is_template_header, parse_track_header, spec_track_header};
use crate::studio::track_init::{
    is_track_init_line, spec_init_label, spec_is_track_init_line, track_init_label_of_line,
    TrackInitKeySpec, TrackInitLabel,
};
use crate::studio::template_call::{call_parts, call_parts_chars, spaced};
use crate::studio::template_ops::{template_name_of, TemplateCallSpan};
use crate::text::{
    append, views, chars_of, eq_chars, first_index_of, first_where, is_prefix, last_where, lemma_first_where,
    lemma_first_where_some, lemma_last_where, position_of, slice_vec, starts_with, string_of, string_views, trim, trimmed,
};

verus! {

/// The kind of a modifier line: its trimmed head (before the first pipe) is `v`
/// (velocity) or `p` (pitch).
pub open spec fn spec_modifier_kind(line: Seq<char>) -> Option<Seq<char>> {
    match first_index_of(line, '|') {
        None => None,
        Some(p) => {
            let h = trim(line.take(p));
            if h == "v"@ {
                Some("v"@)
            } else if h == "p"@ {
                Some("p"@)
            } else {
                None
            }
        },
    }
}

/// The kind of the modifier line `line`, if it is one.
pub fn modifier_line_kind(line: &str) -> (r: Option<&'static str>)
    ensures
        match spec_modifier_kind(line@) {
            Some(k) => r matches Some(x) && x@ == k,
            None => r is None,
        },
{
    let v = chars_of(line);
    let p = match position_of(&v, '|') {
        Some(p) => p,
        None => {
            return None;
        },
    };
    let head = slice_vec(&v, 0, p);
    assert(head@ =~= v@.take(p as int));
    let h = trimmed(&head);
    if eq_chars(&h, &chars_of("v")) {
        Some("v")
    } else if eq_chars(&h, &chars_of("p")) {
        Some("p")
    } else {
        None
    }
}

/// The rows of the track headers of `ls`, in order.
pub open spec fn header_rows_of(ls: Seq<Seq<char>>) -> Seq<int>
    decreases ls.len(),
{
    if ls.len() == 0 {
        seq![]
    } else {
        let r = header_rows_of(ls.drop_last());
        if spec_track_header(ls.last()) is Some {
            r.push(ls.len() - 1)
        } else {
            r
        }
    }
}

/// The rows of the track headers of `lines`.
pub fn track_header_rows(lines: &[String]) -> (r: Vec<usize>)
    ensures
        int_cols(r@) == header_rows_of(string_views(lines@)),
{
    let ghost ls = string_views(lines@);
    let mut r: Vec<usize> = Vec::new();
    let mut i: usize = 0;
    while i < lines.len()
        invariant
            i <= lines@.len(),
            ls == string_views(lines@),
            int_cols(r@) == header_rows_of(ls.take(i as int)),
        decreases lines@.len() - i,
    {
        let ghost before = int_cols(r@);
        proof {
            assert(ls.take(i + 1).drop_last() =~= ls.take(i as int));
            assert(ls.take(i + 1).last() == lines@[i as int]@);
        }
        if parse_track_header(lines[i].as_str()).is_some() {
            r.push(i);
            assert(int_cols(r@) =~= before.push(i as int));
        }
        i += 1;
    }
    assert(ls.take(lines@.len() as int) =~= ls);
    r
}

/// Header `i` of `hs` is at or above row `cursor`.
pub open spec fn at_or_above(hs: Seq<int>, cursor: int) -> spec_fn(int) -> bool {
    |i: int| hs[i] <= cursor
}

/// The index of the track that holds `cursor`: the last header at or above it,
/// else the first track when there is one.
pub open spec fn track_index_at(hs: Seq<int>, cursor: int) -> Option<int> {
    match last_where(hs.len() as int, at_or_above(hs, cursor)) {
        Some(i) => Some(i),
        None => if hs.len() > 0 {
            Some(0)
        } else {
            None
        },
    }
}

fn last_header_at_or_above(header_rows: &[usize], cursor_row: usize) -> (r: Option<usize>)
    ensures
        ({
            let hs = int_cols(header_rows@);
            match last_where(hs.len() as int, at_or_above(hs, cursor_row as int)) {
                Some(i) => r == Some(i as usize) && 0 <= i < hs.len() <= usize::MAX,
                None => r is None,
            }
        }),
{
    let ghost hs = int_cols(header_rows@);
    assert(header_rows@.len() == header_rows.len());
    let ghost p = at_or_above(hs, cursor_row as int);
    let mut k: usize = header_rows.len();
    while k > 0
        invariant
            k <= header_rows@.len(),
            hs == int_cols(header_rows@),
            p == at_or_above(hs, cursor_row as int),
            forall|j: int| k <= j < hs.len() ==> !#[trigger] p(j),
        decreases k,
    {
        let i = k - 1;
        assert(hs[i as int] == header_rows@[i as int] as int);
        if header_rows[i] <= cursor_row {
            proof {
                lemma_last_where(hs.len() as int, p, i as int);
            }
            return Some(i);
        }
        k -= 1;
    }
    proof {
        lemma_last_where(hs.len() as int, p, -1);
    }
    None
}

/// The index of the track that holds row `cursor_row`.
pub fn current_track_index(lines: &[String], cursor_row: usize) -> (r: Option<usize>)
    ensures
        match track_index_at(header_rows_of(string_views(lines@)), cursor_row as int) {
            Some(i) => r == Some(i as usize),
            None => r is None,
        },
{
    let header_rows = track_header_rows(lines);
    match last_header_at_or_above(header_rows.as_slice(), cursor_row) {
        Some(i) => Some(i),
        None => if header_rows.len() > 0 {
            Some(0)
        } else {
            None
        },
    }
}

/// The header row that moving by `direction` tracks from `cursor` reaches: the
/// previous header before the current track's, or the one after it (the first
/// header when the cursor is above every track).
pub open spec fn adjacent_header(hs: Seq<int>, cursor: int, direction: int) -> Option<int> {
    let cur = last_where(hs.len() as int, at_or_above(hs, cursor));
    if direction < 0 {
        match cur {
            Some(i) => if i >= 1 {
                Some(hs[i - 1])
            } else {
                None
            },
            None => None,
        }
    } else {
        match cur {
            Some(i) => if i + 1 < hs.len() {
                Some(hs[i + 1])
            } else {
                None
            },
            None => if hs.len() > 0 {
                Some(hs[0])
            } else {
                None
            },
        }
    }
}

/// The header row one track up (`direction < 0`) or down from `cursor_row`.
pub fn adjacent_track_header_row(header_rows: &[usize], cursor_row: usize, direction: i32) -> (r: Option<usize>)
    ensures
        match adjacent_header(int_cols(header_rows@), cursor_row as int, direction as int) {
            Some(h) => r == Some(h as usize),
            None => r is None,
        },
{
    let ghost hs = int_cols(header_rows@);
    let cur = last_header_at_or_above(header_rows, cursor_row);
    assert(hs.len() == header_rows@.len());
    if direction < 0 {
        match cur {
            Some(i) => if i >= 1 {
                assert(hs[i - 1] == header_rows@[i - 1] as int);
                Some(header_rows[i - 1])
            } else {
                None
            },
            None => None,
        }
    } else {
        match cur {
            Some(i) => if i < header_rows.len() - 1 {
                assert(hs[i + 1] == header_rows@[i + 1] as int);
                Some(header_rows[i + 1])
            } else {
                None
            },
            None => if header_rows.len() > 0 {
                assert(hs[0] == header_rows@[0] as int);
                Some(header_rows[0])
            } else {
                None
            },
        }
    }
}

/// The rows `start..end` that deleting track `ti` removes, and its header row: from
/// its header (or the blank line above it) to the next header, or to the end.
pub open spec fn track_span(ls: Seq<Seq<char>>, hs: Seq<int>, ti: int) -> (int, int, int) {
    let h = hs[ti];
    let start = if h > 0 && trim(ls[h - 1]).len() == 0 {
        h - 1
    } else {
        h
    };
    let end = if ti + 1 < hs.len() {
        hs[ti + 1]
    } else {
        ls.len() as int
    };
    (start, end, h)
}

/// The span that deleting track `track_index` removes.
pub fn track_delete_span(lines: &[String], header_rows: &[usize], track_index: usize) -> (r: (usize, usize, usize))
    requires
        track_index < header_rows@.len(),
        header_rows@[track_index as int] <= lines@.len(),
    ensures
        ({
            let t = track_span(string_views(lines@), int_cols(header_rows@), track_index as int);
            r.0 == t.0 && r.1 == t.1 && r.2 == t.2
        }),
{
    let ghost ls = string_views(lines@);
    let header_row = header_rows[track_index];
    let start_row = if header_row > 0 && {
        assert(ls[header_row - 1] == lines@[header_row - 1]@);
        let v = chars_of(lines[header_row - 1].as_str());
        trimmed(&v).len() == 0
    } {
        header_row - 1
    } else {
        header_row
    };
    let end_row = if track_index < header_rows.len() - 1 {
        header_rows[track_index + 1]
    } else {
        lines.len()
    };
    (start_row, end_row, header_row)
}

/// The column the cursor takes on a track header.
pub fn track_header_cursor_col() -> (r: usize)
    ensures
        r == 2,
{
    2
}

/// Row `i` of `ls`, or an empty line past the end.
pub open spec fn line_at(ls: Seq<Seq<char>>, i: int) -> Seq<char> {
    if 0 <= i < ls.len() {
        ls[i]
    } else {
        seq![]
    }
}

/// A body line of a template: not blank, and not starting (trimmed) with `#`.
pub open spec fn is_body_line(l: Seq<char>) -> bool {
    trim(l).len() > 0 && trim(l)[0] != '#'
}

/// The number of body lines right after row `h`.
pub open spec fn body_run(ls: Seq<Seq<char>>, h: int) -> nat
    decreases ls.len() - h,
{
    if h + 1 < ls.len() && is_body_line(ls[h + 1]) {
        1 + body_run(ls, h + 1)
    } else {
        0
    }
}

/// The last row of the template whose header is row `h`.
pub open spec fn body_end(ls: Seq<Seq<char>>, h: int) -> int {
    h + body_run(ls, h)
}

fn template_body_end(lines: &[String], header_row: usize) -> (r: usize)
    requires
        header_row < lines@.len(),
    ensures
        r == body_end(string_views(lines@), header_row as int),
        r < lines@.len(),
{
    let ghost ls = string_views(lines@);
    let mut row = header_row;
    while row < lines.len() - 1 && is_body_row(lines, row + 1)
        invariant
            header_row <= row < lines@.len(),
            ls == string_views(lines@),
            body_run(ls, header_row as int) == (row - header_row) + body_run(ls, row as int),
        decreases lines@.len() - row,
    {
        row = row + 1;
    }
    row
}

fn is_body_row(lines: &[String], i: usize) -> (b: bool)
    requires
        i < lines@.len(),
    ensures
        b == is_body_line(string_views(lines@)[i as int]),
{
    assert(string_views(lines@)[i as int] == lines@[i as int]@);
    let v = chars_of(lines[i].as_str());
    let t = trimmed(&v);
    t.len() > 0 && t[0] != '#'
}

/// The template header row that a delete at `cursor` acts on: the last row at or
/// above it that is a template header whose template reaches the cursor.
pub open spec fn covering_template(ls: Seq<Seq<char>>, cursor: int) -> Option<int> {
    let n = if cursor + 1 < ls.len() { cursor + 1 } else { ls.len() as int };
    last_where(n, |h: int| is_template_header(ls[h]) && cursor <= body_end(ls, h))
}

/// What deleting the template definition at `cursor` removes: rows `start..end`
/// (with the blank line above the header), the header row, and the template's name.
pub open spec fn template_span(ls: Seq<Seq<char>>, cursor: int) -> Option<(int, int, int, Seq<char>)> {
    match covering_template(ls, cursor) {
        None => None,
        Some(h) => {
            let start = if h > 0 && trim(ls[h - 1]).len() == 0 {
                h - 1
            } else {
                h
            };
            Some((start, body_end(ls, h) + 1, h, template_name_of(ls[h])))
        },
    }
}

/// What deleting the template definition at `cursor_row` removes.
pub fn template_definition_delete_span(lines: &[String], cursor_row: usize) -> (r: Option<(usize, usize, usize, String)>)
    ensures
        match template_span(string_views(lines@), cursor_row as int) {
            Some(t) => r matches Some(x) && x.0 == t.0 && x.1 == t.1 && x.2 == t.2 && x.3@ == t.3,
            None => r is None,
        },
{
    let ghost ls = string_views(lines@);
    let n = if cursor_row < lines.len() {
        cursor_row + 1
    } else {
        lines.len()
    };
    let ghost p = |h: int| is_template_header(ls[h]) && cursor_row <= body_end(ls, h);
    let mut k: usize = n;
    while k > 0
        invariant
            k <= n <= lines@.len(),
            n == (if cursor_row + 1 < ls.len() { cursor_row + 1 } else { ls.len() as int }),
            ls == string_views(lines@),
            p == (|h: int| is_template_header(ls[h]) && cursor_row <= body_end(ls, h)),
            forall|j: int| k <= j < n ==> !#[trigger] p(j),
        decreases k,
    {
        let h = k - 1;
        assert(ls[h as int] == lines@[h as int]@);
        let v = chars_of(lines[h].as_str());
        let t = trimmed(&v);
        if starts_with(&t, &chars_of("# @")) && cursor_row <= template_body_end(lines, h) {
            proof {
                lemma_last_where(n as int, p, h as int);
                reveal_strlit("# @");
            }
            let end = template_body_end(lines, h);
            let rest = slice_vec(&t, 3, t.len());
            assert(rest@ =~= t@.skip(3));
            let name = string_of(&trimmed(&rest));
            let start = if h > 0 && {
                assert(ls[h - 1] == lines@[h - 1]@);
                let above = chars_of(lines[h - 1].as_str());
                trimmed(&above).len() == 0
            } {
                h - 1
            } else {
                h
            };
            return Some((start, end + 1, h, name));
        }
        k -= 1;
    }
    proof {
        lemma_last_where(n as int, p, -1);
    }
    None
}

/// A row after the header that the key asks for: `pc` also matches `sound`.
pub open spec fn init_matches(spec: TrackInitKeySpec, line: Seq<char>) -> bool {
    let l = spec_init_label(line);
    if spec == TrackInitKeySpec::Pc {
        l == Some(TrackInitLabel::Pc) || l == Some(TrackInitLabel::Sound)
    } else {
        l == spec.spec_label_kind()
    }
}

/// Line `from + k` is an initialisation line of the kind that `spec` asks for.
pub open spec fn init_pred(ls: Seq<Seq<char>>, from: int, spec: TrackInitKeySpec) -> spec_fn(int) -> bool {
    |k: int| init_matches(spec, ls[from + k])
}

/// The number of initialisation lines from row `from` on.
pub open spec fn init_run(ls: Seq<Seq<char>>, from: int) -> nat
    decreases ls.len() - from,
{
    if 0 <= from < ls.len() && spec_is_track_init_line(ls[from]) {
        1 + init_run(ls, from + 1)
    } else {
        0
    }
}

/// The initialisation line that deleting the kind `spec` removes, among those
/// right below the header at `header`: for `cc`, the one at the cursor; else the
/// first of that kind.
pub open spec fn init_row(ls: Seq<Seq<char>>, header: int, cursor: int, spec: TrackInitKeySpec) -> Option<int> {
    let from = header + 1;
    let n = init_run(ls, from) as int;
    let p = init_pred(ls, from, spec);
    if spec == TrackInitKeySpec::Cancel {
        None
    } else if spec == TrackInitKeySpec::Cc {
        if from <= cursor < from + n && p(cursor - from) {
            Some(cursor)
        } else {
            None
        }
    } else {
        match first_where(n, p) {
            Some(k) => Some(from + k),
            None => None,
        }
    }
}

fn init_matches_exec(spec: TrackInitKeySpec, line: &str) -> (b: bool)
    ensures
        b == init_matches(spec, line@),
{
    let l = track_init_label_of_line(line);
    if spec == TrackInitKeySpec::Pc {
        l == Some(TrackInitLabel::Pc) || l == Some(TrackInitLabel::Sound)
    } else {
        l == spec.label_kind()
    }
}

/// The initialisation line of the track at `header_row` that deleting `spec` removes.
pub fn find_track_init_row(lines: &[String], header_row: usize, cursor_row: usize, spec: TrackInitKeySpec) -> (r: Option<usize>)
    requires
        header_row < usize::MAX,
    ensures
        match init_row(string_views(lines@), header_row as int, cursor_row as int, spec) {
            Some(i) => r == Some(i as usize),
            None => r is None,
        },
{
    let ghost ls = string_views(lines@);
    if spec == TrackInitKeySpec::Cancel {
        return None;
    }
    let from = header_row + 1;
    let end = init_run_end(lines, from);
    let ghost p = init_pred(ls, from as int, spec);
    if spec == TrackInitKeySpec::Cc {
        if from <= cursor_row && cursor_row < end && {
            assert(ls[cursor_row as int] == lines@[cursor_row as int]@);
            init_matches_exec(spec, lines[cursor_row].as_str())
        } {
            return Some(cursor_row);
        }
        return None;
    }
    let mut row = from;
    while row < end
        invariant
            from <= row <= end,
            from == header_row + 1,
            spec != TrackInitKeySpec::Cancel && spec != TrackInitKeySpec::Cc,
            end == from || end <= lines@.len(),
            end == from + init_run(ls, from as int),
            ls == string_views(lines@),
            p == init_pred(ls, from as int, spec),
            forall|j: int| 0 <= j < row - from ==> !#[trigger] p(j),
        decreases end - row,
    {
        assert(ls[row as int] == lines@[row as int]@);
        if init_matches_exec(spec, lines[row].as_str()) {
            proof {
                lemma_first_where(end - from, p, row - from);
            }
            return Some(row);
        }
        row += 1;
    }
    proof {
        lemma_first_where(end - from, p, end - from);
    }
    None
}

fn init_line_at(lines: &[String], i: usize) -> (b: bool)
    requires
        i < lines@.len(),
    ensures
        b == spec_is_track_init_line(string_views(lines@)[i as int]),
{
    assert(string_views(lines@)[i as int] == lines@[i as int]@);
    is_track_init_line(lines[i].as_str())
}

/// The first row from `from` on that is not an initialisation line.
pub fn init_run_end(lines: &[String], from: usize) -> (r: usize)
    ensures
        r == from + init_run(string_views(lines@), from as int),
        from <= r,
        r <= lines@.len() || r == from,
{
    let ghost ls = string_views(lines@);
    let mut row = from;
    while row < lines.len() && init_line_at(lines, row)
        invariant
            from <= row,
            row <= lines@.len() || row == from,
            ls == string_views(lines@),
            init_run(ls, from as int) == (row - from) + init_run(ls, row as int),
        decreases lines@.len() - row,
    {
        row += 1;
    }
    row
}


/// A template macro word: `arp`, `rev` or `strum`.
pub open spec fn is_macro_word(w: Seq<char>) -> bool {
    w == "arp"@ || w == "rev"@ || w == "strum"@
}

/// Parameter `i` of `ps` is a macro word.
pub open spec fn macro_at(ps: Seq<Seq<char>>) -> spec_fn(int) -> bool {
    |i: int| is_macro_word(ps[i])
}

/// A call without its first macro word, and that word: the first word inside the
/// call that is a macro (the name counts, though the name itself stays). `None`
/// when the call has none.
pub open spec fn macro_removed(raw: Seq<char>) -> Option<(Seq<char>, Seq<char>)> {
    match call_parts(raw) {
        None => None,
        Some((name, ps, suffix)) => macro_removed_parts(name, ps, suffix),
    }
}

/// `macro_removed` on the parts of a call.
pub open spec fn macro_removed_parts(name: Seq<char>, ps: Seq<Seq<char>>, suffix: Seq<char>) -> Option<(Seq<char>, Seq<char>)> {
    if is_macro_word(name) {
        Some((seq!['[', '@'] + name + spaced(ps) + seq![']'] + suffix, name))
    } else {
        match first_where(ps.len() as int, macro_at(ps)) {
            None => None,
            Some(m) => Some((seq!['[', '@'] + name + spaced(ps.take(m) + ps.skip(m + 1)) + seq![']'] + suffix, ps[m])),
        }
    }
}

fn macro_word(w: &Vec<char>) -> (r: Option<&'static str>)
    ensures
        is_macro_word(w@) ==> (r matches Some(x) && x@ == w@),
        !is_macro_word(w@) ==> r is None,
{
    if eq_chars(w, &chars_of("arp")) {
        Some("arp")
    } else if eq_chars(w, &chars_of("rev")) {
        Some("rev")
    } else if eq_chars(w, &chars_of("strum")) {
        Some("strum")
    } else {
        None
    }
}

/// The call `call` without the macro word, when the cursor is on it.
pub fn template_call_text_without_macro_at_cursor(cursor_col: usize, call: &TemplateCallSpan) -> (r: Option<(String, &'static str)>)
    ensures
        if cursor_col < call.start_col || cursor_col > call.end_col {
            r is None
        } else {
            match macro_removed(call.raw_text@) {
                Some((t, m)) => r matches Some(x) && x.0@ == t && x.1@ == m,
                None => r is None,
            }
        },
{
    if cursor_col < call.start_col || cursor_col > call.end_col {
        return None;
    }
    let v = chars_of(call.raw_text.as_str());
    let (name, ps, suffix) = match call_parts_chars(&v) {
        Some(t) => t,
        None => {
            return None;
        },
    };
    match rebuild_without_macro(&name, &ps, &suffix) {
        Some((t, w)) => Some((string_of(&t), w)),
        None => None,
    }
}

fn rebuild_without_macro(name: &Vec<char>, ps: &Vec<Vec<char>>, suffix: &Vec<char>) -> (r: Option<(Vec<char>, &'static str)>)
    ensures
        match macro_removed_parts(name@, views(ps@), suffix@) {
            Some((t, m)) => r matches Some(x) && x.0@ == t && x.1@ == m,
            None => r is None,
        },
{
    let ghost pv = views(ps@);
    let mut out: Vec<char> = Vec::new();
    out.push('[');
    out.push('@');
    append(&mut out, name);
    let (deleted, skip) = match macro_word(name) {
        Some(w) => (w, ps.len()),
        None => match first_macro(ps) {
            Some(m) => {
                proof {
                    lemma_first_where_some(pv.len() as int, macro_at(pv));
                    assert(pv[m as int] == ps@[m as int]@);
                }
                let w = match macro_word(&ps[m]) {
                    Some(w) => w,
                    None => "",
                };
                (w, m)
            },
            None => {
                return None;
            },
        },
    };
    let rest = spaced_without(ps, skip);
    append(&mut out, &rest);
    out.push(']');
    append(&mut out, suffix);
    assert(out@ =~= seq!['[', '@'] + name@ + rest@ + seq![']'] + suffix@);
    Some((out, deleted))
}

fn first_macro(ps: &Vec<Vec<char>>) -> (r: Option<usize>)
    ensures
        match first_where(ps@.len() as int, macro_at(views(ps@))) {
            Some(m) => r == Some(m as usize) && 0 <= m < ps@.len(),
            None => r is None,
        },
{
    let ghost pv = views(ps@);
    let mut m: usize = 0;
    while m < ps.len()
        invariant
            m <= ps.len(),
            pv == views(ps@),
            forall|j: int| 0 <= j < m ==> !#[trigger] macro_at(pv)(j),
        decreases ps.len() - m,
    {
        if macro_word(&ps[m]).is_some() {
            proof {
                lemma_first_where(pv.len() as int, macro_at(pv), m as int);
            }
            return Some(m);
        }
        m += 1;
    }
    proof {
        lemma_first_where(pv.len() as int, macro_at(pv), pv.len() as int);
    }
    None
}

/// `spaced` of the words `ps` without word `skip` (all of them when `skip` is
/// past the end).
fn spaced_without(ps: &Vec<Vec<char>>, skip: usize) -> (out: Vec<char>)
    requires
        skip <= ps.len(),
    ensures
        out@ == spaced(if skip < ps.len() { views(ps@).take(skip as int) + views(ps@).skip(skip + 1) } else { views(ps@) }),
{
    let ghost pv = views(ps@);
    let mut out: Vec<char> = Vec::new();
    let mut i: usize = 0;
    let ghost done: Seq<Seq<char>> = seq![];
    while i < ps.len()
        invariant
            i <= ps.len(),
            skip <= ps.len(),
            pv == views(ps@),
            out@ == spaced(done),
            done == (if skip < i { pv.take(skip as int) + pv.subrange(skip + 1, i as int) } else { pv.take(i as int) }),
        decreases ps.len() - i,
    {
        let ghost d0 = done;
        if i != skip {
            out.push(' ');
            append(&mut out, &ps[i]);
            proof {
                done = d0.push(pv[i as int]);
                assert(done.drop_last() == d0);
                assert(out@ =~= spaced(done));
            }
        }
        proof {
            if skip < i + 1 {
                if i == skip {
                    assert(pv.take(skip as int) + pv.subrange(skip + 1, i + 1) =~= pv.take(i as int));
                } else {
                    assert(pv.take(skip as int) + pv.subrange(skip + 1, i + 1) =~= d0.push(pv[i as int]));
                }
            } else {
                assert(pv.take(i + 1) =~= pv.take(i as int).push(pv[i as int]));
            }
        }
        i += 1;
    }
    proof {
        if skip < ps.len() {
            assert(pv.subrange(skip + 1, ps.len() as int) =~= pv.skip(skip + 1));
        } else {
            assert(pv.take(ps.len() as int) =~= pv);
        }
    }
    out
}

} // verus!
