//! Template calls on a score line (`[@name params]*N`), adding macros to them,
//! naming new templates, and cutting a rectangle of bars out of lines.
use vstd::prelude::*;
use crate::studio::selection::{bars_are, bar_spans_in_line, char_range, clamp_col, replace_char_range, replaced, spec_bars};
use crate::studio::settings::{is_template_header, spec_track_header};
use vstd::set_lib::{lemma_int_range, lemma_len_subset, lemma_map_size, set_int_range};
use crate::text::{
    append, chars_of, first_index_of, is_prefix, int_intervals, is_ascii_alnum, is_ascii_alphanumeric,
    is_ascii_digit, is_digit, lemma_near_col_index_bound, near_col, near_col_index, position_of,
    slice_vec, string_of, to_lower, trim, trim_end, trim_start, trimmed, trimmed_end, trimmed_start,
    words, words_from, ascii_lowercase, decimal, first_where, lemma_decimal_injective, lemma_decimal_value,
    lemma_first_where,
};

verus! {

/// A template call on a line: its columns `start_col..end_col` (with its `*N`
/// suffix), the column of its `]`, the template's name and its text.
#[derive(Debug)]
pub struct TemplateCallSpan {
    pub row: usize,
    pub start_col: usize,
    pub end_col: usize,
    pub template_name: String,
    pub raw_text: String,
    pub closing_bracket_col: usize,
}

impl TemplateCallSpan {
    /// A copy of the span.
    pub fn duplicate(&self) -> (r: TemplateCallSpan)
        ensures
            r == *self,
    {
        TemplateCallSpan {
            row: self.row,
            start_col: self.start_col,
            end_col: self.end_col,
            template_name: self.template_name.clone(),
            raw_text: self.raw_text.clone(),
            closing_bracket_col: self.closing_bracket_col,
        }
    }
}

/// The number of ASCII digits from column `i` on.
pub open spec fn digit_run(s: Seq<char>, i: int) -> nat
    decreases s.len() - i,
{
    if 0 <= i < s.len() && is_digit(s[i]) {
        1 + digit_run(s, i + 1)
    } else {
        0
    }
}

/// The first `]` at or after column `i`.
pub open spec fn close_from(s: Seq<char>, i: int) -> Option<int>
    decreases s.len() - i,
{
    if i < 0 || i >= s.len() {
        None
    } else if s[i] == ']' {
        Some(i)
    } else {
        close_from(s, i + 1)
    }
}

pub proof fn lemma_close_from(s: Seq<char>, i: int)
    ensures
        close_from(s, i) matches Some(c) ==> i <= c < s.len() && s[c] == ']',
    decreases s.len() - i,
{
    if 0 <= i < s.len() && s[i] != ']' {
        lemma_close_from(s, i + 1);
    }
}

/// The end of a call whose `]` is at `c`: after the `]`, and after a `*` and the
/// digits that follow it.
pub open spec fn call_end(s: Seq<char>, c: int) -> int {
    let e = c + 1;
    if e < s.len() && s[e] == '*' {
        e + 1 + digit_run(s, e + 1)
    } else {
        e
    }
}

/// The calls of `s` from column `col` on, as `(start, end, close)`: each `[@`
/// with a later `]` opens one; the scan stops at the first `[@` without one.
pub open spec fn scan_calls(s: Seq<char>, col: int) -> Seq<(int, int, int)>
    decreases s.len() - col,
{
    if col < 0 || col + 1 >= s.len() {
        seq![]
    } else if !(s[col] == '[' && s[col + 1] == '@') {
        scan_calls(s, col + 1)
    } else {
        match close_from(s, col + 2) {
            None => seq![],
            Some(c) => {
                proof {
                    lemma_close_from(s, col + 2);
                    lemma_digit_run_bound(s, c + 2);
                }
                seq![(col, call_end(s, c), c)] + scan_calls(s, call_end(s, c))
            },
        }
    }
}

/// The name of a call: the first word between `[@` and `]` (empty when none).
pub open spec fn call_name(s: Seq<char>, start: int, close: int) -> Seq<char> {
    let ws = words(s.subrange(start + 2, close));
    if ws.len() > 0 {
        ws[0]
    } else {
        seq![]
    }
}

/// The spans `r` are the calls `cs` of line `s` at row `row`.
pub open spec fn calls_are(r: Seq<TemplateCallSpan>, row: usize, s: Seq<char>, cs: Seq<(int, int, int)>) -> bool {
    &&& r.len() == cs.len()
    &&& forall|k: int|
        0 <= k < r.len() ==> {
            &&& (#[trigger] r[k]).row == row
            &&& r[k].start_col == cs[k].0
            &&& r[k].end_col == cs[k].1
            &&& r[k].closing_bracket_col == cs[k].2
            &&& r[k].template_name@ == call_name(s, cs[k].0, cs[k].2)
            &&& r[k].raw_text@ == s.subrange(cs[k].0, cs[k].1)
        }
}

pub proof fn lemma_scan_calls_bounds(s: Seq<char>, col: int)
    ensures
        forall|k: int| 0 <= k < scan_calls(s, col).len() ==> {
            let t = #[trigger] scan_calls(s, col)[k];
            &&& col <= t.0
            &&& t.0 + 2 <= t.2 < t.1 <= s.len()
        },
    decreases s.len() - col,
{
    if col < 0 || col + 1 >= s.len() {
    } else if !(s[col] == '[' && s[col + 1] == '@') {
        lemma_scan_calls_bounds(s, col + 1);
        assert(scan_calls(s, col) == scan_calls(s, col + 1));
    } else {
        lemma_close_from(s, col + 2);
        match close_from(s, col + 2) {
            None => {},
            Some(c) => {
                let e = call_end(s, c);
                lemma_digit_run_bound(s, c + 2);
                lemma_scan_calls_bounds(s, e);
                let rest = scan_calls(s, e);
                assert(scan_calls(s, col) == seq![(col, e, c)] + rest);
                assert forall|k: int| 0 <= k < scan_calls(s, col).len() implies {
                    let t = #[trigger] scan_calls(s, col)[k];
                    &&& col <= t.0
                    &&& t.0 + 2 <= t.2 < t.1 <= s.len()
                } by {
                    if k > 0 {
                        assert(scan_calls(s, col)[k] == rest[k - 1]);
                    }
                }
            },
        }
    }
}

pub proof fn lemma_digit_run_bound(s: Seq<char>, i: int)
    requires
        0 <= i,
    ensures
        i + digit_run(s, i) <= s.len() || digit_run(s, i) == 0,
    decreases s.len() - i,
{
    if 0 <= i < s.len() && is_digit(s[i]) {
        lemma_digit_run_bound(s, i + 1);
    }
}

fn call_name_exec(v: &Vec<char>, start: usize, close: usize) -> (r: String)
    requires
        start + 2 <= close <= v.len(),
    ensures
        r@ == call_name(v@, start as int, close as int),
{
    let body = slice_vec(v, start + 2, close);
    let ws = words_from(&body, 0);
    assert(body@.skip(0) =~= body@);
    if ws.len() > 0 {
        string_of(&ws[0])
    } else {
        String::new()
    }
}

/// The template calls of `line`.
pub fn template_call_spans_in_line(row: usize, line: &str) -> (r: Vec<TemplateCallSpan>)
    ensures
        calls_are(r@, row, line@, scan_calls(line@, 0)),
{
    let v = chars_of(line);
    let ghost s = v@;
    let mut spans: Vec<TemplateCallSpan> = Vec::new();
    let mut col: usize = 0;
    let ghost done: Seq<(int, int, int)> = seq![];
    proof {
        lemma_scan_calls_bounds(s, 0);
    }
    while v.len() > 0 && col < v.len() - 1
        invariant
            s == v@,
            s == line@,
            col <= v.len(),
            done + scan_calls(s, col as int) == scan_calls(s, 0),
            calls_are(spans@, row, s, done),
        ensures
            calls_are(spans@, row, s, scan_calls(s, 0)),
        decreases v.len() - col,
    {
        if v[col] != '[' || v[col + 1] != '@' {
            col += 1;
            proof {
                if !(v.len() > 0 && col < v.len() - 1) {
                    assert(scan_calls(s, col as int) =~= Seq::<(int, int, int)>::empty());
                    assert(done + scan_calls(s, col as int) =~= done);
                }
            }
            continue;
        }
        let mut c = col + 2;
        while c < v.len() && v[c] != ']'
            invariant
                col + 2 <= c <= v.len(),
                s == v@,
                close_from(s, (col + 2) as int) == close_from(s, c as int),
            decreases v.len() - c,
        {
            c += 1;
        }
        if c >= v.len() {
            proof {
                assert(scan_calls(s, col as int) =~= Seq::<(int, int, int)>::empty());
                assert(done + scan_calls(s, col as int) =~= done);
                assert(done == scan_calls(s, 0));
            }
            break;
        }
        let mut end = c + 1;
        if end < v.len() && v[end] == '*' {
            end += 1;
            let ghost d0 = end;
            while end < v.len() && is_ascii_digit(v[end])
                invariant
                    c + 2 <= d0 <= end <= v.len(),
                    s == v@,
                    digit_run(s, d0 as int) == (end - d0) + digit_run(s, end as int),
                decreases v.len() - end,
            {
                end += 1;
            }
        }
        assert(end == call_end(s, c as int));
        let span = TemplateCallSpan {
            row,
            start_col: col,
            end_col: end,
            template_name: call_name_exec(&v, col, c),
            raw_text: string_of(&slice_vec(&v, col, end)),
            closing_bracket_col: c,
        };
        let ghost d1 = done.push((col as int, end as int, c as int));
        proof {
            assert(scan_calls(s, col as int) == seq![(col as int, end as int, c as int)] + scan_calls(s, end as int));
            assert(d1 + scan_calls(s, end as int) =~= done + scan_calls(s, col as int));
        }
        spans.push(span);
        proof {
            done = d1;
        }
        col = end;
        proof {
            if !(v.len() > 0 && col < v.len() - 1) {
                assert(scan_calls(s, col as int) =~= Seq::<(int, int, int)>::empty());
                assert(done + scan_calls(s, col as int) =~= done);
            }
        }
    }
    spans
}

/// The column intervals of calls.
pub open spec fn call_intervals(cs: Seq<(int, int, int)>) -> Seq<(int, int)> {
    cs.map_values(|t: (int, int, int)| (t.0, t.1))
}

/// The call at or near column `col` of `line`: the first that holds it, else the
/// first that starts at or after it, else the last.
pub fn template_call_at_or_near_col(row: usize, line: &str, col: usize) -> (r: Option<TemplateCallSpan>)
    ensures
        ({
            let cs = scan_calls(line@, 0);
            match near_col_index(call_intervals(cs), col as int) {
                Some(i) => r matches Some(x) && calls_are(seq![x], row, line@, seq![cs[i]]),
                None => r is None,
            }
        }),
{
    let spans = template_call_spans_in_line(row, line);
    let ghost cs = scan_calls(line@, 0);
    let mut iv: Vec<(usize, usize)> = Vec::new();
    let mut k: usize = 0;
    while k < spans.len()
        invariant
            k <= spans.len(),
            calls_are(spans@, row, line@, cs),
            int_intervals(iv@) == call_intervals(cs).take(k as int),
        decreases spans.len() - k,
    {
        let ghost i0 = int_intervals(iv@);
        iv.push((spans[k].start_col, spans[k].end_col));
        k += 1;
        assert(int_intervals(iv@) =~= i0.push((cs[k - 1].0, cs[k - 1].1)));
        assert(int_intervals(iv@) =~= call_intervals(cs).take(k as int));
    }
    assert(call_intervals(cs).take(spans.len() as int) =~= call_intervals(cs));
    proof {
        lemma_near_col_index_bound(call_intervals(cs), col as int);
    }
    match near_col(&iv, col) {
        Some(i) => {
            let x = spans[i].duplicate();
            assert(calls_are(seq![x], row, line@, seq![cs[i as int]])) by {
                assert(seq![x][0] == spans@[i as int]);
            }
            Some(x)
        },
        None => None,
    }
}

/// Inserts ` <macro_name>` before the `]` of `call` on `line`.
pub fn insert_template_macro_before_closing_bracket(line: &mut String, call: &TemplateCallSpan, macro_name: &str)
    ensures
        final(line)@ == replaced(old(line)@, call.closing_bracket_col as int, call.closing_bracket_col as int,
            seq![' '] + macro_name@),
{
    let mut text: Vec<char> = Vec::new();
    text.push(' ');
    append(&mut text, &chars_of(macro_name));
    assert(text@ =~= seq![' '] + macro_name@);
    crate::studio::selection::insert_at_col(line, call.closing_bracket_col, string_of(&text).as_str());
}

// ---------------------------------------------------------------------------
// Template names
// ---------------------------------------------------------------------------

/// The slug of a name: its ASCII letters and digits, in order, lower-cased.
pub open spec fn slug(s: Seq<char>) -> Seq<char>
    decreases s.len(),
{
    if s.len() == 0 {
        seq![]
    } else if is_ascii_alnum(s.last()) {
        slug(s.drop_last()).push(to_lower(s.last()))
    } else {
        slug(s.drop_last())
    }
}

/// Slugifies a template name.
pub fn slugify_template_name(input: &str) -> (r: String)
    ensures
        r@ == slug(input@),
{
    string_of(&slug_chars(&chars_of(input)))
}

/// `slug` of a character vector.
pub fn slug_chars(v: &Vec<char>) -> (r: Vec<char>)
    ensures
        r@ == slug(v@),
{
    let mut out: Vec<char> = Vec::new();
    let mut i: usize = 0;
    while i < v.len()
        invariant
            i <= v.len(),
            slug(v@.take(i as int)) == out@,
        decreases v.len() - i,
    {
        assert(v@.take(i + 1).drop_last() =~= v@.take(i as int));
        let c = v[i];
        if is_ascii_alphanumeric(c) {
            out.push(ascii_lowercase(c));
        }
        i += 1;
    }
    assert(v@.take(v.len() as int) =~= v@);
    out
}


/// The part of a line before its first pipe (the whole line when it has none).
pub open spec fn line_head(s: Seq<char>) -> Seq<char> {
    match first_index_of(s, '|') {
        Some(p) => s.take(p),
        None => s,
    }
}

/// The head of `line`: its text before the first pipe.
pub fn line_head_prefix(line: &str) -> (r: String)
    ensures
        r@ == line_head(line@),
{
    let v = chars_of(line);
    match position_of(&v, '|') {
        Some(p) => {
            let h = slice_vec(&v, 0, p);
            assert(h@ =~= v@.take(p as int));
            string_of(&h)
        },
        None => string_of(&v),
    }
}

/// A line made of a head and a body: the head without trailing blanks, a blank,
/// and the body without leading blanks.
pub open spec fn line_slice(head: Seq<char>, body: Seq<char>) -> Seq<char> {
    trim_end(head) + seq![' '] + trim_start(body)
}

/// Joins a line head and a body.
pub fn format_line_slice(head: &str, body: &str) -> (r: String)
    ensures
        r@ == line_slice(head@, body@),
{
    let mut out = trimmed_end(&chars_of(head));
    out.push(' ');
    append(&mut out, &trimmed_start(&chars_of(body)));
    assert(out@ =~= line_slice(head@, body@));
    string_of(&out)
}

/// The template name that a track header suggests: the slug of its name (the
/// trimmed text after `#`, up to the first `:`); none for a line that does not
/// start with a single `#`, has no `:`, or whose slug is empty.
pub open spec fn header_base_name(h: Seq<char>) -> Option<Seq<char>> {
    let t = trim(h);
    if is_prefix("##"@, t) || !(t.len() > 0 && t[0] == '#') {
        None
    } else {
        let body = trim(t.skip(1));
        match first_index_of(body, ':') {
            None => None,
            Some(c) => {
                let sl = slug(body.take(c));
                if sl.len() > 0 {
                    Some(sl)
                } else {
                    None
                }
            },
        }
    }
}

/// The template name that the track header `track_header` suggests.
pub fn track_template_base_name(track_header: &str) -> (r: Option<String>)
    ensures
        match header_base_name(track_header@) {
            Some(n) => r matches Some(x) && x@ == n,
            None => r is None,
        },
{
    let t = trimmed(&chars_of(track_header));
    let double = crate::text::starts_with(&t, &chars_of("##"));
    if double || !(t.len() > 0 && t[0] == '#') {
        return None;
    }
    let rest = slice_vec(&t, 1, t.len());
    assert(rest@ =~= t@.skip(1));
    let body = trimmed(&rest);
    let c = match position_of(&body, ':') {
        Some(c) => c,
        None => {
            return None;
        },
    };
    let name = slice_vec(&body, 0, c);
    assert(name@ =~= body@.take(c as int));
    let sl = slug_chars(&name);
    if sl.len() > 0 {
        Some(string_of(&sl))
    } else {
        None
    }
}

/// The base name of a template cut from rows `row_start..=row_end`: for one row,
/// `riff` for a `seq` line, else the slug of its lane head when not empty; else
/// the name that the track header suggests, else `template`.
pub open spec fn preferred_base(ls: Seq<Seq<char>>, header_row: int, row_start: int, row_end: int) -> Seq<char> {
    let head = trim(line_head(ls[row_start]));
    let fallback = match header_base_name(ls[header_row]) {
        Some(n) => n,
        None => "template"@,
    };
    if row_start == row_end {
        if head == "seq"@ {
            "riff"@
        } else if head.len() > 0 && slug(head).len() > 0 {
            slug(head)
        } else {
            fallback
        }
    } else {
        fallback
    }
}

/// The base name for a template cut from rows `row_start..=row_end` of the track
/// whose header is at `track_header_row`.
pub fn preferred_template_base_name(lines: &[String], track_header_row: usize, row_start: usize, row_end: usize) -> (r: String)
    requires
        track_header_row < lines@.len(),
        row_start < lines@.len(),
    ensures
        r@ == preferred_base(crate::text::string_views(lines@), track_header_row as int, row_start as int, row_end as int),
{
    let ghost ls = crate::text::string_views(lines@);
    assert(ls[row_start as int] == lines@[row_start as int]@);
    assert(ls[track_header_row as int] == lines@[track_header_row as int]@);
    if row_start == row_end {
        let line_head = line_head_prefix(lines[row_start].as_str());
        let head = trimmed(&chars_of(line_head.as_str()));
        proof {
            reveal_strlit("seq");
        }
        if crate::text::eq_chars(&head, &chars_of("seq")) {
            return crate::text::owned("riff");
        }
        if head.len() > 0 {
            let sl = slug_chars(&head);
            if sl.len() > 0 {
                return string_of(&sl);
            }
        }
    }
    match track_template_base_name(lines[track_header_row].as_str()) {
        Some(n) => n,
        None => crate::text::owned("template"),
    }
}


// ---------------------------------------------------------------------------
// Cutting a rectangle of bars into a template
// ---------------------------------------------------------------------------

/// The lines that cutting bars `bar_start..=bar_end` out of rows of a score gives:
/// what stays before the cut, the template's lines, and what stays after it.
pub struct TemplateExtraction {
    pub before_lines: Vec<String>,
    pub template_lines: Vec<String>,
    pub after_lines: Vec<String>,
}

/// Columns `a..b` of `s`, clamped to its length.
pub open spec fn clamped_sub(s: Seq<char>, a: int, b: int) -> Seq<char> {
    s.subrange(clamp_col(s, a), clamp_col(s, b))
}

/// What stays of line `l` before the cut: its bars before `bs` (with the pipe
/// that opens bar `bs`), when there are any.
pub open spec fn rect_before(l: Seq<char>, bs: int) -> Seq<Seq<char>> {
    let bars = spec_bars(l);
    if bs > 0 {
        seq![line_slice(line_head(l), clamped_sub(l, bars[0].0, bars[bs].0 + 1))]
    } else {
        seq![]
    }
}

/// The template's line cut from line `l`: bars `bs..=be` under the line's head.
pub open spec fn rect_template(l: Seq<char>, bs: int, be: int) -> Seq<Seq<char>> {
    let bars = spec_bars(l);
    seq![line_slice(line_head(l), clamped_sub(l, bars[bs].0, bars[be].1))]
}

/// What stays of line `l` after the cut: its bars after `be` (from the pipe that
/// closes bar `be`), when there are any.
pub open spec fn rect_after(l: Seq<char>, be: int) -> Seq<Seq<char>> {
    let bars = spec_bars(l);
    if be + 1 < bars.len() {
        seq![line_slice(line_head(l), clamped_sub(l, bars[be].1 - 1, bars.last().1))]
    } else {
        seq![]
    }
}

/// The three parts of the cut over rows `lo..hi` of `ls`.
pub open spec fn rect_rows(ls: Seq<Seq<char>>, lo: int, hi: int, bs: int, be: int) -> (Seq<Seq<char>>, Seq<Seq<char>>, Seq<Seq<char>>)
    decreases hi - lo,
{
    if hi <= lo {
        (seq![], seq![], seq![])
    } else {
        let (b, t, a) = rect_rows(ls, lo, hi - 1, bs, be);
        let l = ls[hi - 1];
        (b + rect_before(l, bs), t + rect_template(l, bs, be), a + rect_after(l, be))
    }
}

/// The cut keeps at most one line of each row before and after it.
pub proof fn lemma_rect_rows_len(ls: Seq<Seq<char>>, lo: int, hi: int, bs: int, be: int)
    requires
        lo <= hi,
    ensures
        rect_rows(ls, lo, hi, bs, be).0.len() <= hi - lo,
        rect_rows(ls, lo, hi, bs, be).2.len() <= hi - lo,
    decreases hi - lo,
{
    if hi > lo {
        lemma_rect_rows_len(ls, lo, hi - 1, bs, be);
    }
}

/// Row `r` of `ls` has bars `bs` and `be`.
pub open spec fn row_has_bars(ls: Seq<Seq<char>>, r: int, bs: int, be: int) -> bool {
    bs < spec_bars(ls[r]).len() && be < spec_bars(ls[r]).len()
}

/// The last row of the cut plus one, within the score.
pub open spec fn rect_end(ls: Seq<Seq<char>>, row_end: int) -> int {
    if row_end + 1 < ls.len() {
        row_end + 1
    } else {
        ls.len() as int
    }
}

/// Cuts bars `bar_start..=bar_end` out of rows `row_start..=row_end` of `lines`.
pub fn extract_bar_rectangle(lines: &[String], row_start: usize, row_end: usize, bar_start: usize, bar_end: usize) -> (r: TemplateExtraction)
    requires
        row_end < usize::MAX,
        bar_start <= bar_end + 1,
        forall|k: int| row_start <= k < rect_end(crate::text::string_views(lines@), row_end as int) ==> row_has_bars(
            crate::text::string_views(lines@), k, bar_start as int, bar_end as int),
    ensures
        ({
            let ls = crate::text::string_views(lines@);
            let parts = rect_rows(ls, row_start as int, rect_end(ls, row_end as int), bar_start as int, bar_end as int);
            &&& crate::text::string_views(r.before_lines@) == parts.0
            &&& crate::text::string_views(r.template_lines@) == parts.1
            &&& crate::text::string_views(r.after_lines@) == parts.2
        }),
{
    let ghost ls = crate::text::string_views(lines@);
    let hi = if row_end + 1 < lines.len() {
        row_end + 1
    } else {
        lines.len()
    };
    let mut before: Vec<String> = Vec::new();
    let mut template: Vec<String> = Vec::new();
    let mut after: Vec<String> = Vec::new();
    let mut row = row_start;
    while row < hi
        invariant
            ls == crate::text::string_views(lines@),
            hi == rect_end(ls, row_end as int),
            hi <= lines@.len(),
            bar_start <= bar_end + 1,
            forall|k: int| row_start <= k < hi ==> row_has_bars(ls, k, bar_start as int, bar_end as int),
            row_start <= row,
            row <= hi || row == row_start,
            ({
                let parts = rect_rows(ls, row_start as int, row as int, bar_start as int, bar_end as int);
                &&& crate::text::string_views(before@) == parts.0
                &&& crate::text::string_views(template@) == parts.1
                &&& crate::text::string_views(after@) == parts.2
            }),
        decreases hi - row,
    {
        let line = lines[row].as_str();
        let ghost l = ls[row as int];
        assert(l == line@);
        let bars = bar_spans_in_line(row, line);
        let ghost sb = spec_bars(l);
        assert(bars@.len() == sb.len());
        assert(row_has_bars(ls, row as int, bar_start as int, bar_end as int));
        let first = &bars[bar_start];
        let last = &bars[bar_end];
        assert(bars@[bar_start as int].start_col == sb[bar_start as int].0);
        assert(bars@[bar_end as int].end_col == sb[bar_end as int].1);
        assert(bars@[0].start_col == sb[0].0);
        let head = line_head_prefix(line);
        let ghost b0 = crate::text::string_views(before@);
        let ghost t0 = crate::text::string_views(template@);
        let ghost a0 = crate::text::string_views(after@);
        if bar_start > 0 {
            let body = char_range(line, bars[0].start_col, first.start_col + 1);
            before.push(format_line_slice(head.as_str(), body.as_str()));
        }
        let selected = char_range(line, first.start_col, last.end_col);
        template.push(format_line_slice(head.as_str(), selected.as_str()));
        if bar_end < bars.len() - 1 {
            let lastbar = &bars[bars.len() - 1];
            assert(bars@[bars.len() - 1].end_col == sb.last().1);
            let body = char_range(line, last.end_col - 1, lastbar.end_col);
            after.push(format_line_slice(head.as_str(), body.as_str()));
        }
        proof {
            assert(crate::text::string_views(before@) =~= b0 + rect_before(l, bar_start as int));
            assert(crate::text::string_views(template@) =~= t0 + rect_template(l, bar_start as int, bar_end as int));
            assert(crate::text::string_views(after@) =~= a0 + rect_after(l, bar_end as int));
        }
        row += 1;
    }
    proof {
        if row != hi {
            assert(rect_rows(ls, row_start as int, row as int, bar_start as int, bar_end as int) == rect_rows(ls, row_start as int, hi as int, bar_start as int, bar_end as int));
        }
    }
    TemplateExtraction { before_lines: before, template_lines: template, after_lines: after }
}


/// The name of a template header: the trimmed text after `# @`, trimmed.
pub open spec fn template_name_of(header: Seq<char>) -> Seq<char> {
    trim(trim(header).skip(3))
}

/// Some line of `ls` is the header of a template named `name`.
pub open spec fn names_template(ls: Seq<Seq<char>>, name: Seq<char>) -> bool {
    exists|i: int| 0 <= i < ls.len() && #[trigger] is_template_header(ls[i]) && template_name_of(ls[i]) == name
}

/// The `k`-th name tried for a new template: the base name, then the base name
/// followed by `1`, `2`, ...
pub open spec fn candidate(base: Seq<char>, k: nat) -> Seq<char> {
    if k == 0 {
        base
    } else {
        base + decimal(k)
    }
}

/// Name `k` is not taken.
pub open spec fn free_candidate(ls: Seq<Seq<char>>, base: Seq<char>) -> spec_fn(int) -> bool {
    |k: int| !names_template(ls, candidate(base, k as nat))
}

/// The name of a new template: the first candidate that no template has.
pub open spec fn next_name(ls: Seq<Seq<char>>, base: Seq<char>) -> Seq<char> {
    match first_where(ls.len() as int + 1, free_candidate(ls, base)) {
        Some(k) => candidate(base, k as nat),
        None => base,
    }
}

proof fn lemma_candidate_injective(base: Seq<char>, j: nat, k: nat)
    requires
        candidate(base, j) == candidate(base, k),
    ensures
        j == k,
{
    lemma_decimal_value(j);
    lemma_decimal_value(k);
    if j != 0 && k != 0 {
        assert(decimal(j) =~= candidate(base, j).skip(base.len() as int));
        assert(decimal(k) =~= candidate(base, k).skip(base.len() as int));
        lemma_decimal_injective(j, k);
    } else if j != 0 {
        assert(candidate(base, j).len() > base.len());
    } else if k != 0 {
        assert(candidate(base, k).len() > base.len());
    }
}

/// `m` taken candidates need `m` template headers: at most one per line.
proof fn lemma_taken_candidates(ls: Seq<Seq<char>>, base: Seq<char>, m: nat)
    requires
        forall|k: int| 0 <= k < m ==> names_template(ls, #[trigger] candidate(base, k as nat)),
    ensures
        m <= ls.len(),
{
    let x = set_int_range(0, m as int);
    let f = |k: int| choose|i: int| 0 <= i < ls.len() && #[trigger] is_template_header(ls[i]) && template_name_of(ls[i]) == candidate(base, k as nat);
    let y = x.map(f);
    lemma_int_range(0, m as int);
    assert forall|a: int, b: int| x.contains(a) && x.contains(b) && #[trigger] f(a) == #[trigger] f(b) implies a == b by {
        assert(names_template(ls, candidate(base, a as nat)));
        assert(names_template(ls, candidate(base, b as nat)));
        lemma_candidate_injective(base, a as nat, b as nat);
    }
    lemma_map_size(x, y, f);
    let rows = set_int_range(0, ls.len() as int);
    lemma_int_range(0, ls.len() as int);
    assert forall|i: int| y.contains(i) implies rows.contains(i) by {
        let k = choose|k: int| x.contains(k) && f(k) == i;
        assert(names_template(ls, candidate(base, k as nat)));
    }
    lemma_len_subset(y, rows);
}

/// A new template's name is never one that a template of the score already has.
pub proof fn new_template_name_is_free(ls: Seq<Seq<char>>, base: Seq<char>)
    ensures
        !names_template(ls, next_name(ls, base)),
{
    let n = ls.len() as int + 1;
    let p = free_candidate(ls, base);
    crate::text::lemma_first_where_some(n, p);
    if first_where(n, p) is None {
        assert forall|k: int| 0 <= k < n implies names_template(ls, #[trigger] candidate(base, k as nat)) by {
            assert(!p(k));
        }
        lemma_taken_candidates(ls, base, n as nat);
    }
}

fn has_template_named(lines: &[String], name: &Vec<char>) -> (b: bool)
    ensures
        b == names_template(crate::text::string_views(lines@), name@),
{
    let ghost ls = crate::text::string_views(lines@);
    let mut i: usize = 0;
    while i < lines.len()
        invariant
            i <= lines@.len(),
            ls == crate::text::string_views(lines@),
            forall|j: int| 0 <= j < i ==> !(#[trigger] is_template_header(ls[j]) && template_name_of(ls[j]) == name@),
        decreases lines@.len() - i,
    {
        assert(ls[i as int] == lines@[i as int]@);
        let t = trimmed(&chars_of(lines[i].as_str()));
        if crate::text::starts_with(&t, &chars_of("# @")) {
            proof {
                reveal_strlit("# @");
            }
            let rest = slice_vec(&t, 3, t.len());
            assert(rest@ =~= t@.skip(3));
            if crate::text::eq_chars(&trimmed(&rest), name) {
                assert(is_template_header(ls[i as int]) && template_name_of(ls[i as int]) == name@);
                return true;
            }
        }
        i += 1;
    }
    false
}

fn candidate_chars(base: &Vec<char>, k: u64) -> (r: Vec<char>)
    ensures
        r@ == candidate(base@, k as nat),
{
    if k == 0 {
        slice_vec(base, 0, base.len())
    } else {
        let mut r = slice_vec(base, 0, base.len());
        append(&mut r, &crate::text::decimal_chars(k));
        r
    }
}

/// The name of a template cut from rows `row_start..=row_end` of the track whose
/// header is at `track_header_row`: the preferred base name, numbered when taken.
pub fn next_template_name(lines: &[String], track_header_row: usize, row_start: usize, row_end: usize) -> (r: String)
    requires
        track_header_row < lines@.len(),
        row_start < lines@.len(),
    ensures
        ({
            let ls = crate::text::string_views(lines@);
            r@ == next_name(ls, preferred_base(ls, track_header_row as int, row_start as int, row_end as int))
        }),
{
    let preferred = preferred_template_base_name(lines, track_header_row, row_start, row_end);
    let base = chars_of(preferred.as_str());
    string_of(&free_template_name(lines, &base))
}

/// The first of `base`, `base1`, `base2`, ... that no template of `lines` has.
pub fn free_template_name(lines: &[String], base: &Vec<char>) -> (r: Vec<char>)
    ensures
        r@ == next_name(crate::text::string_views(lines@), base@),
{
    let ghost ls = crate::text::string_views(lines@);
    let ghost p = free_candidate(ls, base@);
    assert(lines@.len() == lines.len());
    let mut k: u64 = 0;
    loop
        invariant
            k <= lines@.len(),
            ls == crate::text::string_views(lines@),
            lines@.len() == lines.len(),
            p == free_candidate(ls, base@),
            forall|j: int| 0 <= j < k ==> names_template(ls, #[trigger] candidate(base@, j as nat)),
        decreases lines@.len() - k,
    {
        let c = candidate_chars(base, k);
        if !has_template_named(lines, &c) {
            proof {
                assert forall|j: int| 0 <= j < k implies !#[trigger] p(j) by {
                    assert(names_template(ls, candidate(base@, j as nat)));
                }
                assert(p(k as int));
                lemma_first_where(ls.len() as int + 1, p, k as int);
            }
            return c;
        }
        proof {
            assert forall|j: int| 0 <= j < k + 1 implies names_template(ls, #[trigger] candidate(base@, j as nat)) by {
                if j == k {
                    assert(candidate(base@, j as nat) == c@);
                }
            }
            lemma_taken_candidates(ls, base@, (k + 1) as nat);
        }
        k += 1;
    }
}

/// The columns that deleting the call at `start..end` removes: the call and the
/// blanks after it, else (with none after it) the blanks before it.
pub open spec fn call_delete_bounds(s: Seq<char>, start: int, end: int) -> (int, int) {
    let e = end + crate::text::lead_ws(s.skip(end));
    if e == end {
        (start - crate::text::trail_ws(s.take(start)), end)
    } else {
        (start, e)
    }
}

/// Deletes the template call at columns `start_col..end_col` of `line`, with the
/// blanks that follow it, or with those before it when none follow.
pub fn delete_template_call(line: &mut String, start_col: usize, end_col: usize)
    requires
        start_col <= end_col <= old(line)@.len(),
    ensures
        ({
            let (a, b) = call_delete_bounds(old(line)@, start_col as int, end_col as int);
            final(line)@ == replaced(old(line)@, a, b, Seq::empty())
        }),
{
    let v = chars_of(line.as_str());
    let ghost s = v@;
    let mut end = end_col;
    while end < v.len() && crate::text::is_whitespace(v[end])
        invariant
            end_col <= end <= v.len(),
            forall|j: int| end_col <= j < end ==> crate::text::is_ws(#[trigger] v@[j]),
        decreases v.len() - end,
    {
        end += 1;
    }
    proof {
        let t = s.skip(end_col as int);
        assert forall|j: int| 0 <= j < end - end_col implies crate::text::is_ws(#[trigger] t[j]) by {
            assert(t[j] == s[end_col + j]);
        }
        if end < v.len() {
            assert(t[end - end_col] == s[end as int]);
        }
        crate::text::lemma_lead_ws_unique(t, end - end_col);
    }
    let mut start = start_col;
    if end == end_col {
        while start > 0 && crate::text::is_whitespace(v[start - 1])
            invariant
                start <= start_col <= v.len(),
                forall|j: int| start <= j < start_col ==> crate::text::is_ws(#[trigger] v@[j]),
            decreases start,
        {
            start -= 1;
        }
        proof {
            let h = s.take(start_col as int);
            assert forall|j: int| 0 <= j < start_col - start implies crate::text::is_ws(#[trigger] h[h.len() - 1 - j]) by {
                assert(h[h.len() - 1 - j] == s[start_col - 1 - j]);
            }
            if start > 0 {
                assert(h[start - 1] == s[start - 1]);
            }
            crate::text::lemma_trail_ws_unique(h, start_col - start);
        }
    }
    replace_char_range(line, start, end, "");
    proof {
        reveal_strlit("");
    }
}

/// The positions `(row, start)` of the last `duplicated_count` template calls of
/// `line` (all of them when there are fewer), in order.
pub fn template_call_positions_after_duplication(row: usize, line: &str, duplicated_count: usize) -> (r: Vec<(usize, usize)>)
    ensures
        ({
            let cs = scan_calls(line@, 0);
            let k = if duplicated_count < cs.len() { duplicated_count as int } else { cs.len() as int };
            &&& r@.len() == k
            &&& forall|i: int| 0 <= i < k ==> #[trigger] r@[i] == (row, cs[cs.len() - k + i].0 as usize)
        }),
{
    let spans = template_call_spans_in_line(row, line);
    let ghost cs = scan_calls(line@, 0);
    let k = if duplicated_count < spans.len() { duplicated_count } else { spans.len() };
    let first = spans.len() - k;
    let mut r: Vec<(usize, usize)> = Vec::new();
    let mut i = first;
    while i < spans.len()
        invariant
            first <= i <= spans.len(),
            first == spans.len() - k,
            calls_are(spans@, row, line@, cs),
            r@.len() == i - first,
            forall|j: int| 0 <= j < r@.len() ==> #[trigger] r@[j] == (row, cs[first + j].0 as usize),
        decreases spans.len() - i,
    {
        r.push((spans[i].row, spans[i].start_col));
        i += 1;
    }
    r
}

} // verus!
