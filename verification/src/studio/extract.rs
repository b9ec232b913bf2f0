//! Extracting selected bars into a new template: the rows must hold the selected
//! bars and belong to one track; the bars are cut out, a call of the new template
//! takes their place, and the template is written at the end of the score.
use vstd::prelude::*;
use crate::studio::clipboard::{bar_runs, runs_total, saturated, selected_bar_runs, run_view};
use crate::studio::selection::{bar_spans_in_line, spec_bars};
use crate::studio::selection_model::{max_u, min_u, StudioSelection};
use crate::studio::settings::{parse_track_header_channel, spec_track_header};
use crate::studio::template_ops::{
    extract_bar_rectangle, next_name, next_template_name, preferred_base, rect_end, rect_rows, row_has_bars,
};
use crate::text::{chars_of, last_where, lemma_last_where, string_of, string_views, trim, trimmed};

verus! {

/// Every row `rs..=re` has bars `bs..=be` (and `bs <= be`).
pub open spec fn rows_have_bar_range(ls: Seq<Seq<char>>, rs: int, re: int, bs: int, be: int) -> bool {
    forall|r: int| rs <= r <= re ==> #[trigger] row_has_range(ls, r, bs, be)
}

/// Row `r` has bars `bs..=be`.
pub open spec fn row_has_range(ls: Seq<Seq<char>>, r: int, bs: int, be: int) -> bool {
    bs <= be && spec_bars(ls[r]).len() > be
}

fn row_has_bar_range(line: &str, bar_start: usize, bar_end: usize) -> (b: bool)
    ensures
        b == (bar_start <= bar_end && spec_bars(line@).len() > bar_end),
{
    let bars = bar_spans_in_line(0, line);
    bars.len() > bar_end && bar_start <= bar_end
}

/// Whether every row `row_start..=row_end` of `lines` has bars `bar_start..=bar_end`.
pub fn rows_all_have_bar_range(lines: &[String], row_start: usize, row_end: usize, bar_start: usize, bar_end: usize) -> (b: bool)
    requires
        row_start <= row_end ==> row_end < lines@.len(),
    ensures
        b == rows_have_bar_range(string_views(lines@), row_start as int, row_end as int, bar_start as int, bar_end as int),
{
    let ghost ls = string_views(lines@);
    if row_start > row_end {
        return true;
    }
    let mut row = row_start;
    while row <= row_end
        invariant
            row_start <= row <= row_end + 1,
            row_end < lines@.len(),
            ls == string_views(lines@),
            forall|r: int| row_start <= r < row ==> #[trigger] row_has_range(ls, r, bar_start as int, bar_end as int),
        decreases row_end + 1 - row,
    {
        proof {
            assert(ls[row as int] == lines@[row as int]@);
        }
        if !row_has_bar_range(lines[row].as_str(), bar_start, bar_end) {
            assert(!row_has_range(ls, row as int, bar_start as int, bar_end as int));
            return false;
        }
        row += 1;
    }
    true
}

/// Row `i` of `ls` is a track header.
pub open spec fn header_at(ls: Seq<Seq<char>>) -> spec_fn(int) -> bool {
    |i: int| spec_track_header(ls[i]) is Some
}

/// The nearest track header at or above row `row`.
#[verifier::opaque]
pub open spec fn header_above(ls: Seq<Seq<char>>, row: int) -> Option<int> {
    last_where(row + 1, header_at(ls))
}

/// The track header of rows `rs..=re`, when they all have the same one.
pub open spec fn common_header(ls: Seq<Seq<char>>, rs: int, re: int) -> Option<int> {
    if rs > re {
        None
    } else if forall|r: int| rs <= r <= re ==> #[trigger] header_above(ls, r) == header_above(ls, rs) {
        header_above(ls, rs)
    } else {
        None
    }
}

proof fn lemma_header_above_bound(ls: Seq<Seq<char>>, row: int)
    ensures
        header_above(ls, row) matches Some(i) ==> 0 <= i <= row,
{
    reveal(header_above);
    crate::text::lemma_last_where_some(row + 1, header_at(ls));
}

fn header_row_above(lines: &[String], row: usize) -> (r: Option<usize>)
    requires
        row < lines@.len(),
    ensures
        match r {
            Some(h) => header_above(string_views(lines@), row as int) == Some(h as int),
            None => header_above(string_views(lines@), row as int) is None,
        },
{
    let ghost ls = string_views(lines@);
    let n = lines.len();
    let mut i = row + 1;
    while i > 0
        invariant
            i <= row + 1,
            row < n,
            n == lines@.len(),
            ls == string_views(lines@),
            forall|j: int| i <= j < row + 1 ==> !#[trigger] header_at(ls)(j),
        decreases i,
    {
        proof {
            assert(ls[i - 1] == lines@[i - 1]@);
        }
        if parse_track_header_channel(lines[i - 1].as_str()).is_some() {
            proof {
                assert(header_at(ls)(i - 1));
                lemma_last_where(row + 1, header_at(ls), i - 1);
                reveal(header_above);
            }
            return Some(i - 1);
        }
        assert(!header_at(ls)(i - 1));
        i -= 1;
    }
    proof {
        lemma_last_where(row + 1, header_at(ls), -1);
        reveal(header_above);
    }
    None
}

/// The track header row that rows `row_start..=row_end` share: `None` when one of
/// them has no header above it, or two have different ones.
pub fn common_track_header_row(lines: &[String], row_start: usize, row_end: usize) -> (r: Option<usize>)
    requires
        row_start <= row_end ==> row_end < lines@.len(),
    ensures
        match common_header(string_views(lines@), row_start as int, row_end as int) {
            Some(i) => r == Some(i as usize),
            None => r is None,
        },
{
    let ghost ls = string_views(lines@);
    if row_start > row_end {
        return None;
    }
    let first = match header_row_above(lines, row_start) {
        Some(h) => h,
        None => {
            return None;
        },
    };
    let n = lines.len();
    let mut row = row_start;
    while row <= row_end
        invariant
            row_start <= row <= row_end + 1,
            row_end < n,
            n == lines@.len(),
            ls == string_views(lines@),
            header_above(ls, row_start as int) == Some(first as int),
            forall|r: int| row_start <= r < row ==> #[trigger] header_above(ls, r) == header_above(ls, row_start as int),
        decreases row_end + 1 - row,
    {
        match header_row_above(lines, row) {
            Some(h) => {
                if h != first {
                    assert(header_above(ls, row as int) != header_above(ls, row_start as int));
                    return None;
                }
            },
            None => {
                assert(header_above(ls, row as int) != header_above(ls, row_start as int));
                return None;
            },
        }
        row += 1;
    }
    Some(first)
}

/// Why extracting bars to a template was refused.
#[derive(Clone, Copy, Debug, PartialEq, Eq, Structural)]
pub enum ExtractRefusal {
    NeedsBarSelection,
    NeedsMatchingBars,
    OneTrackAtATime,
}

impl ExtractRefusal {
    pub open spec fn spec_message(self) -> Seq<char> {
        match self {
            ExtractRefusal::NeedsBarSelection => "Template extraction applies to bar selection only"@,
            ExtractRefusal::NeedsMatchingBars => "Template extraction needs matching bars on every selected line"@,
            ExtractRefusal::OneTrackAtATime => "Template extraction currently supports one track at a time"@,
        }
    }

    /// What the status line says of the refusal.
    pub fn message(self) -> (r: &'static str)
        ensures
            r@ == self.spec_message(),
    {
        match self {
            ExtractRefusal::NeedsBarSelection => "Template extraction applies to bar selection only",
            ExtractRefusal::NeedsMatchingBars => "Template extraction needs matching bars on every selected line",
            ExtractRefusal::OneTrackAtATime => "Template extraction currently supports one track at a time",
        }
    }
}

/// What an extraction did: where the call of the new template stands, its name,
/// the track header row, and how many bars were extracted (at most `usize::MAX`).
#[derive(Clone, Debug, PartialEq, Eq)]
pub struct Extraction {
    pub call_row: usize,
    pub template_name: String,
    pub header_row: usize,
    pub bar_count: usize,
}

/// The rows and bars of a bar selection: `(first row, last row, first bar, last bar)`.
pub open spec fn bar_rect(sel: Option<StudioSelection>) -> (usize, usize, usize, usize) {
    match sel {
        Some(StudioSelection::Bar { span }) => (span.row, span.row, span.index, span.index),
        Some(StudioSelection::BarRange { anchor, focus }) => (
            min_u(anchor.row, focus.row),
            max_u(anchor.row, focus.row),
            min_u(anchor.index, focus.index),
            max_u(anchor.index, focus.index),
        ),
        _ => (0, 0, 0, 0),
    }
}

pub open spec fn is_bar_selection(sel: Option<StudioSelection>) -> bool {
    sel matches Some(StudioSelection::Bar { .. }) || sel matches Some(StudioSelection::BarRange { .. })
}

/// Why extracting the selected bars from `ls` is refused, if it is.
pub open spec fn extract_refusal(ls: Seq<Seq<char>>, sel: Option<StudioSelection>) -> Option<ExtractRefusal> {
    let (rs, re, bs, be) = bar_rect(sel);
    if !is_bar_selection(sel) || bar_runs(ls, sel).len() == 0 {
        Some(ExtractRefusal::NeedsBarSelection)
    } else if !rows_have_bar_range(ls, rs as int, re as int, bs as int, be as int) {
        Some(ExtractRefusal::NeedsMatchingBars)
    } else if common_header(ls, rs as int, re as int) is None {
        Some(ExtractRefusal::OneTrackAtATime)
    } else {
        None
    }
}

/// The score after the extraction: the cut rows in place of rows `rs..=re`, with a
/// call of the template after what stays before the bars; then, after a blank line
/// unless the score already ends with one, the template's header, a blank line and
/// its lines.
pub open spec fn extracted_score(ls: Seq<Seq<char>>, rs: int, re: int, bs: int, be: int, name: Seq<char>) -> Seq<Seq<char>> {
    let parts = rect_rows(ls, rs, rect_end(ls, re), bs, be);
    let body = ls.take(rs) + parts.0 + seq!["[@"@ + name + "]"@] + parts.2 + ls.skip(re + 1);
    let spaced = if trim(body.last()).len() == 0 { body } else { body.push(Seq::empty()) };
    spaced + seq!["# @"@ + name, Seq::empty()] + parts.1
}

/// How many bars the runs hold together (at most `usize::MAX`).
fn runs_bar_total(runs: &[(usize, usize, usize)]) -> (total: usize)
    requires
        forall|j: int| 0 <= j < runs@.len() ==> (#[trigger] runs@[j]).1 <= runs@[j].2 < usize::MAX,
    ensures
        total == saturated(runs_total(run_view(runs@))),
{
    let mut total: usize = 0;
    let mut k: usize = 0;
    let ghost rv = run_view(runs@);
    while k < runs.len()
        invariant
            k <= runs@.len(),
            rv == run_view(runs@),
            forall|j: int| 0 <= j < runs@.len() ==> (#[trigger] runs@[j]).1 <= runs@[j].2 < usize::MAX,
            total == saturated(runs_total(rv.take(k as int))),
        decreases runs@.len() - k,
    {
        let (_, lo, hi) = runs[k];
        proof {
            assert(rv.take(k as int + 1).drop_last() =~= rv.take(k as int));
            assert(rv[k as int] == (runs@[k as int].0 as int, lo as int, hi as int));
        }
        total = total.saturating_add(hi - lo + 1);
        k += 1;
    }
    proof {
        assert(rv.take(runs@.len() as int) =~= rv);
    }
    total
}

/// Appends rows `from..to` of `src` to `out`.
fn push_rows(out: &mut Vec<String>, src: &[String], from: usize, to: usize)
    requires
        from <= to <= src@.len(),
    ensures
        string_views(final(out)@) == string_views(old(out)@) + string_views(src@).subrange(from as int, to as int),
{
    let ghost o = string_views(out@);
    let ghost ss = string_views(src@);
    let mut i = from;
    while i < to
        invariant
            from <= i <= to,
            to <= src@.len(),
            ss == string_views(src@),
            string_views(out@) == o + ss.subrange(from as int, i as int),
        decreases to - i,
    {
        let ghost before = out@;
        let l = src[i].clone();
        out.push(l);
        proof {
            assert(string_views(out@) =~= string_views(before).push(src@[i as int]@));
            assert(string_views(out@) =~= o + ss.subrange(from as int, i as int + 1));
        }
        i += 1;
    }
}

/// The score after the extraction (see `extracted_score`), from the cut parts.
fn assemble_extraction(
    lines: &[String],
    rs: usize,
    re: usize,
    name: &str,
    extraction: &crate::studio::template_ops::TemplateExtraction,
) -> (out: Vec<String>)
    requires
        rs <= re < lines@.len(),
    ensures
        string_views(out@) == ({
            let ls = string_views(lines@);
            let body = ls.take(rs as int) + string_views(extraction.before_lines@) + seq!["[@"@ + name@ + "]"@]
                + string_views(extraction.after_lines@) + ls.skip(re + 1);
            let spaced = if trim(body.last()).len() == 0 { body } else { body.push(Seq::empty()) };
            spaced + seq!["# @"@ + name@, Seq::empty()] + string_views(extraction.template_lines@)
        }),
{
    let ghost ls = string_views(lines@);
    let mut out: Vec<String> = Vec::new();
    push_rows(&mut out, lines, 0, rs);
    let nb = extraction.before_lines.len();
    push_rows(&mut out, extraction.before_lines.as_slice(), 0, nb);
    let mut call = chars_of("[@");
    crate::text::append(&mut call, &chars_of(name));
    call.push(']');
    let call_line = string_of(&call);
    proof {
        reveal_strlit("[@");
        reveal_strlit("]");
        assert(call_line@ =~= "[@"@ + name@ + "]"@);
    }
    let ghost o1 = out@;
    out.push(call_line);
    proof {
        assert(string_views(out@) =~= string_views(o1).push(call_line@));
    }
    let na = extraction.after_lines.len();
    push_rows(&mut out, extraction.after_lines.as_slice(), 0, na);
    let nl = lines.len();
    push_rows(&mut out, lines, re + 1, nl);
    let ghost body = string_views(out@);
    proof {
        assert(string_views(extraction.before_lines@).subrange(0, nb as int) =~= string_views(extraction.before_lines@));
        assert(string_views(extraction.after_lines@).subrange(0, na as int) =~= string_views(extraction.after_lines@));
        assert(ls.subrange(0, rs as int) =~= ls.take(rs as int));
        assert(ls.subrange(re + 1, nl as int) =~= ls.skip(re + 1));
        assert(body =~= ls.take(rs as int) + string_views(extraction.before_lines@) + seq!["[@"@ + name@ + "]"@]
            + string_views(extraction.after_lines@) + ls.skip(re + 1));
    }
    let last_blank = trimmed(&chars_of(out[out.len() - 1].as_str())).len() == 0;
    let ghost o2 = out@;
    if !last_blank {
        out.push(String::new());
    }
    let ghost spaced = string_views(out@);
    proof {
        assert(body.last() == o2[o2.len() - 1]@);
        if last_blank {
            assert(spaced =~= body);
        } else {
            assert(spaced =~= body.push(Seq::empty()));
        }
    }
    let mut header_line = chars_of("# @");
    crate::text::append(&mut header_line, &chars_of(name));
    let header_text = string_of(&header_line);
    out.push(header_text);
    out.push(String::new());
    proof {
        reveal_strlit("# @");
        assert(string_views(out@) =~= spaced + seq!["# @"@ + name@, Seq::<char>::empty()]);
    }
    let ghost o3 = string_views(out@);
    let nt = extraction.template_lines.len();
    push_rows(&mut out, extraction.template_lines.as_slice(), 0, nt);
    proof {
        assert(string_views(extraction.template_lines@).subrange(0, nt as int) =~= string_views(extraction.template_lines@));
    }
    out
}

/// Extracts the selected bars (a bar or a rectangle of bars, on rows that all have
/// them and share one track) into a new template.
pub fn extract_bars_to_template(lines: &mut Vec<String>, selection: &Option<StudioSelection>) -> (r: Result<Extraction, ExtractRefusal>)
    requires
        ({
            let (rs, re, bs, be) = bar_rect(*selection);
            is_bar_selection(*selection) && bar_runs(string_views(old(lines)@), *selection).len() > 0 ==> re < old(lines)@.len()
        }),
    ensures
        ({
            let ls = string_views(old(lines)@);
            let (rs, re, bs, be) = bar_rect(*selection);
            match extract_refusal(ls, *selection) {
                Some(e) => r == Err::<Extraction, ExtractRefusal>(e) && final(lines)@ == old(lines)@,
                None => {
                    let h = common_header(ls, rs as int, re as int)->0;
                    let name = next_name(ls, preferred_base(ls, h, rs as int, re as int));
                    let parts = rect_rows(ls, rs as int, rect_end(ls, re as int), bs as int, be as int);
                    &&& string_views(final(lines)@) == extracted_score(ls, rs as int, re as int, bs as int, be as int, name)
                    &&& r matches Ok(x) && x.template_name@ == name && x.header_row == h && x.call_row == rs + parts.0.len()
                        && x.bar_count == saturated(runs_total(bar_runs(ls, *selection)))
                },
            }
        }),
{
    let ghost ls = string_views(lines@);
    let (rs, re, bs, be) = match selection {
        Some(StudioSelection::Bar { span }) => (span.row, span.row, span.index, span.index),
        Some(StudioSelection::BarRange { anchor, focus }) => (
            if anchor.row <= focus.row { anchor.row } else { focus.row },
            if anchor.row <= focus.row { focus.row } else { anchor.row },
            if anchor.index <= focus.index { anchor.index } else { focus.index },
            if anchor.index <= focus.index { focus.index } else { anchor.index },
        ),
        _ => {
            return Err(ExtractRefusal::NeedsBarSelection);
        },
    };
    assert((rs, re, bs, be) == bar_rect(*selection));
    assert(rs <= re);
    let runs = selected_bar_runs(lines.as_slice(), selection);
    if runs.len() == 0 {
        return Err(ExtractRefusal::NeedsBarSelection);
    }
    let n_lines = lines.len();
    assert(re < n_lines);
    let total = runs_bar_total(runs.as_slice());
    if !rows_all_have_bar_range(lines.as_slice(), rs, re, bs, be) {
        return Err(ExtractRefusal::NeedsMatchingBars);
    }
    let header = match common_track_header_row(lines.as_slice(), rs, re) {
        Some(h) => h,
        None => {
            return Err(ExtractRefusal::OneTrackAtATime);
        },
    };
    proof {
        lemma_header_above_bound(ls, rs as int);
    }
    let name = next_template_name(lines.as_slice(), header, rs, re);
    proof {
        assert forall|k: int| rs <= k < rect_end(ls, re as int) implies row_has_bars(ls, k, bs as int, be as int) by {
            assert(row_has_range(ls, k, bs as int, be as int));
        }
    }
    let extraction = extract_bar_rectangle(lines.as_slice(), rs, re, bs, be);
    let ghost parts = rect_rows(ls, rs as int, rect_end(ls, re as int), bs as int, be as int);
    proof {
        crate::studio::template_ops::lemma_rect_rows_len(ls, rs as int, rect_end(ls, re as int), bs as int, be as int);
    }
    let call_row = rs + extraction.before_lines.len();
    let out = assemble_extraction(lines.as_slice(), rs, re, name.as_str(), &extraction);
    proof {
        assert(string_views(out@) == extracted_score(ls, rs as int, re as int, bs as int, be as int, name@));
    }
    *lines = out;
    Ok(Extraction { call_row, template_name: name, header_row: header, bar_count: total })
}

} // verus!
