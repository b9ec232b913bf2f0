//! What the preview plays a row of the score with: the enclosing track's channel,
//! program and controllers, as its header and initialisation lines set them.
use vstd::prelude::*;
use crate::studio::note_entry::{ends_track, program_applied, program_row, spec_is_program_line, track_end_from};
use crate::studio::preview::{PreviewControlState, PreviewControls, PreviewTarget};
use crate::studio::settings::{parse_track_header, spec_track_header};
use crate::studio::track_init::{spec_init_event, track_init_event_of_line, TrackInitEvent};
use crate::text::{
    chars_of, decimal, is_digit, is_prefix, is_ws, last_where, lemma_decimal_value, lemma_last_where,
    lemma_lead_ws_unique, lemma_trail_ws_unique, lemma_words_first, starts_with, string_views, to_lower,
    trim, trimmed, words,
};

verus! {

/// The track that the preview plays a row with.
#[derive(Clone, Debug, PartialEq, Eq)]
pub struct PreviewTrackContext {
    pub track_header_row: usize,
    pub track_name: String,
    /// 0-based.
    pub channel: u8,
    pub source_program: Option<u8>,
    pub controls: PreviewControls,
}

/// The preview target that a controller number drives: 7 volume, 10 pan,
/// 11 expression, 1 mod.
pub open spec fn spec_target_for_cc(cc: u8) -> Option<PreviewTarget> {
    if cc == 7 {
        Some(PreviewTarget::Volume)
    } else if cc == 10 {
        Some(PreviewTarget::Pan)
    } else if cc == 11 {
        Some(PreviewTarget::Expression)
    } else if cc == 1 {
        Some(PreviewTarget::Mod)
    } else {
        None
    }
}

pub fn preview_target_for_cc(cc: u8) -> (r: Option<PreviewTarget>)
    ensures
        r == spec_target_for_cc(cc),
{
    match cc {
        7 => Some(PreviewTarget::Volume),
        10 => Some(PreviewTarget::Pan),
        11 => Some(PreviewTarget::Expression),
        1 => Some(PreviewTarget::Mod),
        _ => None,
    }
}

/// Row `i` opens a track or a template section.
pub open spec fn marker_at(ls: Seq<Seq<char>>) -> spec_fn(int) -> bool {
    |i: int| ends_track(ls[i])
}

/// The header row of the track that `row` belongs to: the last row at or above
/// `row` that opens a track or a template section, when it opens a track.
pub open spec fn context_header(ls: Seq<Seq<char>>, row: int) -> Option<int> {
    let n = if row + 1 < ls.len() { row + 1 } else { ls.len() as int };
    match last_where(n, marker_at(ls)) {
        Some(i) => if spec_track_header(ls[i]) is Some {
            Some(i)
        } else {
            None
        },
        None => None,
    }
}

proof fn lemma_track_end_bound(ls: Seq<Seq<char>>, from: int)
    requires
        0 <= from,
    ensures
        from <= track_end_from(ls, from) || from > ls.len(),
        track_end_from(ls, from) <= ls.len(),
    decreases ls.len() - from,
{
    if from < ls.len() && !ends_track(ls[from]) {
        lemma_track_end_bound(ls, from + 1);
    }
}

/// The program of the first program line among rows `from..end`.
pub open spec fn first_program(ls: Seq<Seq<char>>, from: int, end: int) -> Option<u8>
    decreases end - from,
{
    if from >= end || from < 0 || from >= ls.len() {
        None
    } else {
        match spec_init_event(ls[from]) {
            Some(TrackInitEvent::ProgramChange { program }) => Some(program),
            _ => first_program(ls, from + 1, end),
        }
    }
}

/// The value of the first line among rows `from..end` that sets the controller
/// which drives `target`.
pub open spec fn first_control(ls: Seq<Seq<char>>, from: int, end: int, target: PreviewTarget) -> Option<u8>
    decreases end - from,
{
    if from >= end || from < 0 || from >= ls.len() {
        None
    } else {
        match spec_init_event(ls[from]) {
            Some(TrackInitEvent::ControlChange { cc, value }) => if spec_target_for_cc(cc) == Some(target) {
                Some(value)
            } else {
                first_control(ls, from + 1, end, target)
            },
            _ => first_control(ls, from + 1, end, target),
        }
    }
}

/// The controllers as the rows `from..end` set them.
pub open spec fn controls_of(ls: Seq<Seq<char>>, from: int, end: int) -> PreviewControls {
    PreviewControls {
        volume: PreviewControlState {
            source: first_control(ls, from, end, PreviewTarget::Volume),
            override_value: None,
        },
        pan: PreviewControlState { source: first_control(ls, from, end, PreviewTarget::Pan), override_value: None },
        expression: PreviewControlState {
            source: first_control(ls, from, end, PreviewTarget::Expression),
            override_value: None,
        },
        mod_wheel: PreviewControlState {
            source: first_control(ls, from, end, PreviewTarget::Mod),
            override_value: None,
        },
    }
}

fn marker_row(lines: &[String], i: usize) -> (b: bool)
    requires
        i < lines@.len(),
    ensures
        b == ends_track(string_views(lines@)[i as int]),
{
    assert(string_views(lines@)[i as int] == lines@[i as int]@);
    parse_track_header(lines[i].as_str()).is_some() || starts_with(
        &trimmed(&chars_of(lines[i].as_str())),
        &chars_of("# @"),
    )
}

/// The last row at or above `row` that opens a track or a template section.
fn last_marker_upto(lines: &[String], row: usize) -> (r: Option<usize>)
    requires
        row < usize::MAX,
    ensures
        ({
            let ls = string_views(lines@);
            let n = if row + 1 < ls.len() { row + 1 } else { ls.len() as int };
            match last_where(n, marker_at(ls)) {
                Some(i) => r == Some(i as usize) && 0 <= i < ls.len(),
                None => r is None,
            }
        }),
{
    let ghost ls = string_views(lines@);
    let ghost p = marker_at(ls);
    let n = if row + 1 < lines.len() {
        row + 1
    } else {
        lines.len()
    };
    let mut k: usize = n;
    while k > 0
        invariant
            k <= n <= lines@.len(),
            n == (if row + 1 < ls.len() { row + 1 } else { ls.len() as int }),
            ls == string_views(lines@),
            p == marker_at(ls),
            forall|j: int| k <= j < n ==> !#[trigger] p(j),
        decreases k,
    {
        let i = k - 1;
        if marker_row(lines, i) {
            proof {
                lemma_last_where(n as int, p, i as int);
            }
            return Some(i);
        }
        k -= 1;
    }
    proof {
        lemma_last_where(n as int, p, -1);
    }
    None
}

/// The track that the preview plays `row` with: the header of the track that
/// encloses the row (none above a template section or before the first track),
/// and the first program and the first value of each previewed controller that
/// the track's initialisation lines set.
pub fn preview_track_context(lines: &[String], row: usize) -> (r: Option<PreviewTrackContext>)
    requires
        row < usize::MAX,
    ensures
        ({
            let ls = string_views(lines@);
            match context_header(ls, row as int) {
                None => r is None,
                Some(h) => r matches Some(c) && spec_track_header(ls[h]) matches Some(
                    (name, channel, _, _),
                ) && c.track_header_row == h && c.track_name@ == name && c.channel == channel - 1
                    && c.source_program == first_program(ls, h + 1, track_end_from(ls, h + 1))
                    && c.controls == controls_of(ls, h + 1, track_end_from(ls, h + 1)),
            }
        }),
{
    let ghost ls = string_views(lines@);
    let h = match last_marker_upto(lines, row) {
        Some(i) => i,
        None => return None,
    };
    assert(ls[h as int] == lines@[h as int]@);
    let header = match parse_track_header(lines[h].as_str()) {
        Some(t) => t,
        None => return None,
    };
    let mut program: Option<u8> = None;
    let mut controls = PreviewControls::default();
    let from = h + 1;
    let mut i = from;
    while i < lines.len() && !marker_row(lines, i)
        invariant
            from <= i <= lines@.len(),
            from == h + 1,
            h < lines@.len(),
            ls == string_views(lines@),
            track_end_from(ls, from as int) == track_end_from(ls, i as int),
            match program {
                Some(p) => first_program(ls, from as int, track_end_from(ls, from as int)) == Some(p),
                None => first_program(ls, from as int, track_end_from(ls, from as int)) == first_program(
                    ls,
                    i as int,
                    track_end_from(ls, from as int),
                ),
            },
            forall|t: PreviewTarget| #[trigger]
                controls.spec_get(t) matches Some(s) ==> s.override_value is None && match s.source {
                    Some(v) => first_control(ls, from as int, track_end_from(ls, from as int), t) == Some(v),
                    None => first_control(ls, from as int, track_end_from(ls, from as int), t)
                        == first_control(ls, i as int, track_end_from(ls, from as int), t),
                },
        decreases lines@.len() - i,
    {
        let ghost end = track_end_from(ls, from as int);
        assert(ls[i as int] == lines@[i as int]@);
        assert(end == track_end_from(ls, i + 1));
        proof {
            lemma_track_end_bound(ls, i + 1);
        }
        assert(i < end);
        match track_init_event_of_line(lines[i].as_str()) {
            Some(TrackInitEvent::ProgramChange { program: p }) => {
                if program.is_none() {
                    program = Some(p);
                }
            },
            Some(TrackInitEvent::ControlChange { cc, value }) => {
                if let Some(target) = preview_target_for_cc(cc) {
                    if let Some(state) = controls.get(target) {
                        if state.source.is_none() {
                            controls.set(target, PreviewControlState { source: Some(value), ..state });
                        }
                    }
                }
            },
            _ => {},
        }
        i += 1;
    }
    proof {
        assert(i == track_end_from(ls, i as int));
    }
    let ghost end = track_end_from(ls, from as int);
    assert(first_program(ls, i as int, end) is None);
    assert(forall|t: PreviewTarget| first_control(ls, i as int, end, t) is None);
    assert(controls.spec_get(PreviewTarget::Volume) matches Some(s) && s == controls.volume);
    assert(controls.spec_get(PreviewTarget::Pan) matches Some(s) && s == controls.pan);
    assert(controls.spec_get(PreviewTarget::Expression) matches Some(s) && s == controls.expression);
    assert(controls.spec_get(PreviewTarget::Mod) matches Some(s) && s == controls.mod_wheel);
    Some(
        PreviewTrackContext {
            track_header_row: h,
            track_name: header.name,
            channel: header.channel - 1,
            source_program: program,
            controls: controls,
        },
    )
}

// ---------------------------------------------------------------------------
// Setting a track's program, then previewing the track
// ---------------------------------------------------------------------------

proof fn lemma_pc_line_trimmed(d: Seq<char>)
    requires
        d.len() > 0,
        is_digit(d.last()),
    ensures
        trim("## pc "@ + d) == "## pc "@ + d,
        is_prefix("## "@, "## pc "@ + d),
        !ends_track("## pc "@ + d),
{
    reveal_strlit("## pc ");
    reveal_strlit("## ");
    reveal_strlit("##");
    reveal_strlit("# @");
    let line = "## pc "@ + d;
    assert(line[0] == '#');
    lemma_lead_ws_unique(line, 0);
    assert(line.last() == d.last());
    lemma_trail_ws_unique(line, 0);
    assert(trim(line) =~= line);
    assert(line.take(3) =~= "## "@);
    assert(line.take(2) =~= "##"@);
    assert(line.take(3) != "# @"@) by {
        assert(line.take(3)[1] != "# @"@[1]);
    }
}

proof fn lemma_pc_line_words(d: Seq<char>)
    requires
        d.len() > 0,
        forall|i: int| 0 <= i < d.len() ==> !is_ws(#[trigger] d[i]),
    ensures
        words(("## pc "@ + d).skip(3)) == seq!["pc"@, d],
{
    reveal_strlit("## pc ");
    reveal_strlit("pc");
    let body = ("## pc "@ + d).skip(3);
    lemma_words_first(seq![], "pc"@, seq![' '] + d);
    assert(body =~= seq![] + "pc"@ + (seq![' '] + d));
    lemma_words_first(seq![' '], d, seq![]);
    assert(seq![' '] + d =~= seq![' '] + d + seq![]);
    assert(words(Seq::<char>::empty()) =~= Seq::<Seq<char>>::empty());
    assert(words(body) =~= seq!["pc"@, d]);
}

/// The program line written for program `p` sets program `p`, and it does not
/// end a track.
proof fn lemma_program_line_event(p: u8)
    requires
        p <= 127,
    ensures
        spec_init_event("## pc "@ + decimal(p as nat)) == Some(TrackInitEvent::ProgramChange { program: p }),
        !ends_track("## pc "@ + decimal(p as nat)),
{
    reveal_strlit("pc");
    let d = decimal(p as nat);
    lemma_decimal_value(p as nat);
    assert(is_digit(d[d.len() - 1]));
    assert forall|i: int| 0 <= i < d.len() implies !is_ws(#[trigger] d[i]) by {
        assert(is_digit(d[i]));
    }
    lemma_pc_line_trimmed(d);
    lemma_pc_line_words(d);
    let ws = seq!["pc"@, d];
    assert(ws[0].map_values(|c: char| to_lower(c)) =~= "pc"@);
    assert(ws.drop_first() =~= seq![d]);
    assert(is_digit(d[0]));
}

/// A line that sets a program is a program line.
proof fn lemma_program_event_is_program_line(l: Seq<char>)
    requires
        spec_init_event(l) matches Some(TrackInitEvent::ProgramChange { .. }),
    ensures
        spec_is_program_line(l),
{
}

/// A program line does not end a track.
proof fn lemma_program_line_in_track(l: Seq<char>)
    requires
        spec_is_program_line(l),
    ensures
        !ends_track(l),
{
    reveal_strlit("## ");
    reveal_strlit("##");
    reveal_strlit("# @");
    let t = trim(l);
    assert(t.take(3) =~= "## "@);
    assert(t.take(2) =~= "##"@);
    assert(t.take(3) != "# @"@) by {
        assert(t.take(3)[1] != "# @"@[1]);
    }
    assert(trim(l) == t);
}

proof fn lemma_program_row(ls: Seq<Seq<char>>, from: int, end: int)
    ensures
        program_row(ls, from, end) matches Some(r) ==> from <= r < end && r < ls.len()
            && spec_is_program_line(ls[r])
            && forall|j: int| from <= j < r ==> !spec_is_program_line(#[trigger] ls[j]),
    decreases end - from,
{
    if !(from >= end || from < 0 || from >= ls.len()) && !spec_is_program_line(ls[from]) {
        lemma_program_row(ls, from + 1, end);
    }
}

proof fn lemma_first_program_at(ls: Seq<Seq<char>>, from: int, end: int, r: int, p: u8)
    requires
        0 <= from <= r < end,
        r < ls.len(),
        forall|j: int| from <= j < r ==> !spec_is_program_line(#[trigger] ls[j]),
        spec_init_event(ls[r]) == Some(TrackInitEvent::ProgramChange { program: p }),
    ensures
        first_program(ls, from, end) == Some(p),
    decreases r - from,
{
    if from < r {
        if spec_init_event(ls[from]) matches Some(TrackInitEvent::ProgramChange { .. }) {
            lemma_program_event_is_program_line(ls[from]);
        }
        lemma_first_program_at(ls, from + 1, end, r, p);
    }
}

proof fn lemma_track_end_update(ls: Seq<Seq<char>>, from: int, r: int, x: Seq<char>)
    requires
        0 <= from,
        0 <= r < ls.len(),
        !ends_track(ls[r]),
        !ends_track(x),
    ensures
        track_end_from(ls.update(r, x), from) == track_end_from(ls, from),
    decreases ls.len() - from,
{
    let t = ls.update(r, x);
    if from < ls.len() {
        assert(ends_track(t[from]) == ends_track(ls[from]));
        lemma_track_end_update(ls, from + 1, r, x);
    }
}

/// Setting the program of a track and then previewing the track's header row
/// plays the track with that program (a MIDI program, `0..=127`).
pub proof fn set_program_is_previewed(ls: Seq<Seq<char>>, h: int, program: u8)
    requires
        program <= 127,
        0 <= h < ls.len(),
        spec_track_header(ls[h]) is Some,
    ensures
        program_applied(ls, h, program) matches Some((t, _)) && context_header(t, h) == Some(h)
            && first_program(t, h + 1, track_end_from(t, h + 1)) == Some(program),
{
    let line = "## pc "@ + decimal(program as nat);
    lemma_program_line_event(program);
    let end = track_end_from(ls, h + 1);
    lemma_program_row(ls, h + 1, end);
    let t = match program_row(ls, h + 1, end) {
        Some(r) => {
            lemma_program_line_in_track(ls[r]);
            lemma_track_end_update(ls, h + 1, r, line);
            let t = ls.update(r, line);
            assert forall|j: int| h + 1 <= j < r implies !spec_is_program_line(#[trigger] t[j]) by {
                assert(t[j] == ls[j]);
            }
            lemma_first_program_at(t, h + 1, end, r, program);
            t
        },
        None => {
            let t = ls.insert(h + 1, line);
            assert(t[h + 1] == line);
            lemma_track_end_bound(t, h + 2);
            assert(track_end_from(t, h + 1) == track_end_from(t, h + 2));
            t
        },
    };
    assert(program_applied(ls, h, program) matches Some((u, _)) && u == t);
    assert(t[h] == ls[h]);
    lemma_last_where(h + 1, marker_at(t), h);
}

} // verus!
