//! Yanking and pasting units, bars and template calls, and deleting bars: the
//! edits on the score lines and what the status line reports of them.
use vstd::prelude::*;
use crate::studio::selection::{
    bar_spans_in_line, bars_are, char_range, clamp_col, insert_at_col, replace_char_range, replaced, spec_bars, BarSpan,
    UnitSpan,
};
use crate::studio::selection_model::{
    max_u, min_u, StudioSelection, unit_yank_context_matches, unit_yank_context_of, yank_context, yank_context_fits, UnitYankContext,
};
use crate::studio::template_ops::{scan_calls, template_call_positions_after_duplication, TemplateCallSpan};
use crate::text::{append, chars_of, decimal, decimal_chars, string_of, string_views};

verus! {

/// `"{verb} {n} {noun}"`, with an `s` after the noun unless `n` is one.
pub open spec fn counted(verb: Seq<char>, n: nat, noun: Seq<char>) -> Seq<char> {
    verb + seq![' '] + decimal(n) + seq![' '] + noun + (if n == 1 { Seq::<char>::empty() } else { seq!['s'] })
}

/// A status line that counts what an edit touched, such as `Deleted 2 bars`.
pub fn count_label(verb: &str, n: usize, noun: &str) -> (r: String)
    ensures
        r@ == counted(verb@, n as nat, noun@),
{
    let mut v = chars_of(verb);
    v.push(' ');
    let d = decimal_chars(n as u64);
    append(&mut v, &d);
    v.push(' ');
    let w = chars_of(noun);
    append(&mut v, &w);
    if n != 1 {
        v.push('s');
    }
    string_of(&v)
}

/// The pieces joined by single spaces.
pub open spec fn joined(pieces: Seq<Seq<char>>) -> Seq<char>
    decreases pieces.len(),
{
    if pieces.len() == 0 {
        Seq::empty()
    } else if pieces.len() == 1 {
        pieces[0]
    } else {
        joined(pieces.drop_last()) + seq![' '] + pieces.last()
    }
}

/// What a paste inserts after its target: a space, then the pieces joined by
/// spaces.
pub open spec fn paste_text(pieces: Seq<Seq<char>>) -> Seq<char> {
    seq![' '] + joined(pieces)
}

/// The text that pasting `pieces` inserts after the target.
pub fn paste_insertion(pieces: &[String]) -> (r: String)
    ensures
        r@ == paste_text(string_views(pieces@)),
{
    let ghost ps = string_views(pieces@);
    let mut v: Vec<char> = Vec::new();
    let mut i: usize = 0;
    while i < pieces.len()
        invariant
            i <= pieces@.len(),
            ps == string_views(pieces@),
            v@ == joined(ps.take(i as int)),
        decreases pieces@.len() - i,
    {
        let p = chars_of(pieces[i].as_str());
        if i > 0 {
            v.push(' ');
        }
        append(&mut v, &p);
        proof {
            assert(ps.take(i as int + 1).drop_last() =~= ps.take(i as int));
            if i == 0 {
                assert(ps.take(1) =~= seq![ps[0]]);
            }
        }
        i += 1;
    }
    proof {
        assert(ps.take(pieces@.len() as int) =~= ps);
    }
    let mut out: Vec<char> = Vec::new();
    out.push(' ');
    append(&mut out, &v);
    string_of(&out)
}

// ---------------------------------------------------------------------------
// Deleting bars
// ---------------------------------------------------------------------------

/// Why a yank, a paste or a bar deletion was refused.
#[derive(Clone, Copy, Debug, PartialEq, Eq, Structural)]
pub enum ClipboardRefusal {
    NothingYanked,
    ExpectsYankedBars,
    ExpectsYankedCalls,
    ExpectsYankedUnits,
    UnitYankNeedsUnits,
    UnitYankOneLine,
    UnitYankKind,
    UnitGone,
    UnitPasteNeedsUnits,
    UnitPasteOneLine,
    UnitsDoNotFitSelection,
    UnitsDoNotFitCursor,
    PasteNeedsUnitAtCursor,
    CallYankNeedsCalls,
    CallYankOneLine,
    CallPasteNeedsCalls,
    CallPasteOneLine,
    CallGone,
    PasteNeedsCallAtCursor,
    BarDeleteNeedsBars,
    BarDeleteOneLine,
    AllBarsOnLine,
    BarGone,
    BarYankNeedsBars,
    BarPasteNeedsBars,
    BarRowsMismatch,
    MultiRowBarPaste,
    PasteNeedsBarAtCursor,
}

impl ClipboardRefusal {
    pub open spec fn spec_message(self) -> Seq<char> {
        match self {
            ClipboardRefusal::NothingYanked => "Nothing yanked"@,
            ClipboardRefusal::ExpectsYankedBars => "Current selection expects yanked bars"@,
            ClipboardRefusal::ExpectsYankedCalls => "Current selection expects yanked template calls"@,
            ClipboardRefusal::ExpectsYankedUnits => "Current selection expects yanked units"@,
            ClipboardRefusal::UnitYankNeedsUnits => "y applies to unit selection only"@,
            ClipboardRefusal::UnitYankOneLine => "Yank currently supports one line at a time"@,
            ClipboardRefusal::UnitYankKind => "Yank currently supports seq, modifier, or lane body units only"@,
            ClipboardRefusal::UnitGone => "Selected unit no longer exists"@,
            ClipboardRefusal::UnitPasteNeedsUnits => "p applies to unit selection only"@,
            ClipboardRefusal::UnitPasteOneLine => "Paste currently supports one line at a time"@,
            ClipboardRefusal::UnitsDoNotFitSelection => "Yanked units do not fit the current selection"@,
            ClipboardRefusal::UnitsDoNotFitCursor => "Yanked units do not fit the current cursor target"@,
            ClipboardRefusal::PasteNeedsUnitAtCursor => "Paste needs the cursor on a unit"@,
            ClipboardRefusal::CallYankNeedsCalls => "y applies to template call selection only"@,
            ClipboardRefusal::CallYankOneLine => "Yank currently supports one template line at a time"@,
            ClipboardRefusal::CallPasteNeedsCalls => "p applies to template call selection only"@,
            ClipboardRefusal::CallPasteOneLine => "Paste currently supports one template line at a time"@,
            ClipboardRefusal::CallGone => "Selected template call no longer exists"@,
            ClipboardRefusal::PasteNeedsCallAtCursor => "Paste needs the cursor on a template call"@,
            ClipboardRefusal::BarDeleteNeedsBars => "x applies to bar selection only"@,
            ClipboardRefusal::BarDeleteOneLine => "Bar delete currently supports one line at a time"@,
            ClipboardRefusal::AllBarsOnLine => "Cannot delete all bars on a line"@,
            ClipboardRefusal::BarGone => "Selected bar no longer exists"@,
            ClipboardRefusal::BarYankNeedsBars => "y applies to bar selection only"@,
            ClipboardRefusal::BarPasteNeedsBars => "p applies to bar selection only"@,
            ClipboardRefusal::BarRowsMismatch => "Yanked bars need the same number of selected rows"@,
            ClipboardRefusal::MultiRowBarPaste => "Multi-row bar paste needs bar selection"@,
            ClipboardRefusal::PasteNeedsBarAtCursor => "Paste needs the cursor on a bar"@,
        }
    }

    /// What the status line says of the refusal.
    pub fn message(self) -> (r: &'static str)
        ensures
            r@ == self.spec_message(),
    {
        match self {
            ClipboardRefusal::NothingYanked => "Nothing yanked",
            ClipboardRefusal::ExpectsYankedBars => "Current selection expects yanked bars",
            ClipboardRefusal::ExpectsYankedCalls => "Current selection expects yanked template calls",
            ClipboardRefusal::ExpectsYankedUnits => "Current selection expects yanked units",
            ClipboardRefusal::UnitYankNeedsUnits => "y applies to unit selection only",
            ClipboardRefusal::UnitYankOneLine => "Yank currently supports one line at a time",
            ClipboardRefusal::UnitYankKind => "Yank currently supports seq, modifier, or lane body units only",
            ClipboardRefusal::UnitGone => "Selected unit no longer exists",
            ClipboardRefusal::UnitPasteNeedsUnits => "p applies to unit selection only",
            ClipboardRefusal::UnitPasteOneLine => "Paste currently supports one line at a time",
            ClipboardRefusal::UnitsDoNotFitSelection => "Yanked units do not fit the current selection",
            ClipboardRefusal::UnitsDoNotFitCursor => "Yanked units do not fit the current cursor target",
            ClipboardRefusal::PasteNeedsUnitAtCursor => "Paste needs the cursor on a unit",
            ClipboardRefusal::CallYankNeedsCalls => "y applies to template call selection only",
            ClipboardRefusal::CallYankOneLine => "Yank currently supports one template line at a time",
            ClipboardRefusal::CallPasteNeedsCalls => "p applies to template call selection only",
            ClipboardRefusal::CallPasteOneLine => "Paste currently supports one template line at a time",
            ClipboardRefusal::CallGone => "Selected template call no longer exists",
            ClipboardRefusal::PasteNeedsCallAtCursor => "Paste needs the cursor on a template call",
            ClipboardRefusal::BarDeleteNeedsBars => "x applies to bar selection only",
            ClipboardRefusal::BarDeleteOneLine => "Bar delete currently supports one line at a time",
            ClipboardRefusal::AllBarsOnLine => "Cannot delete all bars on a line",
            ClipboardRefusal::BarGone => "Selected bar no longer exists",
            ClipboardRefusal::BarYankNeedsBars => "y applies to bar selection only",
            ClipboardRefusal::BarPasteNeedsBars => "p applies to bar selection only",
            ClipboardRefusal::BarRowsMismatch => "Yanked bars need the same number of selected rows",
            ClipboardRefusal::MultiRowBarPaste => "Multi-row bar paste needs bar selection",
            ClipboardRefusal::PasteNeedsBarAtCursor => "Paste needs the cursor on a bar",
        }
    }
}

/// The number of bars on row `row` of `ls` (none on a row past the end).
pub open spec fn bars_on_row(ls: Seq<Seq<char>>, row: int) -> nat {
    if 0 <= row < ls.len() {
        spec_bars(ls[row]).len()
    } else {
        0
    }
}

/// All the bars are on the row of the first.
pub open spec fn bars_on_one_row(bars: Seq<BarSpan>) -> bool {
    forall|k: int| 0 <= k < bars.len() ==> (#[trigger] bars[k]).row == bars[0].row
}

/// Why deleting `bars` from `ls` is refused, if it is.
pub open spec fn bar_delete_refusal(ls: Seq<Seq<char>>, bars: Seq<BarSpan>) -> Option<ClipboardRefusal> {
    if bars.len() == 0 {
        Some(ClipboardRefusal::BarDeleteNeedsBars)
    } else if !bars_on_one_row(bars) {
        Some(ClipboardRefusal::BarDeleteOneLine)
    } else if bars.len() == bars_on_row(ls, bars[0].row as int) {
        Some(ClipboardRefusal::AllBarsOnLine)
    } else if bars[0].row >= ls.len() {
        Some(ClipboardRefusal::BarGone)
    } else {
        None
    }
}

/// The row of the bars, once deleted: from just after the opening pipe of the
/// first to the closing pipe of the last.
pub open spec fn without_bars(line: Seq<char>, bars: Seq<BarSpan>) -> Seq<char> {
    replaced(line, bars[0].start_col + 1, bars.last().end_col as int, Seq::empty())
}

/// The columns that deleting `bars` cuts lie in order on their line.
pub open spec fn bar_cut_fits(ls: Seq<Seq<char>>, bars: Seq<BarSpan>) -> bool {
    bar_delete_refusal(ls, bars) is None ==> {
        let line = ls[bars[0].row as int];
        &&& bars[0].start_col < usize::MAX
        &&& clamp_col(line, bars[0].start_col + 1) <= clamp_col(line, bars.last().end_col as int)
    }
}

/// Deletes the selected `bars` (all on one row, not all the bars of that row) from
/// `lines`: the text from just after the first bar's opening pipe through the last
/// bar's closing pipe. On a refusal the lines stay as they were.
pub fn delete_bars_in_lines(lines: &mut Vec<String>, bars: &[BarSpan]) -> (r: Result<(), ClipboardRefusal>)
    requires
        bar_cut_fits(string_views(old(lines)@), bars@),
    ensures
        ({
            let ls = string_views(old(lines)@);
            match bar_delete_refusal(ls, bars@) {
                Some(e) => r == Err::<(), ClipboardRefusal>(e) && final(lines)@ == old(lines)@,
                None => r is Ok && string_views(final(lines)@) == ls.update(
                    bars@[0].row as int,
                    without_bars(ls[bars@[0].row as int], bars@),
                ),
            }
        }),
{
    let ghost ls = string_views(lines@);
    if bars.len() == 0 {
        return Err(ClipboardRefusal::BarDeleteNeedsBars);
    }
    let row = bars[0].row;
    let mut k: usize = 0;
    while k < bars.len()
        invariant
            k <= bars@.len(),
            bars@.len() > 0,
            row == bars@[0].row,
            forall|j: int| 0 <= j < k ==> (#[trigger] bars@[j]).row == row,
        decreases bars@.len() - k,
    {
        if bars[k].row != row {
            assert(!bars_on_one_row(bars@)) by {
                assert(bars@[k as int].row != bars@[0].row);
            }
            return Err(ClipboardRefusal::BarDeleteOneLine);
        }
        k += 1;
    }
    assert(bars_on_one_row(bars@));
    let on_line: usize = if row < lines.len() {
        let spans = bar_spans_in_line(row, lines[row].as_str());
        spans.len()
    } else {
        0
    };
    if bars.len() == on_line {
        return Err(ClipboardRefusal::AllBarsOnLine);
    }
    if row >= lines.len() {
        return Err(ClipboardRefusal::BarGone);
    }
    let first_start = bars[0].start_col;
    let last_end = bars[bars.len() - 1].end_col;
    let mut line = lines[row].clone();
    assert(line@ == ls[row as int]);
    replace_char_range(&mut line, first_start + 1, last_end, "");
    proof {
        reveal_strlit("");
    }
    lines.set(row, line);
    proof {
        assert(string_views(lines@) =~= ls.update(row as int, without_bars(ls[row as int], bars@)));
    }
    Ok(())
}

// ---------------------------------------------------------------------------
// Template calls
// ---------------------------------------------------------------------------

/// All the template calls are on the row of the first.
pub open spec fn calls_on_one_row(calls: Seq<TemplateCallSpan>) -> bool {
    forall|k: int| 0 <= k < calls.len() ==> (#[trigger] calls[k]).row == calls[0].row
}

fn calls_share_row(calls: &[TemplateCallSpan]) -> (b: bool)
    requires
        calls@.len() > 0,
    ensures
        b == calls_on_one_row(calls@),
{
    let row = calls[0].row;
    let mut k: usize = 0;
    while k < calls.len()
        invariant
            k <= calls@.len(),
            calls@.len() > 0,
            row == calls@[0].row,
            forall|j: int| 0 <= j < k ==> (#[trigger] calls@[j]).row == row,
        decreases calls@.len() - k,
    {
        if calls[k].row != row {
            assert(calls@[k as int].row != calls@[0].row);
            return false;
        }
        k += 1;
    }
    true
}

/// The raw texts of the selected template calls, for the yank buffer: they must be
/// on one line.
pub fn yank_template_calls(selected: &[TemplateCallSpan]) -> (r: Result<Vec<String>, ClipboardRefusal>)
    ensures
        selected@.len() == 0 ==> r == Err::<Vec<String>, ClipboardRefusal>(ClipboardRefusal::CallYankNeedsCalls),
        selected@.len() > 0 && !calls_on_one_row(selected@) ==> r == Err::<Vec<String>, ClipboardRefusal>(
            ClipboardRefusal::CallYankOneLine,
        ),
        selected@.len() > 0 && calls_on_one_row(selected@) ==> (r matches Ok(texts) && texts@.len() == selected@.len()
            && forall|k: int| 0 <= k < texts@.len() ==> (#[trigger] texts@[k])@ == selected@[k].raw_text@),
{
    if selected.len() == 0 {
        return Err(ClipboardRefusal::CallYankNeedsCalls);
    }
    if !calls_share_row(selected) {
        return Err(ClipboardRefusal::CallYankOneLine);
    }
    let mut texts: Vec<String> = Vec::new();
    let mut k: usize = 0;
    while k < selected.len()
        invariant
            k <= selected@.len(),
            texts@.len() == k,
            forall|j: int| 0 <= j < k ==> (#[trigger] texts@[j])@ == selected@[j].raw_text@,
        decreases selected@.len() - k,
    {
        texts.push(selected[k].raw_text.clone());
        k += 1;
    }
    Ok(texts)
}

/// The positions `(row, start column)` of the last `n` template calls of line `s`
/// (all of them when it has fewer).
pub open spec fn last_call_positions(row: usize, s: Seq<char>, n: nat) -> Seq<(usize, usize)> {
    let cs = scan_calls(s, 0);
    let k = if n < cs.len() { n as int } else { cs.len() as int };
    Seq::new(k as nat, |i: int| (row, cs[cs.len() - k + i].0 as usize))
}

/// Why pasting template calls after the selected ones is refused, if it is.
pub open spec fn call_paste_refusal(ls: Seq<Seq<char>>, selected: Seq<TemplateCallSpan>) -> Option<ClipboardRefusal> {
    if selected.len() == 0 {
        Some(ClipboardRefusal::CallPasteNeedsCalls)
    } else if !calls_on_one_row(selected) {
        Some(ClipboardRefusal::CallPasteOneLine)
    } else if selected[0].row >= ls.len() {
        Some(ClipboardRefusal::CallGone)
    } else {
        None
    }
}

/// Pastes the yanked template calls after the last selected one (the selection on
/// one line), and gives the positions of the pasted calls, which the selection
/// moves to. On a refusal the lines stay as they were.
pub fn paste_template_calls_after_selection(
    lines: &mut Vec<String>,
    selected: &[TemplateCallSpan],
    calls: &[String],
) -> (r: Result<Vec<(usize, usize)>, ClipboardRefusal>)
    ensures
        ({
            let ls = string_views(old(lines)@);
            match call_paste_refusal(ls, selected@) {
                Some(e) => r == Err::<Vec<(usize, usize)>, ClipboardRefusal>(e) && final(lines)@ == old(lines)@,
                None => {
                    let row = selected@[0].row;
                    let at = selected@.last().end_col as int;
                    let new_line = replaced(ls[row as int], at, at, paste_text(string_views(calls@)));
                    &&& string_views(final(lines)@) == ls.update(row as int, new_line)
                    &&& r matches Ok(ps) && ps@ == last_call_positions(row, new_line, calls@.len())
                },
            }
        }),
{
    let ghost ls = string_views(lines@);
    if selected.len() == 0 {
        return Err(ClipboardRefusal::CallPasteNeedsCalls);
    }
    if !calls_share_row(selected) {
        return Err(ClipboardRefusal::CallPasteOneLine);
    }
    let row = selected[0].row;
    if row >= lines.len() {
        return Err(ClipboardRefusal::CallGone);
    }
    let at = selected[selected.len() - 1].end_col;
    let insertion = paste_insertion(calls);
    let mut line = lines[row].clone();
    insert_at_col(&mut line, at, insertion.as_str());
    let positions = template_call_positions_after_duplication(row, line.as_str(), calls.len());
    let ghost new_line = line@;
    lines.set(row, line);
    proof {
        assert(string_views(lines@) =~= ls.update(row as int, new_line));
        assert(positions@ =~= last_call_positions(row, new_line, calls@.len()));
    }
    Ok(positions)
}

/// Pastes the yanked template calls after `target`, the template call at the
/// cursor (`None` when the cursor is on none). On a refusal the lines stay as they
/// were.
pub fn paste_template_calls_after_cursor(
    lines: &mut Vec<String>,
    target: &Option<TemplateCallSpan>,
    calls: &[String],
) -> (r: Result<(), ClipboardRefusal>)
    ensures
        ({
            let ls = string_views(old(lines)@);
            match target {
                None => r == Err::<(), ClipboardRefusal>(ClipboardRefusal::PasteNeedsCallAtCursor)
                    && final(lines)@ == old(lines)@,
                Some(t) => if t.row >= ls.len() {
                    r == Err::<(), ClipboardRefusal>(ClipboardRefusal::CallGone) && final(lines)@ == old(lines)@
                } else {
                    r is Ok && string_views(final(lines)@) == ls.update(
                        t.row as int,
                        replaced(ls[t.row as int], t.end_col as int, t.end_col as int, paste_text(string_views(calls@))),
                    )
                },
            }
        }),
{
    let ghost ls = string_views(lines@);
    match target {
        None => Err(ClipboardRefusal::PasteNeedsCallAtCursor),
        Some(t) => {
            if t.row >= lines.len() {
                return Err(ClipboardRefusal::CallGone);
            }
            let insertion = paste_insertion(calls);
            let mut line = lines[t.row].clone();
            insert_at_col(&mut line, t.end_col, insertion.as_str());
            let ghost new_line = line@;
            lines.set(t.row, line);
            proof {
                assert(string_views(lines@) =~= ls.update(t.row as int, new_line));
            }
            Ok(())
        },
    }
}

// ---------------------------------------------------------------------------
// Units
// ---------------------------------------------------------------------------

/// All the units are on the row of the first.
pub open spec fn units_on_one_row(units: Seq<UnitSpan>) -> bool {
    forall|k: int| 0 <= k < units.len() ==> (#[trigger] units[k]).row == units[0].row
}

fn units_share_row(units: &[UnitSpan]) -> (b: bool)
    requires
        units@.len() > 0,
    ensures
        b == units_on_one_row(units@),
{
    let row = units[0].row;
    let mut k: usize = 0;
    while k < units.len()
        invariant
            k <= units@.len(),
            units@.len() > 0,
            row == units@[0].row,
            forall|j: int| 0 <= j < k ==> (#[trigger] units@[j]).row == row,
        decreases units@.len() - k,
    {
        if units[k].row != row {
            assert(units@[k as int].row != units@[0].row);
            return false;
        }
        k += 1;
    }
    true
}

/// Why yanking the selected units is refused, if it is.
pub open spec fn unit_yank_refusal(ls: Seq<Seq<char>>, selected: Seq<UnitSpan>) -> Option<ClipboardRefusal> {
    if selected.len() == 0 {
        Some(ClipboardRefusal::UnitYankNeedsUnits)
    } else if !units_on_one_row(selected) {
        Some(ClipboardRefusal::UnitYankOneLine)
    } else if selected[0].row >= ls.len() {
        Some(ClipboardRefusal::UnitGone)
    } else if yank_context(ls[selected[0].row as int], selected) is None {
        Some(ClipboardRefusal::UnitYankKind)
    } else {
        None
    }
}

/// The texts of the selected units (on one line) and the kind of units they are,
/// for the yank buffer.
pub fn yank_units(lines: &[String], selected: &[UnitSpan]) -> (r: Result<(Vec<String>, UnitYankContext), ClipboardRefusal>)
    ensures
        ({
            let ls = string_views(lines@);
            match unit_yank_refusal(ls, selected@) {
                Some(e) => r == Err::<(Vec<String>, UnitYankContext), ClipboardRefusal>(e),
                None => r matches Ok((texts, context)) && Some(context) == yank_context(
                    ls[selected@[0].row as int],
                    selected@,
                ) && texts@.len() == selected@.len() && forall|k: int|
                    0 <= k < texts@.len() ==> (#[trigger] texts@[k])@ == selected@[k].token@,
            }
        }),
{
    if selected.len() == 0 {
        return Err(ClipboardRefusal::UnitYankNeedsUnits);
    }
    if !units_share_row(selected) {
        return Err(ClipboardRefusal::UnitYankOneLine);
    }
    let row = selected[0].row;
    if row >= lines.len() {
        return Err(ClipboardRefusal::UnitGone);
    }
    let context = match unit_yank_context_of(lines[row].as_str(), selected) {
        Some(c) => c,
        None => {
            return Err(ClipboardRefusal::UnitYankKind);
        },
    };
    let mut texts: Vec<String> = Vec::new();
    let mut k: usize = 0;
    while k < selected.len()
        invariant
            k <= selected@.len(),
            texts@.len() == k,
            forall|j: int| 0 <= j < k ==> (#[trigger] texts@[j])@ == selected@[j].token@,
        decreases selected@.len() - k,
    {
        texts.push(selected[k].token.clone());
        k += 1;
    }
    Ok((texts, context))
}

/// The largest of a non-empty list of indices.
pub open spec fn max_index(ix: Seq<usize>) -> usize
    decreases ix.len(),
{
    if ix.len() <= 1 {
        ix[0]
    } else {
        let m = max_index(ix.drop_last());
        if ix.last() > m { ix.last() } else { m }
    }
}

proof fn lemma_max_index(ix: Seq<usize>)
    requires
        ix.len() > 0,
    ensures
        exists|k: int| 0 <= k < ix.len() && ix[k] == max_index(ix),
        forall|k: int| 0 <= k < ix.len() ==> ix[k] <= max_index(ix),
    decreases ix.len(),
{
    if ix.len() > 1 {
        lemma_max_index(ix.drop_last());
        let m = max_index(ix.drop_last());
        let w = choose|k: int| 0 <= k < ix.len() - 1 && ix.drop_last()[k] == m;
        if ix.last() > m {
            assert(ix[ix.len() - 1] == max_index(ix));
        } else {
            assert(ix[w] == max_index(ix));
        }
        assert forall|k: int| 0 <= k < ix.len() implies ix[k] <= max_index(ix) by {
            if k < ix.len() - 1 {
                assert(ix.drop_last()[k] == ix[k]);
            }
        }
    } else {
        assert(ix[0] == max_index(ix));
    }
}

fn largest_index(ix: &[usize]) -> (m: usize)
    requires
        ix@.len() > 0,
    ensures
        m == max_index(ix@),
{
    let mut m = ix[0];
    let mut k: usize = 1;
    while k < ix.len()
        invariant
            1 <= k <= ix@.len(),
            m == max_index(ix@.take(k as int)),
        decreases ix@.len() - k,
    {
        proof {
            assert(ix@.take(k as int + 1).drop_last() =~= ix@.take(k as int));
        }
        if ix[k] > m {
            m = ix[k];
        }
        k += 1;
    }
    proof {
        assert(ix@.take(ix@.len() as int) =~= ix@);
    }
    m
}

/// Why pasting yanked units after the selected ones is refused, if it is.
pub open spec fn unit_paste_refusal(
    ls: Seq<Seq<char>>,
    selected: Seq<UnitSpan>,
    selected_indices: Seq<usize>,
    context: UnitYankContext,
) -> Option<ClipboardRefusal> {
    if selected.len() == 0 {
        Some(ClipboardRefusal::UnitPasteNeedsUnits)
    } else if !units_on_one_row(selected) {
        Some(ClipboardRefusal::UnitPasteOneLine)
    } else if selected[0].row >= ls.len() {
        Some(ClipboardRefusal::UnitGone)
    } else if !yank_context_fits(context, ls[selected[0].row as int], selected) {
        Some(ClipboardRefusal::UnitsDoNotFitSelection)
    } else if selected_indices.len() == 0 {
        Some(ClipboardRefusal::UnitGone)
    } else {
        None
    }
}

/// Pastes the yanked unit texts after the last selected unit (the selection on
/// one line, of a kind that the yanked units fit), and gives the indices that the
/// pasted units take among the units of the score: those after the largest
/// selected index. On a refusal the lines stay as they were.
pub fn paste_units_after_selection(
    lines: &mut Vec<String>,
    selected: &[UnitSpan],
    selected_indices: &[usize],
    tokens: &[String],
    context: UnitYankContext,
) -> (r: Result<Vec<usize>, ClipboardRefusal>)
    requires
        forall|k: int| 0 <= k < selected_indices@.len() ==> #[trigger] selected_indices@[k] + tokens@.len() <= usize::MAX,
    ensures
        ({
            let ls = string_views(old(lines)@);
            match unit_paste_refusal(ls, selected@, selected_indices@, context) {
                Some(e) => r == Err::<Vec<usize>, ClipboardRefusal>(e) && final(lines)@ == old(lines)@,
                None => {
                    let row = selected@[0].row;
                    let at = selected@.last().end_col as int;
                    let m = max_index(selected_indices@);
                    &&& string_views(final(lines)@) == ls.update(
                        row as int,
                        replaced(ls[row as int], at, at, paste_text(string_views(tokens@))),
                    )
                    &&& r matches Ok(ix) && ix@ == Seq::new(tokens@.len(), |k: int| (m + 1 + k) as usize)
                },
            }
        }),
{
    let ghost ls = string_views(lines@);
    if selected.len() == 0 {
        return Err(ClipboardRefusal::UnitPasteNeedsUnits);
    }
    if !units_share_row(selected) {
        return Err(ClipboardRefusal::UnitPasteOneLine);
    }
    let row = selected[0].row;
    if row >= lines.len() {
        return Err(ClipboardRefusal::UnitGone);
    }
    if !unit_yank_context_matches(context, lines[row].as_str(), selected) {
        return Err(ClipboardRefusal::UnitsDoNotFitSelection);
    }
    if selected_indices.len() == 0 {
        return Err(ClipboardRefusal::UnitGone);
    }
    let m = largest_index(selected_indices);
    proof {
        lemma_max_index(selected_indices@);
    }
    let at = selected[selected.len() - 1].end_col;
    let insertion = paste_insertion(tokens);
    let mut line = lines[row].clone();
    insert_at_col(&mut line, at, insertion.as_str());
    let ghost new_line = line@;
    lines.set(row, line);
    let mut ix: Vec<usize> = Vec::new();
    let mut k: usize = 0;
    while k < tokens.len()
        invariant
            k <= tokens@.len(),
            m + tokens@.len() <= usize::MAX,
            ix@ == Seq::new(k as nat, |j: int| (m + 1 + j) as usize),
        decreases tokens@.len() - k,
    {
        ix.push(m + 1 + k);
        proof {
            assert(ix@ =~= Seq::new(k as nat + 1, |j: int| (m + 1 + j) as usize));
        }
        k += 1;
    }
    proof {
        assert(string_views(lines@) =~= ls.update(row as int, new_line));
    }
    Ok(ix)
}

/// Pastes the yanked unit texts after `target`, the unit at or after the cursor
/// (`None` when there is none), if they fit it. On a refusal the lines stay as they
/// were.
pub fn paste_units_after_cursor(
    lines: &mut Vec<String>,
    target: &Option<UnitSpan>,
    tokens: &[String],
    context: UnitYankContext,
) -> (r: Result<(), ClipboardRefusal>)
    ensures
        ({
            let ls = string_views(old(lines)@);
            match target {
                None => r == Err::<(), ClipboardRefusal>(ClipboardRefusal::PasteNeedsUnitAtCursor)
                    && final(lines)@ == old(lines)@,
                Some(t) => if t.row >= ls.len() {
                    r == Err::<(), ClipboardRefusal>(ClipboardRefusal::UnitGone) && final(lines)@ == old(lines)@
                } else if !yank_context_fits(context, ls[t.row as int], seq![*t]) {
                    r == Err::<(), ClipboardRefusal>(ClipboardRefusal::UnitsDoNotFitCursor)
                        && final(lines)@ == old(lines)@
                } else {
                    r is Ok && string_views(final(lines)@) == ls.update(
                        t.row as int,
                        replaced(ls[t.row as int], t.end_col as int, t.end_col as int, paste_text(string_views(tokens@))),
                    )
                },
            }
        }),
{
    let ghost ls = string_views(lines@);
    match target {
        None => Err(ClipboardRefusal::PasteNeedsUnitAtCursor),
        Some(t) => {
            if t.row >= lines.len() {
                return Err(ClipboardRefusal::UnitGone);
            }
            let one = vec![t.duplicate()];
            assert(one@ =~= seq![*t]);
            if !unit_yank_context_matches(context, lines[t.row].as_str(), one.as_slice()) {
                return Err(ClipboardRefusal::UnitsDoNotFitCursor);
            }
            let insertion = paste_insertion(tokens);
            let mut line = lines[t.row].clone();
            insert_at_col(&mut line, t.end_col, insertion.as_str());
            let ghost new_line = line@;
            lines.set(t.row, line);
            proof {
                assert(string_views(lines@) =~= ls.update(t.row as int, new_line));
            }
            Ok(())
        },
    }
}

// ---------------------------------------------------------------------------
// Bars
// ---------------------------------------------------------------------------

/// One row of yanked bars: the text from just after the first bar's opening pipe
/// through the last bar's closing pipe, and how many bars it holds.
#[derive(Clone, Debug, PartialEq, Eq)]
pub struct YankedBarRow {
    pub text: String,
    pub count: usize,
}

/// What the last yank took.
#[derive(Clone, Debug, PartialEq, Eq)]
pub enum YankBuffer {
    Units { tokens: Vec<String>, context: UnitYankContext },
    Bars { rows: Vec<YankedBarRow> },
    TemplateCalls { calls: Vec<String> },
}

/// The selected bars of row `r`, given the selected indices `si..=ei`: the run
/// `(r, first, last)` of those that the row has, if it has any.
pub open spec fn row_run(ls: Seq<Seq<char>>, r: int, si: int, ei: int) -> Seq<(int, int, int)> {
    let n = bars_on_row(ls, r) as int;
    if si < n {
        seq![(r, si, if ei < n - 1 { ei } else { n - 1 })]
    } else {
        Seq::empty()
    }
}

/// The runs of rows `r0..=r`, in order.
pub open spec fn runs_upto(ls: Seq<Seq<char>>, r0: int, r: int, si: int, ei: int) -> Seq<(int, int, int)>
    decreases r - r0 + 1,
{
    if r < r0 {
        Seq::empty()
    } else {
        runs_upto(ls, r0, r - 1, si, ei) + row_run(ls, r, si, ei)
    }
}

/// The selected bars, one run `(row, first index, last index)` for each row that
/// has any, rows in order: the one bar of a bar selection, or the rectangle of a
/// bar range (rows and bar indices between its two corners). Nothing for other
/// selections.
pub open spec fn bar_runs(ls: Seq<Seq<char>>, sel: Option<StudioSelection>) -> Seq<(int, int, int)> {
    match sel {
        Some(StudioSelection::Bar { span }) => row_run(ls, span.row as int, span.index as int, span.index as int),
        Some(StudioSelection::BarRange { anchor, focus }) => {
            let top = if max_u(anchor.row, focus.row) < ls.len() {
                max_u(anchor.row, focus.row) as int
            } else {
                ls.len() - 1
            };
            runs_upto(
                ls,
                min_u(anchor.row, focus.row) as int,
                top,
                min_u(anchor.index, focus.index) as int,
                max_u(anchor.index, focus.index) as int,
            )
        },
        _ => Seq::empty(),
    }
}

pub open spec fn run_view(runs: Seq<(usize, usize, usize)>) -> Seq<(int, int, int)> {
    runs.map_values(|t: (usize, usize, usize)| (t.0 as int, t.1 as int, t.2 as int))
}

fn push_row_run(lines: &[String], row: usize, si: usize, ei: usize, runs: &mut Vec<(usize, usize, usize)>)
    requires
        row < lines@.len(),
        si <= ei,
        forall|k: int| 0 <= k < old(runs)@.len() ==> (#[trigger] old(runs)@[k]).0 < row,
    ensures
        run_view(final(runs)@) == run_view(old(runs)@) + row_run(string_views(lines@), row as int, si as int, ei as int),
        forall|k: int| 0 <= k < final(runs)@.len() ==> (#[trigger] final(runs)@[k]).0 <= row,
        final(runs)@.len() <= old(runs)@.len() + 1,
        forall|k: int| 0 <= k < old(runs)@.len() ==> final(runs)@[k] == old(runs)@[k],
        final(runs)@.len() == old(runs)@.len() + 1 ==> final(runs)@.last().0 == row
            && final(runs)@.last().1 <= final(runs)@.last().2 < bars_on_row(string_views(lines@), row as int)
            && final(runs)@.last().2 < usize::MAX,
{
    let ghost ls = string_views(lines@);
    let spans = bar_spans_in_line(row, lines[row].as_str());
    let n = spans.len();
    assert(ls[row as int] == lines@[row as int]@);
    assert(n == bars_on_row(ls, row as int));
    if si < n {
        let last = if ei < n - 1 { ei } else { n - 1 };
        runs.push((row, si, last));
    }
    proof {
        assert(run_view(runs@) =~= run_view(old(runs)@) + row_run(ls, row as int, si as int, ei as int));
    }
}

/// The runs of the selected bars (see `bar_runs`).
pub fn selected_bar_runs(lines: &[String], selection: &Option<StudioSelection>) -> (r: Vec<(usize, usize, usize)>)
    ensures
        run_view(r@) == bar_runs(string_views(lines@), *selection),
        forall|j: int, k: int| 0 <= j < k < r@.len() ==> r@[j].0 < r@[k].0,
        forall|k: int| 0 <= k < r@.len() ==> (#[trigger] r@[k]).0 < lines@.len() && r@[k].1 <= r@[k].2 < bars_on_row(
            string_views(lines@),
            r@[k].0 as int,
        ),
        forall|k: int| 0 <= k < r@.len() ==> (#[trigger] r@[k]).2 < usize::MAX,
{
    let ghost ls = string_views(lines@);
    let mut runs: Vec<(usize, usize, usize)> = Vec::new();
    match selection {
        Some(StudioSelection::Bar { span }) => {
            if span.row < lines.len() {
                push_row_run(lines, span.row, span.index, span.index, &mut runs);
            }
            proof {
                assert(run_view(runs@) =~= bar_runs(ls, *selection));
            }
            runs
        },
        Some(StudioSelection::BarRange { anchor, focus }) => {
            let r0 = if anchor.row <= focus.row { anchor.row } else { focus.row };
            let r1 = if anchor.row <= focus.row { focus.row } else { anchor.row };
            let si = if anchor.index <= focus.index { anchor.index } else { focus.index };
            let ei = if anchor.index <= focus.index { focus.index } else { anchor.index };
            if lines.len() == 0 {
                proof {
                    assert(run_view(runs@) =~= bar_runs(ls, *selection));
                }
                return runs;
            }
            let top = if r1 < lines.len() { r1 } else { lines.len() - 1 };
            if r0 > top {
                proof {
                    assert(run_view(runs@) =~= bar_runs(ls, *selection));
                }
                return runs;
            }
            let n_lines = lines.len();
            let mut row = r0;
            assert(run_view(runs@) =~= runs_upto(ls, r0 as int, row as int - 1, si as int, ei as int));
            while row <= top
                invariant
                    ls == string_views(lines@),
                    r0 <= row <= top + 1,
                    si <= ei,
                    top < n_lines,
                    n_lines == lines@.len(),
                    run_view(runs@) == runs_upto(ls, r0 as int, row as int - 1, si as int, ei as int),
                    forall|j: int, k: int| 0 <= j < k < runs@.len() ==> runs@[j].0 < runs@[k].0,
                    forall|k: int| 0 <= k < runs@.len() ==> (#[trigger] runs@[k]).0 < row && runs@[k].1 <= runs@[k].2
                        < bars_on_row(ls, runs@[k].0 as int),
                    forall|k: int| 0 <= k < runs@.len() ==> (#[trigger] runs@[k]).2 < usize::MAX,
                decreases top + 1 - row,
            {
                let ghost before = runs@;
                push_row_run(lines, row, si, ei, &mut runs);
                proof {
                    assert forall|j: int, k: int| 0 <= j < k < runs@.len() implies runs@[j].0 < runs@[k].0 by {
                        if k < before.len() {
                        } else {
                            assert(runs@[j] == before[j]);
                        }
                    }
                    assert forall|k: int| 0 <= k < runs@.len() implies (#[trigger] runs@[k]).0 < row + 1 && runs@[k].1
                        <= runs@[k].2 < bars_on_row(ls, runs@[k].0 as int) && runs@[k].2 < usize::MAX by {
                        if k < before.len() {
                            assert(runs@[k] == before[k]);
                        }
                    }
                }
                row += 1;
            }
            proof {
                assert(bar_runs(ls, *selection) == runs_upto(ls, r0 as int, top as int, si as int, ei as int));
            }
            runs
        },
        _ => {
            proof {
                assert(run_view(runs@) =~= bar_runs(ls, *selection));
            }
            runs
        },
    }
}

/// The text that yanking run `run` of the lines takes: from just after the first
/// bar's opening pipe through the last bar's closing pipe.
pub open spec fn run_text(ls: Seq<Seq<char>>, run: (int, int, int)) -> Seq<char> {
    let line = ls[run.0];
    let bs = spec_bars(line);
    line.subrange(clamp_col(line, bs[run.1].0 + 1), clamp_col(line, bs[run.2].1))
}

/// How many bars a run holds.
pub open spec fn run_count(run: (int, int, int)) -> nat {
    (run.2 - run.1 + 1) as nat
}

/// How many bars the runs hold together.
pub open spec fn runs_total(runs: Seq<(int, int, int)>) -> nat
    decreases runs.len(),
{
    if runs.len() == 0 {
        0
    } else {
        runs_total(runs.drop_last()) + run_count(runs.last())
    }
}

/// `n`, or `usize::MAX` where it does not fit.
pub open spec fn saturated(n: nat) -> usize {
    if n <= usize::MAX {
        n as usize
    } else {
        usize::MAX
    }
}

/// Facts about the bars of a line that a run's text needs.
proof fn lemma_run_cut(spans: Seq<BarSpan>, row: usize, line: Seq<char>, lo: int, hi: int)
    requires
        bars_are(spans, row, line),
        forall|k: int| 0 <= k < spans.len() ==> #[trigger] spans[k].start_col < spans[k].end_col <= line.len(),
        forall|j: int, k: int| 0 <= j < k < spans.len() ==> spans[j].start_col < spans[k].start_col,
        0 <= lo <= hi < spans.len(),
    ensures
        spans[lo].start_col + 1 <= spans[hi].end_col <= line.len(),
        spans[lo].start_col == spec_bars(line)[lo].0,
        spans[hi].end_col == spec_bars(line)[hi].1,
{
    assert(spans[lo].start_col < spans[lo].end_col);
    assert(spans[hi].start_col < spans[hi].end_col);
    if lo < hi {
        assert(spans[lo].start_col < spans[hi].start_col);
    }
}

/// Yanks the selected bars (see `bar_runs`): one row of text for each row that has
/// selected bars, and how many bars were taken in all (at most `usize::MAX`).
pub fn yank_selected_bars(lines: &[String], selection: &Option<StudioSelection>) -> (r: Result<
    (Vec<YankedBarRow>, usize),
    ClipboardRefusal,
>)
    ensures
        ({
            let ls = string_views(lines@);
            let runs = bar_runs(ls, *selection);
            if runs.len() == 0 {
                r == Err::<(Vec<YankedBarRow>, usize), ClipboardRefusal>(ClipboardRefusal::BarYankNeedsBars)
            } else {
                r matches Ok((rows, total)) && rows@.len() == runs.len() && total == saturated(runs_total(runs))
                    && forall|k: int|
                    0 <= k < rows@.len() ==> (#[trigger] rows@[k]).text@ == run_text(ls, runs[k]) && rows@[k].count
                        == run_count(runs[k])
            }
        }),
{
    let ghost ls = string_views(lines@);
    let runs = selected_bar_runs(lines, selection);
    let ghost rv = run_view(runs@);
    if runs.len() == 0 {
        return Err(ClipboardRefusal::BarYankNeedsBars);
    }
    let mut rows: Vec<YankedBarRow> = Vec::new();
    let mut total: usize = 0;
    let mut k: usize = 0;
    while k < runs.len()
        invariant
            ls == string_views(lines@),
            rv == run_view(runs@),
            rv == bar_runs(ls, *selection),
            k <= runs@.len(),
            forall|j: int| 0 <= j < runs@.len() ==> (#[trigger] runs@[j]).0 < lines@.len() && runs@[j].1 <= runs@[j].2
                < bars_on_row(ls, runs@[j].0 as int),
            rows@.len() == k,
            total == saturated(runs_total(rv.take(k as int))),
            forall|j: int| 0 <= j < k ==> (#[trigger] rows@[j]).text@ == run_text(ls, rv[j]) && rows@[j].count == run_count(rv[j]),
        decreases runs@.len() - k,
    {
        let (row, lo, hi) = runs[k];
        let line = lines[row].as_str();
        let spans = bar_spans_in_line(row, line);
        proof {
            assert(ls[row as int] == line@);
            lemma_run_cut(spans@, row, line@, lo as int, hi as int);
        }
        let text = char_range(line, spans[lo].start_col + 1, spans[hi].end_col);
        let count = hi - lo + 1;
        rows.push(YankedBarRow { text, count });
        proof {
            assert(rv.take(k as int + 1).drop_last() =~= rv.take(k as int));
            assert(rv[k as int] == (row as int, lo as int, hi as int));
        }
        total = total.saturating_add(count);
        k += 1;
    }
    proof {
        assert(rv.take(runs@.len() as int) =~= rv);
    }
    Ok((rows, total))
}

/// The lines after pasting text `texts[k]` after the last bar of run `runs[k]`,
/// run by run.
pub open spec fn pasted_bar_lines(ls: Seq<Seq<char>>, runs: Seq<(int, int, int)>, texts: Seq<Seq<char>>) -> Seq<Seq<char>>
    decreases runs.len(),
{
    if runs.len() == 0 {
        ls
    } else {
        let prev = pasted_bar_lines(ls, runs.drop_last(), texts.drop_last());
        let run = runs.last();
        let line = prev[run.0];
        let at = spec_bars(line)[run.2].1;
        prev.update(run.0, replaced(line, at, at, texts[runs.len() - 1]))
    }
}

/// The positions `(row, bar index)` of the pasted bars: `counts[k]` bars after the
/// last of run `runs[k]`, run by run.
pub open spec fn pasted_bar_positions(runs: Seq<(int, int, int)>, counts: Seq<usize>) -> Seq<(usize, usize)>
    decreases runs.len(),
{
    if runs.len() == 0 {
        Seq::empty()
    } else {
        let run = runs.last();
        pasted_bar_positions(runs.drop_last(), counts.drop_last()) + Seq::new(
            counts[runs.len() - 1] as nat,
            |j: int| (run.0 as usize, (run.2 + 1 + j) as usize),
        )
    }
}

pub open spec fn bar_row_texts(rows: Seq<YankedBarRow>) -> Seq<Seq<char>> {
    rows.map_values(|r: YankedBarRow| r.text@)
}

pub open spec fn bar_row_counts(rows: Seq<YankedBarRow>) -> Seq<usize> {
    rows.map_values(|r: YankedBarRow| r.count)
}

/// How many bars the yanked rows hold together.
pub open spec fn counts_total(counts: Seq<usize>) -> nat
    decreases counts.len(),
{
    if counts.len() == 0 {
        0
    } else {
        counts_total(counts.drop_last()) + counts.last() as nat
    }
}

/// Pastes yanked bar rows after the selected bars, the k-th row after the last
/// selected bar of the k-th selected row; the selection must have as many rows as
/// were yanked. Gives the positions of the pasted bars, which the selection moves
/// to, and how many bars were pasted (at most `usize::MAX`). On a refusal the lines
/// stay as they were.
pub fn paste_bars_after_selection(
    lines: &mut Vec<String>,
    selection: &Option<StudioSelection>,
    rows: &[YankedBarRow],
) -> (r: Result<(Vec<(usize, usize)>, usize), ClipboardRefusal>)
    requires
        ({
            let runs = bar_runs(string_views(old(lines)@), *selection);
            runs.len() == rows@.len() ==> forall|k: int| 0 <= k < runs.len() ==> #[trigger] runs[k].2 + rows@[k].count <= usize::MAX
        }),
    ensures
        ({
            let ls = string_views(old(lines)@);
            let runs = bar_runs(ls, *selection);
            if runs.len() == 0 {
                r == Err::<(Vec<(usize, usize)>, usize), ClipboardRefusal>(ClipboardRefusal::BarPasteNeedsBars)
                    && final(lines)@ == old(lines)@
            } else if runs.len() != rows@.len() {
                r == Err::<(Vec<(usize, usize)>, usize), ClipboardRefusal>(ClipboardRefusal::BarRowsMismatch)
                    && final(lines)@ == old(lines)@
            } else {
                &&& string_views(final(lines)@) == pasted_bar_lines(ls, runs, bar_row_texts(rows@))
                &&& r matches Ok((ps, total)) && ps@ == pasted_bar_positions(runs, bar_row_counts(rows@))
                    && total == saturated(counts_total(bar_row_counts(rows@)))
            }
        }),
{
    let ghost ls = string_views(lines@);
    let runs = selected_bar_runs(lines, selection);
    let ghost rv = run_view(runs@);
    let ghost texts = bar_row_texts(rows@);
    let ghost counts = bar_row_counts(rows@);
    if runs.len() == 0 {
        return Err(ClipboardRefusal::BarPasteNeedsBars);
    }
    if runs.len() != rows.len() {
        return Err(ClipboardRefusal::BarRowsMismatch);
    }
    assert forall|j: int| 0 <= j < runs@.len() implies #[trigger] runs@[j].2 + rows@[j].count <= usize::MAX by {
        assert(rv[j].2 == runs@[j].2);
        assert(rv[j].2 + rows@[j].count <= usize::MAX);
    }
    let mut positions: Vec<(usize, usize)> = Vec::new();
    let mut total: usize = 0;
    let mut k: usize = 0;
    while k < runs.len()
        invariant
            rv == run_view(runs@),
            rv == bar_runs(ls, *selection),
            texts == bar_row_texts(rows@),
            counts == bar_row_counts(rows@),
            runs@.len() == rows@.len(),
            k <= runs@.len(),
            lines@.len() == ls.len(),
            forall|j: int| 0 <= j < runs@.len() ==> (#[trigger] runs@[j]).0 < ls.len() && runs@[j].1 <= runs@[j].2
                < bars_on_row(ls, runs@[j].0 as int),
            forall|i: int, j: int| 0 <= i < j < runs@.len() ==> runs@[i].0 < runs@[j].0,
            forall|j: int| 0 <= j < runs@.len() ==> #[trigger] runs@[j].2 + rows@[j].count <= usize::MAX,
            string_views(lines@) == pasted_bar_lines(ls, rv.take(k as int), texts.take(k as int)),
            forall|j: int| k <= j < runs@.len() ==> (#[trigger] lines@[runs@[j].0 as int])@ == ls[runs@[j].0 as int],
            positions@ == pasted_bar_positions(rv.take(k as int), counts.take(k as int)),
            total == saturated(counts_total(counts.take(k as int))),
        decreases runs@.len() - k,
    {
        let (row, lo, hi) = runs[k];
        let ghost prev = string_views(lines@);
        let spans = bar_spans_in_line(row, lines[row].as_str());
        proof {
            assert(lines@[row as int]@ == ls[row as int]);
            assert(spans@.len() == bars_on_row(ls, row as int));
            assert(spans@[hi as int].end_col == spec_bars(ls[row as int])[hi as int].1);
        }
        let at = spans[hi].end_col;
        let mut line = lines[row].clone();
        insert_at_col(&mut line, at, rows[k].text.as_str());
        let ghost new_line = line@;
        lines.set(row, line);
        let count = rows[k].count;
        let mut j: usize = 0;
        let ghost base = positions@;
        while j < count
            invariant
                j <= count,
                hi + count <= usize::MAX,
                positions@ == base + Seq::new(j as nat, |i: int| (row, (hi + 1 + i) as usize)),
            decreases count - j,
        {
            positions.push((row, hi + 1 + j));
            proof {
                assert(positions@ =~= base + Seq::new(j as nat + 1, |i: int| (row, (hi + 1 + i) as usize)));
            }
            j += 1;
        }
        proof {
            let rk = rv.take(k as int + 1);
            assert(rk.drop_last() =~= rv.take(k as int));
            assert(texts.take(k as int + 1).drop_last() =~= texts.take(k as int));
            assert(counts.take(k as int + 1).drop_last() =~= counts.take(k as int));
            assert(rk.last() == (row as int, lo as int, hi as int));
            assert(texts[k as int] == rows@[k as int].text@);
            assert(counts[k as int] == rows@[k as int].count);
            assert(prev[row as int] == ls[row as int]);
            assert(string_views(lines@) =~= prev.update(row as int, new_line));
            assert(string_views(lines@) == pasted_bar_lines(ls, rk, texts.take(k as int + 1)));
            assert(positions@ =~= pasted_bar_positions(rk, counts.take(k as int + 1)));
            assert forall|j2: int| k + 1 <= j2 < runs@.len() implies (#[trigger] lines@[runs@[j2].0 as int])@ == ls[runs@[j2].0 as int] by {
                assert(runs@[k as int].0 < runs@[j2].0);
            }
        }
        total = total.saturating_add(count);
        k += 1;
    }
    proof {
        assert(rv.take(runs@.len() as int) =~= rv);
        assert(texts.take(runs@.len() as int) =~= texts);
        assert(counts.take(runs@.len() as int) =~= counts);
    }
    Ok((positions, total))
}

/// Pastes a single yanked bar row after `target`, the bar at or after the cursor
/// (`None` when there is none), and gives how many bars it held. On a refusal the
/// lines stay as they were.
pub fn paste_bar_row_after_cursor(
    lines: &mut Vec<String>,
    target: &Option<BarSpan>,
    rows: &[YankedBarRow],
) -> (r: Result<usize, ClipboardRefusal>)
    ensures
        ({
            let ls = string_views(old(lines)@);
            if rows@.len() != 1 {
                r == Err::<usize, ClipboardRefusal>(ClipboardRefusal::MultiRowBarPaste) && final(lines)@ == old(lines)@
            } else {
                match target {
                    None => r == Err::<usize, ClipboardRefusal>(ClipboardRefusal::PasteNeedsBarAtCursor)
                        && final(lines)@ == old(lines)@,
                    Some(b) => if b.row >= ls.len() {
                        r == Err::<usize, ClipboardRefusal>(ClipboardRefusal::BarGone) && final(lines)@ == old(lines)@
                    } else {
                        r == Ok::<usize, ClipboardRefusal>(rows@[0].count) && string_views(final(lines)@) == ls.update(
                            b.row as int,
                            replaced(ls[b.row as int], b.end_col as int, b.end_col as int, rows@[0].text@),
                        )
                    },
                }
            }
        }),
{
    let ghost ls = string_views(lines@);
    if rows.len() != 1 {
        return Err(ClipboardRefusal::MultiRowBarPaste);
    }
    match target {
        None => Err(ClipboardRefusal::PasteNeedsBarAtCursor),
        Some(b) => {
            if b.row >= lines.len() {
                return Err(ClipboardRefusal::BarGone);
            }
            let mut line = lines[b.row].clone();
            insert_at_col(&mut line, b.end_col, rows[0].text.as_str());
            let ghost new_line = line@;
            lines.set(b.row, line);
            proof {
                assert(string_views(lines@) =~= ls.update(b.row as int, new_line));
            }
            Ok(rows[0].count)
        },
    }
}

// ---------------------------------------------------------------------------
// What delete, yank and paste apply to
// ---------------------------------------------------------------------------

/// What deleting or yanking the selection applies to.
#[derive(Clone, Copy, Debug, PartialEq, Eq, Structural)]
pub enum SelectionTarget {
    Bars,
    TemplateCalls,
    Units,
}

pub open spec fn spec_selection_target(sel: Option<StudioSelection>) -> SelectionTarget {
    match sel {
        Some(StudioSelection::Bar { .. }) | Some(StudioSelection::BarRange { .. }) => SelectionTarget::Bars,
        Some(StudioSelection::TemplateCall { .. }) | Some(StudioSelection::TemplateCallRange { .. }) => SelectionTarget::TemplateCalls,
        _ => SelectionTarget::Units,
    }
}

/// Bars for a bar selection, template calls for a template call selection, units
/// otherwise.
pub fn selection_target(selection: &Option<StudioSelection>) -> (r: SelectionTarget)
    ensures
        r == spec_selection_target(*selection),
{
    match selection {
        Some(StudioSelection::Bar { .. }) | Some(StudioSelection::BarRange { .. }) => SelectionTarget::Bars,
        Some(StudioSelection::TemplateCall { .. }) | Some(StudioSelection::TemplateCallRange { .. }) => SelectionTarget::TemplateCalls,
        _ => SelectionTarget::Units,
    }
}

/// Which paste a paste command makes.
#[derive(Clone, Copy, Debug, PartialEq, Eq, Structural)]
pub enum PasteRoute {
    BarsAfterSelection,
    CallsAfterSelection,
    UnitsAfterSelection,
    UnitsAfterCursor,
    BarsAfterCursor,
    CallsAfterCursor,
}

/// Which paste the yank buffer and the selection call for: the yanked kind must
/// match a bar or template call selection; yanked units paste after any other
/// selection, or after the cursor without one; yanked bars and template calls paste
/// after the cursor only without a selection.
pub open spec fn spec_paste_route(sel: Option<StudioSelection>, buffer: Option<YankBuffer>) -> Result<PasteRoute, ClipboardRefusal> {
    match buffer {
        None => Err(ClipboardRefusal::NothingYanked),
        Some(b) => match spec_selection_target(sel) {
            SelectionTarget::Bars => match b {
                YankBuffer::Bars { .. } => Ok(PasteRoute::BarsAfterSelection),
                _ => Err(ClipboardRefusal::ExpectsYankedBars),
            },
            SelectionTarget::TemplateCalls => match b {
                YankBuffer::TemplateCalls { .. } => Ok(PasteRoute::CallsAfterSelection),
                _ => Err(ClipboardRefusal::ExpectsYankedCalls),
            },
            SelectionTarget::Units => match b {
                YankBuffer::Units { .. } => if sel is Some {
                    Ok(PasteRoute::UnitsAfterSelection)
                } else {
                    Ok(PasteRoute::UnitsAfterCursor)
                },
                YankBuffer::Bars { .. } => if sel is Some {
                    Err(ClipboardRefusal::ExpectsYankedUnits)
                } else {
                    Ok(PasteRoute::BarsAfterCursor)
                },
                YankBuffer::TemplateCalls { .. } => if sel is Some {
                    Err(ClipboardRefusal::ExpectsYankedUnits)
                } else {
                    Ok(PasteRoute::CallsAfterCursor)
                },
            },
        },
    }
}

/// Decides which paste to make (see `spec_paste_route`).
pub fn paste_route(selection: &Option<StudioSelection>, buffer: &Option<YankBuffer>) -> (r: Result<PasteRoute, ClipboardRefusal>)
    ensures
        r == spec_paste_route(*selection, *buffer),
{
    match buffer {
        None => Err(ClipboardRefusal::NothingYanked),
        Some(b) => match selection_target(selection) {
            SelectionTarget::Bars => match b {
                YankBuffer::Bars { .. } => Ok(PasteRoute::BarsAfterSelection),
                _ => Err(ClipboardRefusal::ExpectsYankedBars),
            },
            SelectionTarget::TemplateCalls => match b {
                YankBuffer::TemplateCalls { .. } => Ok(PasteRoute::CallsAfterSelection),
                _ => Err(ClipboardRefusal::ExpectsYankedCalls),
            },
            SelectionTarget::Units => match b {
                YankBuffer::Units { .. } => if selection.is_some() {
                    Ok(PasteRoute::UnitsAfterSelection)
                } else {
                    Ok(PasteRoute::UnitsAfterCursor)
                },
                YankBuffer::Bars { .. } => if selection.is_some() {
                    Err(ClipboardRefusal::ExpectsYankedUnits)
                } else {
                    Ok(PasteRoute::BarsAfterCursor)
                },
                YankBuffer::TemplateCalls { .. } => if selection.is_some() {
                    Err(ClipboardRefusal::ExpectsYankedUnits)
                } else {
                    Ok(PasteRoute::CallsAfterCursor)
                },
            },
        },
    }
}

} // verus!
