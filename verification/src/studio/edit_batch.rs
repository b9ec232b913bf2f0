//! Edits of many spans at once: deleting, replacing, subdividing units, shrinking
//! bracket groups and deleting template calls. The spans are put in order of
//! `(row, start column)` and edited from the last to the first, so that an edit
//! leaves the columns of those before it on its row where they were.
use vstd::prelude::*;
use crate::studio::selection::{
    bracket_pair, clamp_col, delete_bounds, delete_unit, element_at, group_elements, innermost_pair,
    is_lane_body_token, is_subdividable_token, lemma_pair_unique, replace_char_range, replaced,
    shrinkable_group_at_token, spec_is_seq_line, subdivided_unit, UnitSpan,
};
use crate::studio::selection_model::lane_body_unit;
use crate::studio::onset::toggled_onset_token;
use crate::text::{chars_of, string_of};
use crate::studio::template_ops::{call_delete_bounds, delete_template_call, TemplateCallSpan};
use crate::text::{first_where, lemma_first_where, string_views, decimal, signed_decimal, signed_decimal_chars, append};
use crate::studio::template_call::{
    call_params_ok, editable_model, repeated_call, template_call_text_with_repeat_delta,
    template_call_text_with_time_scale_delta, time_scaled_call, transposed_call, transposed_template_call_text,
    wrapped_i32,
};

verus! {

// ---------------------------------------------------------------------------
// A stable order by (row, column)
// ---------------------------------------------------------------------------

/// Key `a` comes strictly before key `b`: by row, then column, rising or falling.
pub open spec fn key_before(a: (usize, usize), b: (usize, usize), descending: bool) -> bool {
    if descending {
        a.0 > b.0 || (a.0 == b.0 && a.1 > b.1)
    } else {
        a.0 < b.0 || (a.0 == b.0 && a.1 < b.1)
    }
}

/// The positions in `order` whose key the key of `i` comes strictly before.
pub open spec fn goes_before(keys: Seq<(usize, usize)>, order: Seq<int>, i: int, descending: bool) -> spec_fn(int) -> bool {
    |k: int| key_before(keys[i], keys[order[k]], descending)
}

/// `order` with `i` put before the first entry whose key its own comes strictly
/// before, so that entries of equal keys keep the order in which they came.
pub open spec fn insert_stably(keys: Seq<(usize, usize)>, order: Seq<int>, i: int, descending: bool) -> Seq<int> {
    match first_where(order.len() as int, goes_before(keys, order, i, descending)) {
        Some(p) => order.take(p) + seq![i] + order.skip(p),
        None => order.push(i),
    }
}

/// The indices `0..n` of `keys` in a stable order by key: the order in which a
/// stable sort by key puts the entries.
pub open spec fn stable_order(keys: Seq<(usize, usize)>, n: int, descending: bool) -> Seq<int>
    decreases n,
{
    if n <= 0 {
        Seq::empty()
    } else {
        insert_stably(keys, stable_order(keys, n - 1, descending), n - 1, descending)
    }
}

pub open spec fn ints(s: Seq<usize>) -> Seq<int> {
    s.map_values(|x: usize| x as int)
}

fn comes_before(a: (usize, usize), b: (usize, usize), descending: bool) -> (r: bool)
    ensures
        r == key_before(a, b, descending),
{
    if descending {
        a.0 > b.0 || (a.0 == b.0 && a.1 > b.1)
    } else {
        a.0 < b.0 || (a.0 == b.0 && a.1 < b.1)
    }
}

/// The indices of `keys`, in the order of a stable sort by key.
pub fn stable_order_of(keys: &[(usize, usize)], descending: bool) -> (r: Vec<usize>)
    ensures
        ints(r@) == stable_order(keys@, keys@.len() as int, descending),
        r@.len() == keys@.len(),
        forall|k: int| 0 <= k < r@.len() ==> #[trigger] r@[k] < keys@.len(),
{
    let mut order: Vec<usize> = Vec::new();
    let mut i: usize = 0;
    while i < keys.len()
        invariant
            i <= keys@.len(),
            ints(order@) == stable_order(keys@, i as int, descending),
            order@.len() == i,
            forall|k: int| 0 <= k < order@.len() ==> #[trigger] order@[k] < i,
        decreases keys@.len() - i,
    {
        let ghost o = ints(order@);
        let mut p: usize = 0;
        while p < order.len() && !comes_before(keys[i], keys[order[p]], descending)
            invariant
                p <= order@.len(),
                o == ints(order@),
                i < keys@.len(),
                forall|k: int| 0 <= k < order@.len() ==> #[trigger] order@[k] < i,
                forall|j: int| 0 <= j < p ==> !#[trigger] goes_before(keys@, o, i as int, descending)(j),
            decreases order@.len() - p,
        {
            assert(!goes_before(keys@, o, i as int, descending)(p as int));
            p += 1;
        }
        proof {
            if p < order@.len() {
                assert(goes_before(keys@, o, i as int, descending)(p as int));
            }
            lemma_first_where(o.len() as int, goes_before(keys@, o, i as int, descending), p as int);
        }
        let ghost before = order@;
        order.insert(p, i);
        proof {
            let s = stable_order(keys@, i as int, descending);
            assert(stable_order(keys@, i as int + 1, descending) == insert_stably(keys@, s, i as int, descending));
            if p < o.len() {
                assert(ints(order@) =~= o.take(p as int) + seq![i as int] + o.skip(p as int));
            } else {
                assert(ints(order@) =~= o.push(i as int));
            }
            assert forall|k: int| 0 <= k < order@.len() implies #[trigger] order@[k] < i + 1 by {
                if k < p {
                } else if k > p {
                    assert(order@[k] == before[k - 1]);
                }
            }
        }
        i += 1;
    }
    order
}

// ---------------------------------------------------------------------------
// Applying edits to lines
// ---------------------------------------------------------------------------

/// What an edit does to its span.
#[derive(Clone, Debug, PartialEq, Eq)]
pub enum EditAction {
    /// Puts the text in place of the span.
    Replace(String),
    /// Deletes a unit with the separator next to it (see `delete_bounds`).
    DeleteUnit,
    /// Deletes a template call with the blanks next to it (see `call_delete_bounds`).
    DeleteCall,
}

/// An edit of the columns `start_col..end_col` of row `row`.
#[derive(Clone, Debug, PartialEq, Eq)]
pub struct SpanEdit {
    pub row: usize,
    pub start_col: usize,
    pub end_col: usize,
    pub action: EditAction,
}

/// What an edit does, as a mathematical value.
pub enum ActionView {
    Replace(Seq<char>),
    DeleteUnit,
    DeleteCall,
}

/// An edit as a mathematical value.
pub struct EditView {
    pub row: usize,
    pub start_col: usize,
    pub end_col: usize,
    pub action: ActionView,
}

impl View for SpanEdit {
    type V = EditView;

    open spec fn view(&self) -> EditView {
        EditView {
            row: self.row,
            start_col: self.start_col,
            end_col: self.end_col,
            action: match self.action {
                EditAction::Replace(t) => ActionView::Replace(t@),
                EditAction::DeleteUnit => ActionView::DeleteUnit,
                EditAction::DeleteCall => ActionView::DeleteCall,
            },
        }
    }
}

pub open spec fn edit_views(edits: Seq<SpanEdit>) -> Seq<EditView> {
    edits.map_values(|e: SpanEdit| e@)
}

/// The edit can be made on `line`: a replaced range is in order; a deleted span
/// lies within the line.
pub open spec fn edit_fits(line: Seq<char>, e: EditView) -> bool {
    match e.action {
        ActionView::Replace(_) => clamp_col(line, e.start_col as int) <= clamp_col(line, e.end_col as int),
        _ => e.start_col <= e.end_col <= line.len(),
    }
}

/// `line` after the edit.
pub open spec fn edited(line: Seq<char>, e: EditView) -> Seq<char> {
    match e.action {
        ActionView::Replace(t) => replaced(line, e.start_col as int, e.end_col as int, t),
        ActionView::DeleteUnit => {
            let b = delete_bounds(line, e.start_col as int, e.end_col as int);
            line.take(b.0) + line.skip(b.1)
        },
        ActionView::DeleteCall => {
            let b = call_delete_bounds(line, e.start_col as int, e.end_col as int);
            replaced(line, b.0, b.1, Seq::empty())
        },
    }
}

/// The lines after the edits, made one after the other.
pub open spec fn apply_edits(ls: Seq<Seq<char>>, edits: Seq<EditView>) -> Seq<Seq<char>>
    decreases edits.len(),
{
    if edits.len() == 0 {
        ls
    } else {
        let prev = apply_edits(ls, edits.drop_last());
        let e = edits.last();
        if e.row < prev.len() {
            prev.update(e.row as int, edited(prev[e.row as int], e))
        } else {
            prev
        }
    }
}

/// Each edit can be made on the lines as the edits before it left them.
pub open spec fn edits_fit(ls: Seq<Seq<char>>, edits: Seq<EditView>) -> bool
    decreases edits.len(),
{
    if edits.len() == 0 {
        true
    } else {
        let prev = apply_edits(ls, edits.drop_last());
        let e = edits.last();
        &&& edits_fit(ls, edits.drop_last())
        &&& (e.row < prev.len() ==> edit_fits(prev[e.row as int], e))
    }
}

proof fn lemma_apply_len(ls: Seq<Seq<char>>, edits: Seq<EditView>)
    ensures
        apply_edits(ls, edits).len() == ls.len(),
    decreases edits.len(),
{
    if edits.len() > 0 {
        lemma_apply_len(ls, edits.drop_last());
    }
}

fn apply_edit(line: &mut String, e: &SpanEdit)
    requires
        edit_fits(old(line)@, e@),
    ensures
        final(line)@ == edited(old(line)@, e@),
{
    match &e.action {
        EditAction::Replace(t) => replace_char_range(line, e.start_col, e.end_col, t.as_str()),
        EditAction::DeleteUnit => {
            let u = UnitSpan {
                row: e.row,
                start_col: e.start_col,
                end_col: e.end_col,
                token: String::new(),
                kind: crate::studio::selection::UnitKind::Pitch,
            };
            delete_unit(line, &u);
        },
        EditAction::DeleteCall => delete_template_call(line, e.start_col, e.end_col),
    }
}

/// Makes the edits on `lines`, one after the other.
pub fn apply_span_edits(lines: &mut Vec<String>, edits: &[SpanEdit])
    requires
        edits_fit(string_views(old(lines)@), edit_views(edits@)),
    ensures
        string_views(final(lines)@) == apply_edits(string_views(old(lines)@), edit_views(edits@)),
{
    let ghost ls = string_views(lines@);
    let ghost ev = edit_views(edits@);
    let mut k: usize = 0;
    while k < edits.len()
        invariant
            k <= edits@.len(),
            ev == edit_views(edits@),
            edits_fit(ls, ev),
            string_views(lines@) == apply_edits(ls, ev.take(k as int)),
        decreases edits@.len() - k,
    {
        let ghost prev = string_views(lines@);
        proof {
            assert(ev.take(k as int + 1).drop_last() =~= ev.take(k as int));
            lemma_fit_prefix(ls, ev, k as int + 1);
            lemma_apply_len(ls, ev.take(k as int));
            assert(ev.take(k as int + 1).last() == edits@[k as int]@);
        }
        let row = edits[k].row;
        if row < lines.len() {
            let mut line = lines[row].clone();
            apply_edit(&mut line, &edits[k]);
            lines.set(row, line);
            proof {
                assert(string_views(lines@) =~= prev.update(row as int, edited(prev[row as int], edits@[k as int]@)));
            }
        }
        k += 1;
    }
    proof {
        assert(ev.take(edits@.len() as int) =~= ev);
    }
}

proof fn lemma_fit_prefix(ls: Seq<Seq<char>>, edits: Seq<EditView>, n: int)
    requires
        edits_fit(ls, edits),
        0 <= n <= edits.len(),
    ensures
        edits_fit(ls, edits.take(n)),
    decreases edits.len(),
{
    if n < edits.len() {
        assert(edits.drop_last().take(n) =~= edits.take(n));
        lemma_fit_prefix(ls, edits.drop_last(), n);
    } else {
        assert(edits.take(n) =~= edits);
    }
}

// ---------------------------------------------------------------------------
// Edits of the selected units
// ---------------------------------------------------------------------------

/// Why an edit of the selected spans was refused.
#[derive(Clone, Copy, Debug, PartialEq, Eq, Structural)]
pub enum BatchRefusal {
    DeleteNeedsUnits,
    UnitGone,
    ReplaceNeedsUnits,
    NoteEntryOnLaneBody,
    NoteEntryOnModifier,
    SubdivideNeedsUnits,
    SubdivideNeedsSeqOrLane,
    DeleteNeedsCalls,
    CallGone,
    ShrinkNeedsUnits,
    ShrinkNeedsGroups,
    NoCallSelected,
    InvalidCallForTranspose,
    InvalidCallForRepeat,
    InvalidCallForTimeScale,
    OnsetNeedsTokens,
    OnsetNeedsLaneBody,
    ToggleNeedsTokens,
    ToggleNeedsLaneBody,
}

impl BatchRefusal {
    pub open spec fn spec_message(self) -> Seq<char> {
        match self {
            BatchRefusal::DeleteNeedsUnits => "x applies to unit selection only"@,
            BatchRefusal::UnitGone => "Selected unit no longer exists"@,
            BatchRefusal::ReplaceNeedsUnits => "Replacement applies to unit selection only"@,
            BatchRefusal::NoteEntryOnLaneBody => "Note entry does not apply to lane body units"@,
            BatchRefusal::NoteEntryOnModifier => "Note entry does not apply to modifier units"@,
            BatchRefusal::SubdivideNeedsUnits => "Subdivide applies to unit selection only"@,
            BatchRefusal::SubdivideNeedsSeqOrLane => "Subdivide applies to seq or lane body unit selection only"@,
            BatchRefusal::DeleteNeedsCalls => "x applies to template call selection only"@,
            BatchRefusal::CallGone => "Selected template call no longer exists"@,
            BatchRefusal::ShrinkNeedsUnits => "Shrink applies to unit selection only"@,
            BatchRefusal::ShrinkNeedsGroups => "Shrink needs bracket groups"@,
            BatchRefusal::NoCallSelected => "No template call selected"@,
            BatchRefusal::InvalidCallForTranspose => "Template call transpose needs a valid call"@,
            BatchRefusal::InvalidCallForRepeat => "Template call repeat needs a valid call"@,
            BatchRefusal::InvalidCallForTimeScale => "Template call time-scale needs a valid call"@,
            BatchRefusal::OnsetNeedsTokens => "Onset edit applies to editable token selection only"@,
            BatchRefusal::OnsetNeedsLaneBody => "Onset edit applies to lane body token selection only"@,
            BatchRefusal::ToggleNeedsTokens => "Onset toggle applies to editable token selection only"@,
            BatchRefusal::ToggleNeedsLaneBody => "Onset toggle applies to lane body token selection only"@,
        }
    }

    /// What the status line says of the refusal.
    pub fn message(self) -> (r: &'static str)
        ensures
            r@ == self.spec_message(),
    {
        match self {
            BatchRefusal::DeleteNeedsUnits => "x applies to unit selection only",
            BatchRefusal::UnitGone => "Selected unit no longer exists",
            BatchRefusal::ReplaceNeedsUnits => "Replacement applies to unit selection only",
            BatchRefusal::NoteEntryOnLaneBody => "Note entry does not apply to lane body units",
            BatchRefusal::NoteEntryOnModifier => "Note entry does not apply to modifier units",
            BatchRefusal::SubdivideNeedsUnits => "Subdivide applies to unit selection only",
            BatchRefusal::SubdivideNeedsSeqOrLane => "Subdivide applies to seq or lane body unit selection only",
            BatchRefusal::DeleteNeedsCalls => "x applies to template call selection only",
            BatchRefusal::CallGone => "Selected template call no longer exists",
            BatchRefusal::ShrinkNeedsUnits => "Shrink applies to unit selection only",
            BatchRefusal::ShrinkNeedsGroups => "Shrink needs bracket groups",
            BatchRefusal::NoCallSelected => "No template call selected",
            BatchRefusal::InvalidCallForTranspose => "Template call transpose needs a valid call",
            BatchRefusal::InvalidCallForRepeat => "Template call repeat needs a valid call",
            BatchRefusal::InvalidCallForTimeScale => "Template call time-scale needs a valid call",
            BatchRefusal::OnsetNeedsTokens => "Onset edit applies to editable token selection only",
            BatchRefusal::OnsetNeedsLaneBody => "Onset edit applies to lane body token selection only",
            BatchRefusal::ToggleNeedsTokens => "Onset toggle applies to editable token selection only",
            BatchRefusal::ToggleNeedsLaneBody => "Onset toggle applies to lane body token selection only",
        }
    }
}

/// The key `(row, start column)` of each unit.
pub open spec fn unit_keys(units: Seq<UnitSpan>) -> Seq<(usize, usize)> {
    units.map_values(|u: UnitSpan| (u.row, u.start_col))
}

/// How an edit of the selected units treats each unit.
#[derive(Clone, Debug, PartialEq, Eq)]
pub enum UnitEditKind {
    Delete,
    Replace(String),
    Subdivide,
    Onset(char),
    ToggleOnset,
}

/// An edit of the selected units, as a mathematical value.
pub enum UnitEditView {
    Delete,
    Replace(Seq<char>),
    Subdivide,
    Onset(char),
    ToggleOnset,
}

impl View for UnitEditKind {
    type V = UnitEditView;

    open spec fn view(&self) -> UnitEditView {
        match self {
            UnitEditKind::Delete => UnitEditView::Delete,
            UnitEditKind::Replace(t) => UnitEditView::Replace(t@),
            UnitEditKind::Subdivide => UnitEditView::Subdivide,
            UnitEditKind::Onset(c) => UnitEditView::Onset(*c),
            UnitEditKind::ToggleOnset => UnitEditView::ToggleOnset,
        }
    }
}

/// The onset that toggling a unit's text gives: a rest for a note-on, else a
/// note-on.
pub open spec fn toggled(token: Seq<char>) -> char {
    if token == "^"@ {
        '.'
    } else {
        '^'
    }
}

fn char_text(c: char) -> (r: String)
    ensures
        r@ == seq![c],
{
    let mut v: Vec<char> = Vec::new();
    v.push(c);
    string_of(&v)
}

/// The edit of one unit.
pub open spec fn unit_edit(u: UnitSpan, kind: UnitEditView) -> EditView {
    EditView {
        row: u.row,
        start_col: u.start_col,
        end_col: u.end_col,
        action: match kind {
            UnitEditView::Delete => ActionView::DeleteUnit,
            UnitEditView::Replace(t) => ActionView::Replace(t),
            UnitEditView::Subdivide => ActionView::Replace("["@ + u.token@ + " .]"@),
            UnitEditView::Onset(c) => ActionView::Replace(seq![c]),
            UnitEditView::ToggleOnset => ActionView::Replace(seq![toggled(u.token@)]),
        },
    }
}

/// The edits of the units, from the last to the first by `(row, start column)`
/// (units with the same key in the order given).
pub open spec fn unit_edits(units: Seq<UnitSpan>, kind: UnitEditView) -> Seq<EditView> {
    let order = stable_order(unit_keys(units), units.len() as int, true);
    Seq::new(units.len(), |k: int| unit_edit(units[order[k]], kind))
}

/// Every unit is on a row of the lines.
pub open spec fn units_on_rows(ls: Seq<Seq<char>>, units: Seq<UnitSpan>) -> bool {
    forall|k: int| 0 <= k < units.len() ==> (#[trigger] units[k]).row < ls.len()
}

proof fn lemma_stable_order_perm(keys: Seq<(usize, usize)>, n: int, descending: bool)
    requires
        0 <= n,
    ensures
        stable_order(keys, n, descending).len() == n,
        forall|k: int| 0 <= k < n ==> 0 <= #[trigger] stable_order(keys, n, descending)[k] < n,
    decreases n,
{
    if n > 0 {
        lemma_stable_order_perm(keys, n - 1, descending);
        let o = stable_order(keys, n - 1, descending);
        match first_where(o.len() as int, goes_before(keys, o, n - 1, descending)) {
            Some(p) => {
                crate::text::lemma_first_where_some(o.len() as int, goes_before(keys, o, n - 1, descending));
                let r = o.take(p) + seq![n - 1] + o.skip(p);
                assert forall|k: int| 0 <= k < n implies 0 <= #[trigger] r[k] < n by {
                    if k < p {
                        assert(r[k] == o[k]);
                    } else if k > p {
                        assert(r[k] == o[k - 1]);
                    }
                }
            },
            None => {
                let r = o.push(n - 1);
                assert forall|k: int| 0 <= k < n implies 0 <= #[trigger] r[k] < n by {
                    if k < n - 1 {
                        assert(r[k] == o[k]);
                    }
                }
            },
        }
    }
}

fn unit_key_vec(units: &[UnitSpan]) -> (r: Vec<(usize, usize)>)
    ensures
        r@ == unit_keys(units@),
{
    let mut r: Vec<(usize, usize)> = Vec::new();
    let mut k: usize = 0;
    while k < units.len()
        invariant
            k <= units@.len(),
            r@ == unit_keys(units@.take(k as int)),
        decreases units@.len() - k,
    {
        r.push((units[k].row, units[k].start_col));
        proof {
            assert(unit_keys(units@.take(k as int + 1)) =~= unit_keys(units@.take(k as int)).push((units@[k as int].row, units@[k as int].start_col)));
        }
        k += 1;
    }
    proof {
        assert(units@.take(units@.len() as int) =~= units@);
    }
    r
}

fn unit_edit_of(u: &UnitSpan, kind: &UnitEditKind) -> (e: SpanEdit)
    ensures
        e@ == unit_edit(*u, kind@),
{
    let action = match kind {
        UnitEditKind::Delete => EditAction::DeleteUnit,
        UnitEditKind::Replace(t) => EditAction::Replace(t.clone()),
        UnitEditKind::Subdivide => EditAction::Replace(subdivided_unit(u.token.as_str())),
        UnitEditKind::Onset(c) => EditAction::Replace(char_text(*c)),
        UnitEditKind::ToggleOnset => EditAction::Replace(char_text(toggled_onset_token(u.token.as_str()))),
    };
    SpanEdit { row: u.row, start_col: u.start_col, end_col: u.end_col, action }
}

/// The edits of the units, in the order in which they are made.
fn unit_edit_vec(units: &[UnitSpan], kind: &UnitEditKind) -> (r: Vec<SpanEdit>)
    ensures
        edit_views(r@) == unit_edits(units@, kind@),
{
    let keys = unit_key_vec(units);
    let order = stable_order_of(keys.as_slice(), true);
    let ghost o = stable_order(unit_keys(units@), units@.len() as int, true);
    let mut r: Vec<SpanEdit> = Vec::new();
    let mut k: usize = 0;
    while k < order.len()
        invariant
            k <= order@.len(),
            order@.len() == units@.len(),
            ints(order@) == o,
            forall|j: int| 0 <= j < order@.len() ==> #[trigger] order@[j] < units@.len(),
            edit_views(r@) == Seq::new(k as nat, |j: int| unit_edit(units@[o[j]], kind@)),
        decreases order@.len() - k,
    {
        let e = unit_edit_of(&units[order[k]], kind);
        let ghost prev = r@;
        r.push(e);
        proof {
            assert(edit_views(r@) =~= edit_views(prev).push(e@));
            assert(o[k as int] == order@[k as int] as int);
            assert(edit_views(r@) =~= Seq::new(k as nat + 1, |j: int| unit_edit(units@[o[j]], kind@)));
        }
        k += 1;
    }
    proof {
        assert(edit_views(r@) =~= unit_edits(units@, kind@));
    }
    r
}

fn all_units_on_rows(lines: &[String], units: &[UnitSpan]) -> (b: bool)
    ensures
        b == units_on_rows(string_views(lines@), units@),
{
    let mut k: usize = 0;
    while k < units.len()
        invariant
            k <= units@.len(),
            forall|j: int| 0 <= j < k ==> (#[trigger] units@[j]).row < lines@.len(),
        decreases units@.len() - k,
    {
        if units[k].row >= lines.len() {
            assert(units@[k as int].row >= string_views(lines@).len());
            return false;
        }
        k += 1;
    }
    true
}

/// Deletes the selected units, each with the separator next to it (see
/// `delete_bounds`), from the last to the first, and gives how many were deleted.
/// On a refusal the lines stay as they were.
pub fn delete_units_in_lines(lines: &mut Vec<String>, selected: &[UnitSpan]) -> (r: Result<usize, BatchRefusal>)
    requires
        edits_fit(string_views(old(lines)@), unit_edits(selected@, UnitEditView::Delete)),
    ensures
        ({
            let ls = string_views(old(lines)@);
            if selected@.len() == 0 {
                r == Err::<usize, BatchRefusal>(BatchRefusal::DeleteNeedsUnits) && final(lines)@ == old(lines)@
            } else if !units_on_rows(ls, selected@) {
                r == Err::<usize, BatchRefusal>(BatchRefusal::UnitGone) && final(lines)@ == old(lines)@
            } else {
                r == Ok::<usize, BatchRefusal>(selected@.len() as usize) && string_views(final(lines)@) == apply_edits(
                    ls,
                    unit_edits(selected@, UnitEditView::Delete),
                )
            }
        }),
{
    if selected.len() == 0 {
        return Err(BatchRefusal::DeleteNeedsUnits);
    }
    if !all_units_on_rows(lines.as_slice(), selected) {
        return Err(BatchRefusal::UnitGone);
    }
    let edits = unit_edit_vec(selected, &UnitEditKind::Delete);
    apply_span_edits(lines, edits.as_slice());
    Ok(selected.len())
}

/// Why replacing the selected units by `replacement` is refused, if it is: note
/// entry (a replacement other than a rest `.` or a sustain `-`) does not go into a
/// lane body, and no replacement goes into a modifier value.
pub open spec fn replace_refusal(ls: Seq<Seq<char>>, selected: Seq<UnitSpan>, replacement: Seq<char>) -> Option<BatchRefusal> {
    if selected.len() == 0 {
        Some(BatchRefusal::ReplaceNeedsUnits)
    } else if replacement != "."@ && replacement != "-"@ && exists|k: int|
        0 <= k < selected.len() && (#[trigger] selected[k]).row < ls.len() && lane_body_unit(ls[selected[k].row as int], selected[k]) {
        Some(BatchRefusal::NoteEntryOnLaneBody)
    } else if exists|k: int| 0 <= k < selected.len() && (#[trigger] selected[k]).kind.spec_is_modifier() {
        Some(BatchRefusal::NoteEntryOnModifier)
    } else if !units_on_rows(ls, selected) {
        Some(BatchRefusal::UnitGone)
    } else {
        None
    }
}

/// What the status line calls a replacement: `Rested` for `.`, `Sustained` for
/// `-`, `Replaced` otherwise.
pub open spec fn spec_replacement_verb(replacement: Seq<char>) -> Seq<char> {
    if replacement == "."@ {
        "Rested"@
    } else if replacement == "-"@ {
        "Sustained"@
    } else {
        "Replaced"@
    }
}

pub fn replacement_verb(replacement: &str) -> (r: &'static str)
    ensures
        r@ == spec_replacement_verb(replacement@),
{
    proof {
        reveal_strlit(".");
        reveal_strlit("-");
    }
    let v = chars_of(replacement);
    if v.len() == 1 && v[0] == '.' {
        assert(replacement@ =~= "."@);
        "Rested"
    } else if v.len() == 1 && v[0] == '-' {
        assert(replacement@ =~= "-"@);
        "Sustained"
    } else {
        assert(replacement@ != "."@);
        assert(replacement@ != "-"@);
        "Replaced"
    }
}

fn is_rest_or_sustain(replacement: &str) -> (b: bool)
    ensures
        b == (replacement@ == "."@ || replacement@ == "-"@),
{
    proof {
        reveal_strlit(".");
        reveal_strlit("-");
    }
    let v = chars_of(replacement);
    if v.len() == 1 && (v[0] == '.' || v[0] == '-') {
        if v[0] == '.' {
            assert(replacement@ =~= "."@);
        } else {
            assert(replacement@ =~= "-"@);
        }
        true
    } else {
        assert(replacement@ != "."@);
        assert(replacement@ != "-"@);
        false
    }
}

fn any_lane_body(lines: &[String], selected: &[UnitSpan]) -> (b: bool)
    ensures
        b == exists|k: int|
            0 <= k < selected@.len() && (#[trigger] selected@[k]).row < string_views(lines@).len() && lane_body_unit(
                string_views(lines@)[selected@[k].row as int],
                selected@[k],
            ),
{
    let ghost ls = string_views(lines@);
    let mut k: usize = 0;
    while k < selected.len()
        invariant
            k <= selected@.len(),
            ls == string_views(lines@),
            forall|j: int| 0 <= j < k ==> !((#[trigger] selected@[j]).row < ls.len() && lane_body_unit(
                ls[selected@[j].row as int],
                selected@[j],
            )),
        decreases selected@.len() - k,
    {
        let row = selected[k].row;
        if row < lines.len() {
            if is_lane_body_token(lines[row].as_str(), &selected[k]) {
                assert(selected@[k as int].row < ls.len() && lane_body_unit(ls[row as int], selected@[k as int]));
                return true;
            }
        }
        k += 1;
    }
    false
}

fn any_modifier(selected: &[UnitSpan]) -> (b: bool)
    ensures
        b == exists|k: int| 0 <= k < selected@.len() && (#[trigger] selected@[k]).kind.spec_is_modifier(),
{
    let mut k: usize = 0;
    while k < selected.len()
        invariant
            k <= selected@.len(),
            forall|j: int| 0 <= j < k ==> !(#[trigger] selected@[j]).kind.spec_is_modifier(),
        decreases selected@.len() - k,
    {
        if selected[k].kind.is_modifier() {
            assert(selected@[k as int].kind.spec_is_modifier());
            return true;
        }
        k += 1;
    }
    false
}

/// Replaces the selected units by `replacement`, from the last to the first, and
/// gives how many were replaced. On a refusal the lines stay as they were.
pub fn replace_units_in_lines(lines: &mut Vec<String>, selected: &[UnitSpan], replacement: &str) -> (r: Result<
    usize,
    BatchRefusal,
>)
    requires
        edits_fit(string_views(old(lines)@), unit_edits(selected@, UnitEditView::Replace(replacement@))),
    ensures
        ({
            let ls = string_views(old(lines)@);
            match replace_refusal(ls, selected@, replacement@) {
                Some(e) => r == Err::<usize, BatchRefusal>(e) && final(lines)@ == old(lines)@,
                None => r == Ok::<usize, BatchRefusal>(selected@.len() as usize) && string_views(final(lines)@)
                    == apply_edits(ls, unit_edits(selected@, UnitEditView::Replace(replacement@))),
            }
        }),
{
    let ghost ls = string_views(lines@);
    if selected.len() == 0 {
        return Err(BatchRefusal::ReplaceNeedsUnits);
    }
    if !is_rest_or_sustain(replacement) && any_lane_body(lines.as_slice(), selected) {
        return Err(BatchRefusal::NoteEntryOnLaneBody);
    }
    if any_modifier(selected) {
        return Err(BatchRefusal::NoteEntryOnModifier);
    }
    if !all_units_on_rows(lines.as_slice(), selected) {
        return Err(BatchRefusal::UnitGone);
    }
    let kind = UnitEditKind::Replace(crate::text::owned(replacement));
    let edits = unit_edit_vec(selected, &kind);
    apply_span_edits(lines, edits.as_slice());
    Ok(selected.len())
}

/// A unit can be subdivided: a `seq` body unit, or a lane body unit of a line that
/// is not a `seq` line.
pub open spec fn subdividable(line: Seq<char>, u: UnitSpan) -> bool {
    u.kind.spec_is_seq_body() || (!spec_is_seq_line(line) && lane_body_unit(line, u))
}

/// Why subdividing the selected units is refused, if it is.
pub open spec fn subdivide_refusal(ls: Seq<Seq<char>>, selected: Seq<UnitSpan>, selected_indices: Seq<usize>) -> Option<BatchRefusal> {
    if selected.len() == 0 {
        Some(BatchRefusal::SubdivideNeedsUnits)
    } else if exists|k: int| 0 <= k < selected.len() && !((#[trigger] selected[k]).row < ls.len() && subdividable(ls[selected[k].row as int], selected[k])) {
        Some(BatchRefusal::SubdivideNeedsSeqOrLane)
    } else if selected_indices.len() == 0 {
        Some(BatchRefusal::SubdivideNeedsUnits)
    } else {
        None
    }
}

/// Subdivides each selected unit `u` into `[u .]`, from the last to the first, and
/// gives the indices that the selection takes afterwards: twice as many, from the
/// first selected index on. On a refusal the lines stay as they were.
pub fn subdivide_units_in_lines(lines: &mut Vec<String>, selected: &[UnitSpan], selected_indices: &[usize]) -> (r: Result<
    Vec<usize>,
    BatchRefusal,
>)
    requires
        edits_fit(string_views(old(lines)@), unit_edits(selected@, UnitEditView::Subdivide)),
        selected_indices@.len() > 0 ==> selected_indices@[0] + 2 * selected_indices@.len() <= usize::MAX,
    ensures
        ({
            let ls = string_views(old(lines)@);
            match subdivide_refusal(ls, selected@, selected_indices@) {
                Some(e) => r == Err::<Vec<usize>, BatchRefusal>(e) && final(lines)@ == old(lines)@,
                None => {
                    &&& string_views(final(lines)@) == apply_edits(ls, unit_edits(selected@, UnitEditView::Subdivide))
                    &&& r matches Ok(ix) && ix@ == Seq::new(
                        2 * selected_indices@.len(),
                        |k: int| (selected_indices@[0] + k) as usize,
                    )
                },
            }
        }),
{
    let ghost ls = string_views(lines@);
    if selected.len() == 0 {
        return Err(BatchRefusal::SubdivideNeedsUnits);
    }
    let mut k: usize = 0;
    while k < selected.len()
        invariant
            k <= selected@.len(),
            ls == string_views(lines@),
            forall|j: int| 0 <= j < k ==> ((#[trigger] selected@[j]).row < ls.len() && subdividable(
                ls[selected@[j].row as int],
                selected@[j],
            )),
        decreases selected@.len() - k,
    {
        let row = selected[k].row;
        if row >= lines.len() || !is_subdividable_token(lines[row].as_str(), &selected[k]) {
            assert(!(selected@[k as int].row < ls.len() && subdividable(ls[row as int], selected@[k as int])));
            return Err(BatchRefusal::SubdivideNeedsSeqOrLane);
        }
        k += 1;
    }
    if selected_indices.len() == 0 {
        return Err(BatchRefusal::SubdivideNeedsUnits);
    }
    let edits = unit_edit_vec(selected, &UnitEditKind::Subdivide);
    apply_span_edits(lines, edits.as_slice());
    let first = selected_indices[0];
    let n = 2 * selected_indices.len();
    let mut ix: Vec<usize> = Vec::new();
    let mut j: usize = 0;
    while j < n
        invariant
            j <= n,
            first + n <= usize::MAX,
            ix@ == Seq::new(j as nat, |k: int| (first + k) as usize),
        decreases n - j,
    {
        ix.push(first + j);
        proof {
            assert(ix@ =~= Seq::new(j as nat + 1, |k: int| (first + k) as usize));
        }
        j += 1;
    }
    Ok(ix)
}

// ---------------------------------------------------------------------------
// Deleting the selected template calls
// ---------------------------------------------------------------------------

/// The key `(row, start column)` of each template call.
pub open spec fn call_keys(calls: Seq<TemplateCallSpan>) -> Seq<(usize, usize)> {
    calls.map_values(|c: TemplateCallSpan| (c.row, c.start_col))
}

/// The deletions of the template calls, from the last to the first by `(row,
/// start column)`.
pub open spec fn call_deletions(calls: Seq<TemplateCallSpan>) -> Seq<EditView> {
    let order = stable_order(call_keys(calls), calls.len() as int, true);
    Seq::new(
        calls.len(),
        |k: int| EditView {
            row: calls[order[k]].row,
            start_col: calls[order[k]].start_col,
            end_col: calls[order[k]].end_col,
            action: ActionView::DeleteCall,
        },
    )
}

/// Deletes the selected template calls, each with the blanks next to it (see
/// `call_delete_bounds`), from the last to the first, and gives how many were
/// deleted. On a refusal the lines stay as they were.
pub fn delete_calls_in_lines(lines: &mut Vec<String>, selected: &[TemplateCallSpan]) -> (r: Result<usize, BatchRefusal>)
    requires
        edits_fit(string_views(old(lines)@), call_deletions(selected@)),
    ensures
        ({
            let ls = string_views(old(lines)@);
            if selected@.len() == 0 {
                r == Err::<usize, BatchRefusal>(BatchRefusal::DeleteNeedsCalls) && final(lines)@ == old(lines)@
            } else if exists|k: int| 0 <= k < selected@.len() && (#[trigger] selected@[k]).row >= ls.len() {
                r == Err::<usize, BatchRefusal>(BatchRefusal::CallGone) && final(lines)@ == old(lines)@
            } else {
                r == Ok::<usize, BatchRefusal>(selected@.len() as usize) && string_views(final(lines)@) == apply_edits(
                    ls,
                    call_deletions(selected@),
                )
            }
        }),
{
    let ghost ls = string_views(lines@);
    if selected.len() == 0 {
        return Err(BatchRefusal::DeleteNeedsCalls);
    }
    let mut keys: Vec<(usize, usize)> = Vec::new();
    let mut k: usize = 0;
    while k < selected.len()
        invariant
            k <= selected@.len(),
            ls == string_views(lines@),
            keys@ == call_keys(selected@.take(k as int)),
            forall|j: int| 0 <= j < k ==> (#[trigger] selected@[j]).row < ls.len(),
        decreases selected@.len() - k,
    {
        if selected[k].row >= lines.len() {
            assert(selected@[k as int].row >= ls.len());
            return Err(BatchRefusal::CallGone);
        }
        keys.push((selected[k].row, selected[k].start_col));
        proof {
            assert(call_keys(selected@.take(k as int + 1)) =~= call_keys(selected@.take(k as int)).push(
                (selected@[k as int].row, selected@[k as int].start_col),
            ));
        }
        k += 1;
    }
    proof {
        assert(selected@.take(selected@.len() as int) =~= selected@);
    }
    let order = stable_order_of(keys.as_slice(), true);
    let ghost o = stable_order(call_keys(selected@), selected@.len() as int, true);
    let mut edits: Vec<SpanEdit> = Vec::new();
    let mut k: usize = 0;
    while k < order.len()
        invariant
            k <= order@.len(),
            order@.len() == selected@.len(),
            ints(order@) == o,
            o == stable_order(call_keys(selected@), selected@.len() as int, true),
            forall|j: int| 0 <= j < order@.len() ==> #[trigger] order@[j] < selected@.len(),
            edit_views(edits@) == call_deletions(selected@).take(k as int),
        decreases order@.len() - k,
    {
        let c = &selected[order[k]];
        let e = SpanEdit { row: c.row, start_col: c.start_col, end_col: c.end_col, action: EditAction::DeleteCall };
        let ghost prev = edits@;
        edits.push(e);
        proof {
            assert(o[k as int] == order@[k as int] as int);
            assert(edit_views(edits@) =~= edit_views(prev).push(e@));
            assert(call_deletions(selected@)[k as int] == e@);
            assert(call_deletions(selected@).take(k as int + 1) =~= call_deletions(selected@).take(k as int).push(e@));
        }
        k += 1;
    }
    proof {
        assert(call_deletions(selected@).take(selected@.len() as int) =~= call_deletions(selected@));
    }
    apply_span_edits(lines, edits.as_slice());
    Ok(selected.len())
}

// ---------------------------------------------------------------------------
// When replacements can be made
// ---------------------------------------------------------------------------

proof fn lemma_replacements_fit(ls: Seq<Seq<char>>, edits: Seq<EditView>)
    requires
        forall|k: int| 0 <= k < edits.len() ==> (#[trigger] edits[k]).action is Replace && edits[k].start_col <= edits[k].end_col,
    ensures
        edits_fit(ls, edits),
    decreases edits.len(),
{
    if edits.len() > 0 {
        let d = edits.drop_last();
        assert forall|k: int| 0 <= k < d.len() implies (#[trigger] d[k]).action is Replace && d[k].start_col <= d[k].end_col by {
            assert(d[k] == edits[k]);
        }
        lemma_replacements_fit(ls, d);
        assert(edits.last() == edits[edits.len() - 1]);
    }
}

/// Replacing or subdividing units whose columns are in order can always be done,
/// whatever the lines: a replacement never meets a span it cannot cut.
pub proof fn unit_replacements_fit(ls: Seq<Seq<char>>, units: Seq<UnitSpan>, kind: UnitEditView)
    requires
        !(kind is Delete),
        forall|k: int| 0 <= k < units.len() ==> (#[trigger] units[k]).start_col <= units[k].end_col,
    ensures
        edits_fit(ls, unit_edits(units, kind)),
{
    let n = units.len() as int;
    lemma_stable_order_perm(unit_keys(units), n, true);
    let o = stable_order(unit_keys(units), n, true);
    let es = unit_edits(units, kind);
    assert forall|k: int| 0 <= k < es.len() implies (#[trigger] es[k]).action is Replace && es[k].start_col <= es[k].end_col by {
        assert(0 <= o[k] < n);
        assert(es[k] == unit_edit(units[o[k]], kind));
    }
    lemma_replacements_fit(ls, es);
}

// ---------------------------------------------------------------------------
// Shrinking the bracket groups of the selected units
// ---------------------------------------------------------------------------

/// The bracket group around column `col` of `line` that shrinking collapses: the
/// innermost pair of brackets around it, as `(opening column, column after the
/// closing bracket, text of the first-level element under col)`; `None` when no
/// pair is around `col` or no element of the innermost one is under it.
pub open spec fn group_at(line: Seq<char>, col: int) -> Option<(int, int, Seq<char>)> {
    if exists|i: int, j: int| innermost_pair(line, i, col, j) {
        let (i, j) = choose|i: int, j: int| innermost_pair(line, i, col, j);
        let es = group_elements(line, i + 1, j);
        match element_at(es, col) {
            Some(k) => Some((i, j + 1, line.subrange(es[k].0, es[k].1))),
            None => None,
        }
    } else {
        None
    }
}

proof fn lemma_innermost_unique(line: Seq<char>, col: int, i1: int, j1: int, i2: int, j2: int)
    requires
        innermost_pair(line, i1, col, j1),
        innermost_pair(line, i2, col, j2),
    ensures
        i1 == i2 && j1 == j2,
{
    assert(i1 <= i2);
    assert(i2 <= i1);
    lemma_pair_unique(line, i1, j1, j2);
}

fn group_of(line: &str, u: &UnitSpan) -> (r: Option<crate::studio::selection::GroupSpan>)
    ensures
        match group_at(line@, u.start_col as int) {
            Some(g) => r matches Some(x) && x.start_col == g.0 && x.end_col == g.1 && x.selected_element@ == g.2,
            None => r is None,
        },
{
    let r = shrinkable_group_at_token(line, u);
    let ghost col = u.start_col as int;
    proof {
        match &r {
            Some(x) => {
                let (i, j) = choose|i: int, j: int| innermost_pair(line@, i, col, j);
                lemma_innermost_unique(line@, col, i, j, x.start_col as int, x.end_col - 1);
            },
            None => {
                if exists|i: int, j: int| innermost_pair(line@, i, col, j) {
                    let (i, j) = choose|i: int, j: int| innermost_pair(line@, i, col, j);
                    assert(bracket_pair(line@, i, j) && i < col < j);
                    let (i2, j2) = choose|i2: int, j2: int|
                        innermost_pair(line@, i2, col, j2) && element_at(group_elements(line@, i2 + 1, j2), col) is None;
                    lemma_innermost_unique(line@, col, i, j, i2, j2);
                }
            },
        }
    }
    r
}

/// The selected units in rising order of `(row, start column)`.
pub open spec fn units_rising(units: Seq<UnitSpan>) -> Seq<UnitSpan> {
    let order = stable_order(unit_keys(units), units.len() as int, false);
    Seq::new(units.len(), |k: int| units[order[k]])
}

/// The groups to shrink, `(row, start, end, element)`, found unit by unit in the
/// order given, each group once (by row and start); or why shrinking is refused.
pub open spec fn collect_groups(ls: Seq<Seq<char>>, units: Seq<UnitSpan>) -> Result<Seq<(usize, int, int, Seq<char>)>, BatchRefusal>
    decreases units.len(),
{
    if units.len() == 0 {
        Ok(Seq::empty())
    } else {
        match collect_groups(ls, units.drop_last()) {
            Err(e) => Err(e),
            Ok(gs) => {
                let u = units.last();
                if u.row >= ls.len() {
                    Err(BatchRefusal::UnitGone)
                } else {
                    match group_at(ls[u.row as int], u.start_col as int) {
                        None => Err(BatchRefusal::ShrinkNeedsGroups),
                        Some(g) => if exists|k: int| 0 <= k < gs.len() && (#[trigger] gs[k]).0 == u.row && gs[k].1 == g.0 {
                            Ok(gs)
                        } else {
                            Ok(gs.push((u.row, g.0, g.1, g.2)))
                        },
                    }
                }
            },
        }
    }
}

pub open spec fn group_keys(gs: Seq<(usize, int, int, Seq<char>)>) -> Seq<(usize, usize)> {
    gs.map_values(|g: (usize, int, int, Seq<char>)| (g.0, g.1 as usize))
}

/// The shrinks of the groups, from the last to the first by `(row, start)`.
pub open spec fn group_edits(gs: Seq<(usize, int, int, Seq<char>)>) -> Seq<EditView> {
    let order = stable_order(group_keys(gs), gs.len() as int, true);
    Seq::new(
        gs.len(),
        |k: int| EditView {
            row: gs[order[k]].0,
            start_col: gs[order[k]].1 as usize,
            end_col: gs[order[k]].2 as usize,
            action: ActionView::Replace(gs[order[k]].3),
        },
    )
}

/// Where the selection goes after shrinking: the `(row, start)` of each group, in
/// rising order.
pub open spec fn group_positions(gs: Seq<(usize, int, int, Seq<char>)>) -> Seq<(usize, usize)> {
    let order = stable_order(group_keys(gs), gs.len() as int, false);
    Seq::new(gs.len(), |k: int| (gs[order[k]].0, gs[order[k]].1 as usize))
}

/// The groups as `(row, start, end, element)`.
pub open spec fn group_list(rows: Seq<usize>, groups: Seq<crate::studio::selection::GroupSpan>) -> Seq<(usize, int, int, Seq<char>)> {
    Seq::new(
        rows.len(),
        |i: int| (rows[i], groups[i].start_col as int, groups[i].end_col as int, groups[i].selected_element@),
    )
}

proof fn lemma_collect_err(ls: Seq<Seq<char>>, t: Seq<UnitSpan>, n: int)
    requires
        0 <= n <= t.len(),
        collect_groups(ls, t.take(n)) is Err,
    ensures
        collect_groups(ls, t) == collect_groups(ls, t.take(n)),
    decreases t.len(),
{
    if n == t.len() {
        assert(t.take(n) =~= t);
    } else {
        assert(t.drop_last().take(n) =~= t.take(n));
        lemma_collect_err(ls, t.drop_last(), n);
    }
}

fn collect_shrink_groups(lines: &[String], selected: &[UnitSpan]) -> (r: Result<
    (Vec<usize>, Vec<crate::studio::selection::GroupSpan>),
    BatchRefusal,
>)
    ensures
        match collect_groups(string_views(lines@), units_rising(selected@)) {
            Err(e) => r == Err::<(Vec<usize>, Vec<crate::studio::selection::GroupSpan>), BatchRefusal>(e),
            Ok(gs) => r matches Ok((rows, groups)) && rows@.len() == groups@.len() && group_list(rows@, groups@) == gs
                && forall|i: int| 0 <= i < groups@.len() ==> (#[trigger] groups@[i]).start_col < groups@[i].end_col,
        },
{
    let ghost ls = string_views(lines@);
    let keys = unit_key_vec(selected);
    let order = stable_order_of(keys.as_slice(), false);
    let ghost o = stable_order(unit_keys(selected@), selected@.len() as int, false);
    let ghost toks = units_rising(selected@);
    let mut rows: Vec<usize> = Vec::new();
    let mut groups: Vec<crate::studio::selection::GroupSpan> = Vec::new();
    proof {
        assert(toks.take(0) =~= Seq::<UnitSpan>::empty());
        assert(group_list(rows@, groups@) =~= Seq::<(usize, int, int, Seq<char>)>::empty());
    }
    let mut k: usize = 0;
    while k < order.len()
        invariant
            k <= order@.len(),
            order@.len() == selected@.len(),
            ints(order@) == o,
            o == stable_order(unit_keys(selected@), selected@.len() as int, false),
            toks == units_rising(selected@),
            forall|j: int| 0 <= j < order@.len() ==> #[trigger] order@[j] < selected@.len(),
            ls == string_views(lines@),
            rows@.len() == groups@.len(),
            collect_groups(ls, toks.take(k as int)) == Ok::<Seq<(usize, int, int, Seq<char>)>, BatchRefusal>(
                group_list(rows@, groups@),
            ),
            forall|j: int| 0 <= j < groups@.len() ==> (#[trigger] groups@[j]).start_col < groups@[j].end_col,
        decreases order@.len() - k,
    {
        let ghost gs = group_list(rows@, groups@);
        let u = &selected[order[k]];
        proof {
            assert(toks.take(k as int + 1).drop_last() =~= toks.take(k as int));
            assert(toks[k as int] == *u);
            assert(toks.take(k as int + 1).last() == *u);
        }
        if u.row >= lines.len() {
            proof {
                lemma_collect_err(ls, toks, k as int + 1);
            }
            return Err(BatchRefusal::UnitGone);
        }
        proof {
            assert(ls[u.row as int] == lines@[u.row as int]@);
        }
        let g = match group_of(lines[u.row].as_str(), u) {
            Some(g) => g,
            None => {
                proof {
                    lemma_collect_err(ls, toks, k as int + 1);
                }
                return Err(BatchRefusal::ShrinkNeedsGroups);
            },
        };
        let mut seen = false;
        let mut j: usize = 0;
        while j < groups.len()
            invariant
                j <= groups@.len(),
                rows@.len() == groups@.len(),
                gs == group_list(rows@, groups@),
                seen == exists|i: int| 0 <= i < j && (#[trigger] gs[i]).0 == u.row && gs[i].1 == g.start_col,
            decreases groups@.len() - j,
        {
            if rows[j] == u.row && groups[j].start_col == g.start_col {
                assert(gs[j as int].0 == u.row && gs[j as int].1 == g.start_col);
                seen = true;
            }
            j += 1;
        }
        if !seen {
            let ghost entry = (u.row, g.start_col as int, g.end_col as int, g.selected_element@);
            rows.push(u.row);
            groups.push(g);
            proof {
                assert(group_list(rows@, groups@) =~= gs.push(entry));
            }
        }
        k += 1;
    }
    proof {
        assert(toks.take(order@.len() as int) =~= toks);
    }
    Ok((rows, groups))
}

fn group_edit_vec(rows: &[usize], groups: &[crate::studio::selection::GroupSpan]) -> (r: Vec<SpanEdit>)
    requires
        rows@.len() == groups@.len(),
        forall|i: int| 0 <= i < groups@.len() ==> (#[trigger] groups@[i]).start_col < groups@[i].end_col,
    ensures
        edit_views(r@) == group_edits(group_list(rows@, groups@)),
        forall|i: int| 0 <= i < r@.len() ==> (#[trigger] edit_views(r@)[i]).action is Replace
            && edit_views(r@)[i].start_col <= edit_views(r@)[i].end_col,
{
    let ghost gs = group_list(rows@, groups@);
    let mut gkeys: Vec<(usize, usize)> = Vec::new();
    let mut j: usize = 0;
    while j < groups.len()
        invariant
            j <= groups@.len(),
            rows@.len() == groups@.len(),
            gs == group_list(rows@, groups@),
            gkeys@ == group_keys(gs.take(j as int)),
        decreases groups@.len() - j,
    {
        gkeys.push((rows[j], groups[j].start_col));
        proof {
            assert(group_keys(gs.take(j as int + 1)) =~= group_keys(gs.take(j as int)).push(
                (rows@[j as int], groups@[j as int].start_col),
            ));
        }
        j += 1;
    }
    proof {
        assert(gs.take(groups@.len() as int) =~= gs);
    }
    let down = stable_order_of(gkeys.as_slice(), true);
    let ghost od = stable_order(group_keys(gs), gs.len() as int, true);
    let mut edits: Vec<SpanEdit> = Vec::new();
    let mut k: usize = 0;
    while k < down.len()
        invariant
            k <= down@.len(),
            down@.len() == gs.len(),
            ints(down@) == od,
            od == stable_order(group_keys(gs), gs.len() as int, true),
            forall|i: int| 0 <= i < down@.len() ==> #[trigger] down@[i] < gs.len(),
            rows@.len() == groups@.len(),
            gs == group_list(rows@, groups@),
            forall|i: int| 0 <= i < groups@.len() ==> (#[trigger] groups@[i]).start_col < groups@[i].end_col,
            edit_views(edits@) == group_edits(gs).take(k as int),
            forall|i: int| 0 <= i < edits@.len() ==> (#[trigger] edit_views(edits@)[i]).action is Replace
                && edit_views(edits@)[i].start_col <= edit_views(edits@)[i].end_col,
        decreases down@.len() - k,
    {
        let i = down[k];
        let e = SpanEdit {
            row: rows[i],
            start_col: groups[i].start_col,
            end_col: groups[i].end_col,
            action: EditAction::Replace(groups[i].selected_element.clone()),
        };
        let ghost prev = edits@;
        edits.push(e);
        proof {
            assert(od[k as int] == i as int);
            assert(edit_views(edits@) =~= edit_views(prev).push(e@));
            assert(group_edits(gs)[k as int] == e@);
            assert(group_edits(gs).take(k as int + 1) =~= group_edits(gs).take(k as int).push(e@));
        }
        k += 1;
    }
    proof {
        assert(group_edits(gs).take(gs.len() as int) =~= group_edits(gs));
    }
    edits
}

fn group_position_vec(rows: &[usize], groups: &[crate::studio::selection::GroupSpan]) -> (r: Vec<(usize, usize)>)
    requires
        rows@.len() == groups@.len(),
    ensures
        r@ == group_positions(group_list(rows@, groups@)),
{
    let ghost gs = group_list(rows@, groups@);
    let mut gkeys: Vec<(usize, usize)> = Vec::new();
    let mut j: usize = 0;
    while j < groups.len()
        invariant
            j <= groups@.len(),
            rows@.len() == groups@.len(),
            gs == group_list(rows@, groups@),
            gkeys@ == group_keys(gs.take(j as int)),
        decreases groups@.len() - j,
    {
        gkeys.push((rows[j], groups[j].start_col));
        proof {
            assert(group_keys(gs.take(j as int + 1)) =~= group_keys(gs.take(j as int)).push(
                (rows@[j as int], groups@[j as int].start_col),
            ));
        }
        j += 1;
    }
    proof {
        assert(gs.take(groups@.len() as int) =~= gs);
    }
    let up = stable_order_of(gkeys.as_slice(), false);
    let ghost ou = stable_order(group_keys(gs), gs.len() as int, false);
    let mut ps: Vec<(usize, usize)> = Vec::new();
    let mut k: usize = 0;
    while k < up.len()
        invariant
            k <= up@.len(),
            up@.len() == gs.len(),
            ints(up@) == ou,
            ou == stable_order(group_keys(gs), gs.len() as int, false),
            forall|i: int| 0 <= i < up@.len() ==> #[trigger] up@[i] < gs.len(),
            rows@.len() == groups@.len(),
            gs == group_list(rows@, groups@),
            ps@ == group_positions(gs).take(k as int),
        decreases up@.len() - k,
    {
        let i = up[k];
        ps.push((rows[i], groups[i].start_col));
        proof {
            assert(ou[k as int] == i as int);
            assert(group_positions(gs)[k as int] == (rows@[i as int], groups@[i as int].start_col));
            assert(ps@ =~= group_positions(gs).take(k as int + 1));
        }
        k += 1;
    }
    proof {
        assert(group_positions(gs).take(gs.len() as int) =~= group_positions(gs));
    }
    ps
}

/// Shrinks the bracket group of each selected unit to the element under the unit
/// (each group once), from the last group to the first, and gives where the
/// selection goes: the start of each shrunk group, in order. On a refusal the lines
/// stay as they were.
pub fn shrink_groups_in_lines(lines: &mut Vec<String>, selected: &[UnitSpan]) -> (r: Result<Vec<(usize, usize)>, BatchRefusal>)
    ensures
        ({
            let ls = string_views(old(lines)@);
            if selected@.len() == 0 {
                r == Err::<Vec<(usize, usize)>, BatchRefusal>(BatchRefusal::ShrinkNeedsUnits) && final(lines)@ == old(lines)@
            } else {
                match collect_groups(ls, units_rising(selected@)) {
                    Err(e) => r == Err::<Vec<(usize, usize)>, BatchRefusal>(e) && final(lines)@ == old(lines)@,
                    Ok(gs) => if gs.len() == 0 {
                        r == Err::<Vec<(usize, usize)>, BatchRefusal>(BatchRefusal::ShrinkNeedsGroups)
                            && final(lines)@ == old(lines)@
                    } else {
                        &&& string_views(final(lines)@) == apply_edits(ls, group_edits(gs))
                        &&& r matches Ok(ps) && ps@ == group_positions(gs)
                    },
                }
            }
        }),
{
    if selected.len() == 0 {
        return Err(BatchRefusal::ShrinkNeedsUnits);
    }
    let (rows, groups) = match collect_shrink_groups(lines.as_slice(), selected) {
        Ok(p) => p,
        Err(e) => {
            return Err(e);
        },
    };
    if groups.len() == 0 {
        return Err(BatchRefusal::ShrinkNeedsGroups);
    }
    let edits = group_edit_vec(rows.as_slice(), groups.as_slice());
    proof {
        lemma_replacements_fit(string_views(lines@), edit_views(edits@));
    }
    apply_span_edits(lines, edits.as_slice());
    let ps = group_position_vec(rows.as_slice(), groups.as_slice());
    Ok(ps)
}

// ---------------------------------------------------------------------------
// Adjusting the selected template calls
// ---------------------------------------------------------------------------

/// What an adjustment of template calls moves.
#[derive(Clone, Copy, Debug, PartialEq, Eq, Structural)]
pub enum CallAdjust {
    Transpose,
    Repeat,
    TimeScale,
}

/// The call's text after the adjustment by `delta`.
#[verifier::opaque]
pub open spec fn adjusted_call(raw: Seq<char>, adjust: CallAdjust, delta: i32) -> Option<Seq<char>> {
    match adjust {
        CallAdjust::Transpose => transposed_call(raw, delta as int),
        CallAdjust::Repeat => repeated_call(raw, delta),
        CallAdjust::TimeScale => time_scaled_call(raw, delta),
    }
}

/// The adjustment of the call's text can be computed: its parameters read, and the
/// moved value fits an `i32`.
pub open spec fn adjust_computable(raw: Seq<char>, adjust: CallAdjust, delta: i32) -> bool {
    &&& call_params_ok(raw)
    &&& (editable_model(raw) matches Some(m) ==> match adjust {
        CallAdjust::Transpose => i32::MIN <= m.1 + delta <= i32::MAX,
        CallAdjust::Repeat => i32::MIN <= wrapped_i32(m.2 as u32) + delta <= i32::MAX,
        CallAdjust::TimeScale => i32::MIN <= wrapped_i32(m.3 as u32) + delta <= i32::MAX,
    })
}

pub open spec fn invalid_call_refusal(adjust: CallAdjust) -> BatchRefusal {
    match adjust {
        CallAdjust::Transpose => BatchRefusal::InvalidCallForTranspose,
        CallAdjust::Repeat => BatchRefusal::InvalidCallForRepeat,
        CallAdjust::TimeScale => BatchRefusal::InvalidCallForTimeScale,
    }
}

/// The selected calls from the last to the first by `(row, start column)`.
pub open spec fn calls_falling(calls: Seq<TemplateCallSpan>) -> Seq<TemplateCallSpan> {
    let order = stable_order(call_keys(calls), calls.len() as int, true);
    Seq::new(calls.len(), |k: int| calls[order[k]])
}

/// The first refusal met going through the calls in order: a call on a row past
/// the score, or one whose text cannot be adjusted.
#[verifier::opaque]
pub open spec fn adjust_failure(n_rows: nat, cs: Seq<TemplateCallSpan>, adjust: CallAdjust, delta: i32) -> Option<BatchRefusal>
    decreases cs.len(),
{
    if cs.len() == 0 {
        None
    } else if cs[0].row >= n_rows {
        Some(BatchRefusal::CallGone)
    } else if adjusted_call(cs[0].raw_text@, adjust, delta) is None {
        Some(invalid_call_refusal(adjust))
    } else {
        adjust_failure(n_rows, cs.skip(1), adjust, delta)
    }
}

/// Each call that going through the calls in order reaches can be adjusted.
#[verifier::opaque]
pub open spec fn adjust_reachable_ok(n_rows: nat, cs: Seq<TemplateCallSpan>, adjust: CallAdjust, delta: i32) -> bool
    decreases cs.len(),
{
    if cs.len() == 0 || cs[0].row >= n_rows {
        true
    } else {
        adjust_computable(cs[0].raw_text@, adjust, delta) && (adjusted_call(cs[0].raw_text@, adjust, delta) is None
            || adjust_reachable_ok(n_rows, cs.skip(1), adjust, delta))
    }
}

/// The replacements of the calls' texts, in the order of the calls.
pub open spec fn call_adjust_edits(cs: Seq<TemplateCallSpan>, adjust: CallAdjust, delta: i32) -> Seq<EditView> {
    Seq::new(
        cs.len(),
        |k: int| EditView {
            row: cs[k].row,
            start_col: cs[k].start_col,
            end_col: cs[k].end_col,
            action: ActionView::Replace(adjusted_call(cs[k].raw_text@, adjust, delta)->0),
        },
    )
}

fn adjusted_text(raw: &str, adjust: CallAdjust, delta: i32) -> (r: Option<String>)
    requires
        adjust_computable(raw@, adjust, delta),
    ensures
        match adjusted_call(raw@, adjust, delta) {
            Some(t) => r matches Some(x) && x@ == t,
            None => r is None,
        },
{
    reveal(adjusted_call);
    match adjust {
        CallAdjust::Transpose => transposed_template_call_text(raw, delta),
        CallAdjust::Repeat => template_call_text_with_repeat_delta(raw, delta),
        CallAdjust::TimeScale => template_call_text_with_time_scale_delta(raw, delta),
    }
}

proof fn lemma_failure_step(n_rows: nat, cs: Seq<TemplateCallSpan>, k: int, adjust: CallAdjust, delta: i32)
    requires
        0 <= k < cs.len(),
    ensures
        adjust_failure(n_rows, cs.skip(k), adjust, delta) == (if cs[k].row >= n_rows {
            Some(BatchRefusal::CallGone)
        } else if adjusted_call(cs[k].raw_text@, adjust, delta) is None {
            Some(invalid_call_refusal(adjust))
        } else {
            adjust_failure(n_rows, cs.skip(k + 1), adjust, delta)
        }),
        adjust_reachable_ok(n_rows, cs.skip(k), adjust, delta) == (if cs[k].row >= n_rows {
            true
        } else {
            adjust_computable(cs[k].raw_text@, adjust, delta) && (adjusted_call(cs[k].raw_text@, adjust, delta) is None
                || adjust_reachable_ok(n_rows, cs.skip(k + 1), adjust, delta))
        }),
{
    reveal(adjust_failure);
    reveal(adjust_reachable_ok);
    assert(cs.skip(k)[0] == cs[k]);
    assert(cs.skip(k).skip(1) =~= cs.skip(k + 1));
}

fn call_key_vec(calls: &[TemplateCallSpan]) -> (r: Vec<(usize, usize)>)
    ensures
        r@ == call_keys(calls@),
{
    let mut keys: Vec<(usize, usize)> = Vec::new();
    let mut k: usize = 0;
    while k < calls.len()
        invariant
            k <= calls@.len(),
            keys@ == call_keys(calls@.take(k as int)),
        decreases calls@.len() - k,
    {
        keys.push((calls[k].row, calls[k].start_col));
        proof {
            assert(call_keys(calls@.take(k as int + 1)) =~= call_keys(calls@.take(k as int)).push(
                (calls@[k as int].row, calls@[k as int].start_col),
            ));
        }
        k += 1;
    }
    proof {
        assert(calls@.take(calls@.len() as int) =~= calls@);
    }
    keys
}

/// The replacements of the selected calls' texts, from the last call to the first,
/// or the first refusal met in that order.
fn call_adjust_edit_vec(n_rows: usize, selected: &[TemplateCallSpan], adjust: CallAdjust, delta: i32) -> (r: Result<
    Vec<SpanEdit>,
    BatchRefusal,
>)
    requires
        adjust_reachable_ok(n_rows as nat, calls_falling(selected@), adjust, delta),
    ensures
        match adjust_failure(n_rows as nat, calls_falling(selected@), adjust, delta) {
            Some(e) => r == Err::<Vec<SpanEdit>, BatchRefusal>(e),
            None => r matches Ok(es) && edit_views(es@) == call_adjust_edits(calls_falling(selected@), adjust, delta),
        },
{
    let keys = call_key_vec(selected);
    let order = stable_order_of(keys.as_slice(), true);
    let ghost cs = calls_falling(selected@);
    let ghost o = stable_order(call_keys(selected@), selected@.len() as int, true);
    let mut edits: Vec<SpanEdit> = Vec::new();
    proof {
        assert(cs.skip(0) =~= cs);
    }
    let mut k: usize = 0;
    while k < order.len()
        invariant
            k <= order@.len(),
            order@.len() == selected@.len(),
            ints(order@) == o,
            o == stable_order(call_keys(selected@), selected@.len() as int, true),
            cs == calls_falling(selected@),
            forall|j: int| 0 <= j < order@.len() ==> #[trigger] order@[j] < selected@.len(),
            adjust_reachable_ok(n_rows as nat, cs.skip(k as int), adjust, delta),
            adjust_failure(n_rows as nat, cs, adjust, delta) == adjust_failure(n_rows as nat, cs.skip(k as int), adjust, delta),
            edit_views(edits@) == call_adjust_edits(cs, adjust, delta).take(k as int),
        decreases order@.len() - k,
    {
        let c = &selected[order[k]];
        proof {
            assert(cs[k as int] == *c);
            lemma_failure_step(n_rows as nat, cs, k as int, adjust, delta);
        }
        if c.row >= n_rows {
            return Err(BatchRefusal::CallGone);
        }
        let text = match adjusted_text(c.raw_text.as_str(), adjust, delta) {
            Some(t) => t,
            None => {
                return Err(match adjust {
                    CallAdjust::Transpose => BatchRefusal::InvalidCallForTranspose,
                    CallAdjust::Repeat => BatchRefusal::InvalidCallForRepeat,
                    CallAdjust::TimeScale => BatchRefusal::InvalidCallForTimeScale,
                });
            },
        };
        let e = SpanEdit { row: c.row, start_col: c.start_col, end_col: c.end_col, action: EditAction::Replace(text) };
        let ghost prev = edits@;
        edits.push(e);
        proof {
            assert(edit_views(edits@) =~= edit_views(prev).push(e@));
            assert(call_adjust_edits(cs, adjust, delta)[k as int] == e@);
            assert(call_adjust_edits(cs, adjust, delta).take(k as int + 1) =~= call_adjust_edits(cs, adjust, delta).take(
                k as int,
            ).push(e@));
        }
        k += 1;
    }
    proof {
        assert(cs.skip(order@.len() as int) =~= Seq::<TemplateCallSpan>::empty());
        reveal(adjust_failure);
        assert(call_adjust_edits(cs, adjust, delta).take(cs.len() as int) =~= call_adjust_edits(cs, adjust, delta));
    }
    Ok(edits)
}

/// Moves the transpose, repeat count or time scale of each selected template call
/// by `delta`, from the last call to the first, and gives how many were adjusted.
/// On a refusal (the first met in that order) the lines stay as they were.
pub fn adjust_calls_in_lines(
    lines: &mut Vec<String>,
    selected: &[TemplateCallSpan],
    adjust: CallAdjust,
    delta: i32,
) -> (r: Result<usize, BatchRefusal>)
    requires
        adjust_reachable_ok(old(lines)@.len(), calls_falling(selected@), adjust, delta),
        adjust_failure(old(lines)@.len(), calls_falling(selected@), adjust, delta) is None ==> edits_fit(
            string_views(old(lines)@),
            call_adjust_edits(calls_falling(selected@), adjust, delta),
        ),
    ensures
        ({
            let ls = string_views(old(lines)@);
            let cs = calls_falling(selected@);
            if selected@.len() == 0 {
                r == Err::<usize, BatchRefusal>(BatchRefusal::NoCallSelected) && final(lines)@ == old(lines)@
            } else {
                match adjust_failure(old(lines)@.len(), cs, adjust, delta) {
                    Some(e) => r == Err::<usize, BatchRefusal>(e) && final(lines)@ == old(lines)@,
                    None => r == Ok::<usize, BatchRefusal>(selected@.len() as usize) && string_views(final(lines)@)
                        == apply_edits(ls, call_adjust_edits(cs, adjust, delta)),
                }
            }
        }),
{
    if selected.len() == 0 {
        return Err(BatchRefusal::NoCallSelected);
    }
    let n_rows = lines.len();
    let edits = match call_adjust_edit_vec(n_rows, selected, adjust, delta) {
        Ok(es) => es,
        Err(e) => {
            return Err(e);
        },
    };
    apply_span_edits(lines, edits.as_slice());
    Ok(selected.len())
}

/// `{:+}` of a value: its sign, then its digits.
pub open spec fn plus_signed(n: int) -> Seq<char> {
    if n < 0 {
        signed_decimal(n)
    } else {
        seq!['+'] + decimal(n as nat)
    }
}

/// What the status line says after adjusting `n` selected template calls by
/// `delta`.
pub open spec fn spec_adjust_label(adjust: CallAdjust, n: nat, delta: i32) -> Seq<char> {
    let noun = if n == 1 { "template call"@ } else { "template calls"@ };
    match adjust {
        CallAdjust::Transpose => "Transposed "@ + decimal(n) + " "@ + noun + " by "@ + plus_signed(delta as int),
        CallAdjust::Repeat => "Adjusted repeat on "@ + decimal(n) + " "@ + noun + " by "@ + plus_signed(delta as int),
        CallAdjust::TimeScale => "Adjusted time-scale on "@ + decimal(n) + " "@ + noun + " by "@ + plus_signed(delta as int),
    }
}

pub fn adjust_label(adjust: CallAdjust, n: usize, delta: i32) -> (r: String)
    ensures
        r@ == spec_adjust_label(adjust, n as nat, delta),
{
    let mut v = match adjust {
        CallAdjust::Transpose => crate::text::chars_of("Transposed "),
        CallAdjust::Repeat => crate::text::chars_of("Adjusted repeat on "),
        CallAdjust::TimeScale => crate::text::chars_of("Adjusted time-scale on "),
    };
    append(&mut v, &crate::text::decimal_chars(n as u64));
    append(&mut v, &crate::text::chars_of(if n == 1 { " template call by " } else { " template calls by " }));
    if delta >= 0 {
        v.push('+');
    }
    append(&mut v, &signed_decimal_chars(delta as i64));
    proof {
        reveal_strlit("Transposed ");
        reveal_strlit("Adjusted repeat on ");
        reveal_strlit("Adjusted time-scale on ");
        reveal_strlit(" template call by ");
        reveal_strlit(" template calls by ");
        reveal_strlit(" ");
        reveal_strlit("template call");
        reveal_strlit("template calls");
        reveal_strlit(" by ");
    }
    let r = string_of(&v);
    assert(r@ =~= spec_adjust_label(adjust, n as nat, delta));
    r
}

// ---------------------------------------------------------------------------
// Onsets of the selected lane units
// ---------------------------------------------------------------------------

/// Every selected unit is in the body of a lane line of the score.
pub open spec fn all_lane_body(ls: Seq<Seq<char>>, units: Seq<UnitSpan>) -> bool {
    forall|k: int| 0 <= k < units.len() ==> (#[trigger] units[k]).row < ls.len() && lane_body_unit(ls[units[k].row as int], units[k])
}

fn all_in_lane_bodies(lines: &[String], units: &[UnitSpan]) -> (b: bool)
    ensures
        b == all_lane_body(string_views(lines@), units@),
{
    let ghost ls = string_views(lines@);
    let mut k: usize = 0;
    while k < units.len()
        invariant
            k <= units@.len(),
            ls == string_views(lines@),
            forall|j: int| 0 <= j < k ==> (#[trigger] units@[j]).row < ls.len() && lane_body_unit(ls[units@[j].row as int], units@[j]),
        decreases units@.len() - k,
    {
        let row = units[k].row;
        if row >= lines.len() || !is_lane_body_token(lines[row].as_str(), &units[k]) {
            assert(!(units@[k as int].row < ls.len() && lane_body_unit(ls[row as int], units@[k as int])));
            return false;
        }
        k += 1;
    }
    true
}

/// Sets each selected lane unit to the onset `token` (`^` note-on, `.` rest, `-`
/// sustain), from the last to the first, and gives how many were set. On a refusal
/// the lines stay as they were.
pub fn place_onsets_in_lines(lines: &mut Vec<String>, selected: &[UnitSpan], token: char) -> (r: Result<usize, BatchRefusal>)
    requires
        edits_fit(string_views(old(lines)@), unit_edits(selected@, UnitEditView::Onset(token))),
    ensures
        ({
            let ls = string_views(old(lines)@);
            if selected@.len() == 0 {
                r == Err::<usize, BatchRefusal>(BatchRefusal::OnsetNeedsTokens) && final(lines)@ == old(lines)@
            } else if !all_lane_body(ls, selected@) {
                r == Err::<usize, BatchRefusal>(BatchRefusal::OnsetNeedsLaneBody) && final(lines)@ == old(lines)@
            } else {
                r == Ok::<usize, BatchRefusal>(selected@.len() as usize) && string_views(final(lines)@) == apply_edits(
                    ls,
                    unit_edits(selected@, UnitEditView::Onset(token)),
                )
            }
        }),
{
    if selected.len() == 0 {
        return Err(BatchRefusal::OnsetNeedsTokens);
    }
    if !all_in_lane_bodies(lines.as_slice(), selected) {
        return Err(BatchRefusal::OnsetNeedsLaneBody);
    }
    let edits = unit_edit_vec(selected, &UnitEditKind::Onset(token));
    apply_span_edits(lines, edits.as_slice());
    Ok(selected.len())
}

/// Toggles each selected lane unit between a note-on and a rest (anything but a
/// note-on becomes one), from the last to the first, and gives how many were
/// toggled. On a refusal the lines stay as they were.
pub fn toggle_onsets_in_lines(lines: &mut Vec<String>, selected: &[UnitSpan]) -> (r: Result<usize, BatchRefusal>)
    requires
        edits_fit(string_views(old(lines)@), unit_edits(selected@, UnitEditView::ToggleOnset)),
    ensures
        ({
            let ls = string_views(old(lines)@);
            if selected@.len() == 0 {
                r == Err::<usize, BatchRefusal>(BatchRefusal::ToggleNeedsTokens) && final(lines)@ == old(lines)@
            } else if !all_lane_body(ls, selected@) {
                r == Err::<usize, BatchRefusal>(BatchRefusal::ToggleNeedsLaneBody) && final(lines)@ == old(lines)@
            } else {
                r == Ok::<usize, BatchRefusal>(selected@.len() as usize) && string_views(final(lines)@) == apply_edits(
                    ls,
                    unit_edits(selected@, UnitEditView::ToggleOnset),
                )
            }
        }),
{
    if selected.len() == 0 {
        return Err(BatchRefusal::ToggleNeedsTokens);
    }
    if !all_in_lane_bodies(lines.as_slice(), selected) {
        return Err(BatchRefusal::ToggleNeedsLaneBody);
    }
    let edits = unit_edit_vec(selected, &UnitEditKind::ToggleOnset);
    apply_span_edits(lines, edits.as_slice());
    Ok(selected.len())
}

} // verus!
