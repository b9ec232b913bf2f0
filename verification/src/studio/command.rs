//! The command line of the score editor (`:bpm 140`, `:loop 0 4`, `:w`, ...): what
//! a command says, and what running it does to the score.
use vstd::prelude::*;
use crate::studio::settings::{
    clear_loop_settings_frontmatter, score_body_start_row, set_bpm_frontmatter,
    set_loop_enabled_frontmatter, spec_clear_loop, spec_score_body_start, spec_set_simple,
};
use crate::studio::selection_model::StudioSelection;
use crate::studio::selection::{BarSpan, UnitSpan};
use crate::studio::template_ops::TemplateCallSpan;
use crate::studio::loop_bound::{bound_view, read_bound, read_loop_bound, BoundReading, LoopBound};
use crate::text::{
    append, chars_of, decimal, decimal_chars, eq_chars, parse_unsigned, parse_unsigned_at,
    split_lines, string_of, views, words, words_from,
};

verus! {

/// A command of the command line.
#[derive(Debug, PartialEq, Eq)]
pub enum StudioCommand {
    Bpm(u32),
    LoopOn,
    LoopOff,
    LoopClear,
    /// The two bounds as written. The bounds are read in turn: plain decimals are
    /// judged here (numbers, non-negative, the end past the start). From the first
    /// bound with an exponent or of more than fifteen digits on, the checks are the
    /// caller's, which reads the bounds as floating-point numbers.
    LoopRange { start: String, end: String },
    Save,
    Quit,
    ForceQuit,
    SaveQuit,
    Format,
}

/// A command as plain values.
pub enum CommandView {
    Bpm(u32),
    LoopOn,
    LoopOff,
    LoopClear,
    LoopRange(Seq<char>, Seq<char>),
    Save,
    Quit,
    ForceQuit,
    SaveQuit,
    Format,
}

pub open spec fn command_view(c: StudioCommand) -> CommandView {
    match c {
        StudioCommand::Bpm(b) => CommandView::Bpm(b),
        StudioCommand::LoopOn => CommandView::LoopOn,
        StudioCommand::LoopOff => CommandView::LoopOff,
        StudioCommand::LoopClear => CommandView::LoopClear,
        StudioCommand::LoopRange { start, end } => CommandView::LoopRange(start@, end@),
        StudioCommand::Save => CommandView::Save,
        StudioCommand::Quit => CommandView::Quit,
        StudioCommand::ForceQuit => CommandView::ForceQuit,
        StudioCommand::SaveQuit => CommandView::SaveQuit,
        StudioCommand::Format => CommandView::Format,
    }
}

/// A command that takes no argument: itself when it stands alone, else an error.
pub open spec fn no_args(ws: Seq<Seq<char>>, c: CommandView) -> Result<CommandView, Seq<char>> {
    if ws.len() == 1 {
        Ok(c)
    } else {
        Err("Command `"@ + ws[0] + "` takes no arguments"@)
    }
}

/// Why a loop bound that reads as `r` is refused, if it is.
pub open spec fn bound_refusal(r: BoundReading) -> Option<Seq<char>> {
    match r {
        BoundReading::NotNumber => Some("Loop range bounds must be numbers"@),
        BoundReading::NotNonNegative => Some("Loop range bounds must be non-negative numbers"@),
        _ => None,
    }
}

/// `loop <a> <b>`: the start is read, then the end, then their order is checked.
pub open spec fn loop_range_command(a: Seq<char>, b: Seq<char>) -> Result<CommandView, Seq<char>> {
    match bound_refusal(read_bound(a)) {
        Some(m) => Err(m),
        None => match read_bound(a) {
            BoundReading::Exact(x) => match bound_refusal(read_bound(b)) {
                Some(m) => Err(m),
                None => match read_bound(b) {
                    BoundReading::Exact(y) => if y <= x {
                        Err("Loop range end must be greater than start"@)
                    } else {
                        Ok(CommandView::LoopRange(a, b))
                    },
                    _ => Ok(CommandView::LoopRange(a, b)),
                },
            },
            _ => Ok(CommandView::LoopRange(a, b)),
        },
    }
}

/// The command that the words `ws` of a command line say, or why there is none.
pub open spec fn spec_command(ws: Seq<Seq<char>>) -> Result<CommandView, Seq<char>> {
    if ws.len() == 0 {
        Err("No command"@)
    } else {
        let c = ws[0];
        if c == "bpm"@ {
            if ws.len() != 2 {
                Err("Usage: bpm 140"@)
            } else {
                match parse_unsigned(ws[1], 0xffff_ffff) {
                    None => Err("BPM must be an integer 1..999"@),
                    Some(b) => if 1 <= b <= 999 {
                        Ok(CommandView::Bpm(b as u32))
                    } else {
                        Err("BPM must be 1..999"@)
                    },
                }
            }
        } else if c == "loop"@ {
            if ws.len() == 2 && ws[1] == "on"@ {
                Ok(CommandView::LoopOn)
            } else if ws.len() == 2 && ws[1] == "off"@ {
                Ok(CommandView::LoopOff)
            } else if ws.len() == 2 && ws[1] == "clear"@ {
                Ok(CommandView::LoopClear)
            } else if ws.len() == 3 {
                loop_range_command(ws[1], ws[2])
            } else {
                Err("Usage: loop on | loop off | loop clear | loop 0 4"@)
            }
        } else if c == "w"@ {
            no_args(ws, CommandView::Save)
        } else if c == "q"@ {
            no_args(ws, CommandView::Quit)
        } else if c == "q!"@ {
            no_args(ws, CommandView::ForceQuit)
        } else if c == "wq"@ {
            no_args(ws, CommandView::SaveQuit)
        } else if c == "format"@ || c == "fmt"@ {
            no_args(ws, CommandView::Format)
        } else {
            Err("Unknown command: "@ + c)
        }
    }
}

fn is_word(w: &Vec<char>, s: &str) -> (b: bool)
    ensures
        b == (w@ == s@),
{
    eq_chars(w, &chars_of(s))
}

fn no_args_exec(ws: &Vec<Vec<char>>, c: StudioCommand) -> (r: Result<StudioCommand, String>)
    requires
        ws.len() >= 1,
    ensures
        match no_args(views(ws@), command_view(c)) {
            Ok(x) => r matches Ok(y) && command_view(y) == x,
            Err(m) => r matches Err(e) && e@ == m,
        },
{
    if ws.len() == 1 {
        Ok(c)
    } else {
        let mut m = chars_of("Command `");
        append(&mut m, &ws[0]);
        append(&mut m, &chars_of("` takes no arguments"));
        Err(string_of(&m))
    }
}

fn bound_refusal_exec(b: &LoopBound) -> (r: Option<String>)
    ensures
        match bound_refusal(bound_view(*b)) {
            Some(m) => r matches Some(e) && e@ == m,
            None => r is None,
        },
{
    match b {
        LoopBound::NotNumber => Some(crate::text::owned("Loop range bounds must be numbers")),
        LoopBound::NotNonNegative => Some(
            crate::text::owned("Loop range bounds must be non-negative numbers"),
        ),
        _ => None,
    }
}

fn loop_range_exec(a: &Vec<char>, b: &Vec<char>) -> (r: Result<StudioCommand, String>)
    ensures
        match loop_range_command(a@, b@) {
            Ok(x) => r matches Ok(y) && command_view(y) == x,
            Err(m) => r matches Err(e) && e@ == m,
        },
{
    let ra = read_loop_bound(a);
    if let Some(m) = bound_refusal_exec(&ra) {
        return Err(m);
    }
    if let LoopBound::Exact(x) = ra {
        let rb = read_loop_bound(b);
        if let Some(m) = bound_refusal_exec(&rb) {
            return Err(m);
        }
        if let LoopBound::Exact(y) = rb {
            if y <= x {
                return Err(crate::text::owned("Loop range end must be greater than start"));
            }
        }
    }
    Ok(StudioCommand::LoopRange { start: string_of(a), end: string_of(b) })
}

/// Reads a command line: its words, the first naming the command.
#[verifier::rlimit(50)]
#[verifier::spinoff_prover]
pub fn parse_studio_command(input: &str) -> (r: Result<StudioCommand, String>)
    ensures
        match spec_command(words(input@)) {
            Ok(x) => r matches Ok(y) && command_view(y) == x,
            Err(m) => r matches Err(e) && e@ == m,
        },
{
    let v = chars_of(input);
    let ws = words_from(&v, 0);
    assert(v@.skip(0) =~= input@);
    let ghost wv = views(ws@);
    if ws.len() == 0 {
        return Err(crate::text::owned("No command"));
    }
    assert(wv[0] == ws@[0]@);
    let c = &ws[0];
    if is_word(c, "bpm") {
        if ws.len() != 2 {
            return Err(crate::text::owned("Usage: bpm 140"));
        }
        assert(wv[1] == ws@[1]@);
        assert(ws@[1]@.subrange(0, ws[1].len() as int) =~= ws@[1]@);
        match parse_unsigned_at(&ws[1], 0, ws[1].len(), 0xffff_ffff) {
            None => Err(crate::text::owned("BPM must be an integer 1..999")),
            Some(b) => if 1 <= b && b <= 999 {
                Ok(StudioCommand::Bpm(b as u32))
            } else {
                Err(crate::text::owned("BPM must be 1..999"))
            },
        }
    } else if is_word(c, "loop") {
        if ws.len() == 2 {
            assert(wv[1] == ws@[1]@);
        }
        if ws.len() == 3 {
            assert(wv[1] == ws@[1]@ && wv[2] == ws@[2]@);
        }
        if ws.len() == 2 && is_word(&ws[1], "on") {
            Ok(StudioCommand::LoopOn)
        } else if ws.len() == 2 && is_word(&ws[1], "off") {
            Ok(StudioCommand::LoopOff)
        } else if ws.len() == 2 && is_word(&ws[1], "clear") {
            Ok(StudioCommand::LoopClear)
        } else if ws.len() == 3 {
            loop_range_exec(&ws[1], &ws[2])
        } else {
            Err(crate::text::owned("Usage: loop on | loop off | loop clear | loop 0 4"))
        }
    } else if is_word(c, "w") {
        no_args_exec(&ws, StudioCommand::Save)
    } else if is_word(c, "q") {
        no_args_exec(&ws, StudioCommand::Quit)
    } else if is_word(c, "q!") {
        no_args_exec(&ws, StudioCommand::ForceQuit)
    } else if is_word(c, "wq") {
        no_args_exec(&ws, StudioCommand::SaveQuit)
    } else if is_word(c, "format") || is_word(c, "fmt") {
        no_args_exec(&ws, StudioCommand::Format)
    } else {
        let mut m = chars_of("Unknown command: ");
        append(&mut m, c);
        Err(string_of(&m))
    }
}

/// The editor's own commands are named by one word each and stand alone: `w`
/// saves, `q` quits, `q!` quits without saving, `wq` saves and quits, `format` or
/// `fmt` formats; each of these followed by anything more is refused.
pub proof fn editor_commands_by_name(input: Seq<char>)
    requires
        words(input).len() >= 1,
    ensures
        ({
            let ws = words(input);
            let alone = ws.len() == 1;
            let extra = Err::<CommandView, Seq<char>>("Command `"@ + ws[0] + "` takes no arguments"@);
            &&& ws[0] == "w"@ ==> spec_command(ws) == if alone { Ok(CommandView::Save) } else { extra }
            &&& ws[0] == "q"@ ==> spec_command(ws) == if alone { Ok(CommandView::Quit) } else { extra }
            &&& ws[0] == "q!"@ ==> spec_command(ws) == if alone {
                Ok(CommandView::ForceQuit)
            } else {
                extra
            }
            &&& ws[0] == "wq"@ ==> spec_command(ws) == if alone {
                Ok(CommandView::SaveQuit)
            } else {
                extra
            }
            &&& (ws[0] == "format"@ || ws[0] == "fmt"@) ==> spec_command(ws) == if alone {
                Ok(CommandView::Format)
            } else {
                extra
            }
        }),
{
    reveal_strlit("w");
    reveal_strlit("q");
    reveal_strlit("q!");
    reveal_strlit("wq");
    reveal_strlit("format");
    reveal_strlit("fmt");
    reveal_strlit("bpm");
    reveal_strlit("loop");
    let ws = words(input);
    let c = ws[0];
    assert("q"@[0] != "w"@[0]);
    assert("wq"@[0] != "q!"@[0]);
    assert("fmt"@[0] != "bpm"@[0]);
    assert(c == "w"@ ==> c != "bpm"@ && c != "loop"@);
    assert(c == "q"@ ==> c != "bpm"@ && c != "loop"@ && c != "w"@);
    assert(c == "q!"@ ==> c != "bpm"@ && c != "loop"@ && c != "w"@ && c != "q"@);
    assert(c == "wq"@ ==> c != "bpm"@ && c != "loop"@ && c != "w"@ && c != "q"@ && c != "q!"@);
    assert((c == "format"@ || c == "fmt"@) ==> c != "bpm"@ && c != "loop"@ && c != "w"@ && c != "q"@
        && c != "q!"@ && c != "wq"@);
}

/// `bpm <n>` with a numeral `n` sets the tempo to `n` when it lies in `1..=999`;
/// any other tempo is refused.
pub proof fn bpm_command_reads_its_number(n: nat)
    requires
        n <= 0xffff_ffff,
    ensures
        1 <= n <= 999 ==> spec_command(seq!["bpm"@, decimal(n)]) == Ok::<CommandView, Seq<char>>(
            CommandView::Bpm(n as u32),
        ),
        !(1 <= n <= 999) ==> spec_command(seq!["bpm"@, decimal(n)]) == Err::<CommandView, Seq<char>>(
            "BPM must be 1..999"@,
        ),
{
    reveal_strlit("bpm");
    crate::validation::lemma_numeral_reads_back(n, 0xffff_ffff);
}

/// What running a command line does.
#[derive(Debug, PartialEq, Eq)]
pub enum CommandOutcome {
    /// Nothing changes but the status line.
    Status(String),
    /// The score becomes `source`, and the status line says `message`.
    UpdateSource { source: String, message: String },
    /// A loop range, whose bounds the caller reads as numbers.
    LoopRange { start: String, end: String },
    Save,
    Quit,
    SaveQuit,
    Format,
}

/// An outcome as plain values: `(kind, text, message)`, where the kind is
/// 0 status (the text is the message), 1 update (the text is the new score),
/// 2 loop range (text and message are the two bounds), 3 save, 4 quit,
/// 5 save and quit, 6 format.
pub open spec fn outcome_view(o: CommandOutcome) -> (int, Seq<char>, Seq<char>) {
    match o {
        CommandOutcome::Status(m) => (0, m@, seq![]),
        CommandOutcome::UpdateSource { source, message } => (1, source@, message@),
        CommandOutcome::LoopRange { start, end } => (2, start@, end@),
        CommandOutcome::Save => (3, seq![], seq![]),
        CommandOutcome::Quit => (4, seq![], seq![]),
        CommandOutcome::SaveQuit => (5, seq![], seq![]),
        CommandOutcome::Format => (6, seq![], seq![]),
    }
}

/// An update when the edit succeeds, else the edit's error as the status.
pub open spec fn update_or_status(edit: Result<Seq<char>, Seq<char>>, message: Seq<char>) -> (
    int,
    Seq<char>,
    Seq<char>,
) {
    match edit {
        Ok(t) => (1, t, message),
        Err(m) => (0, m, seq![]),
    }
}

/// What running the command line `input` does to the score `source`; `dirty`
/// says whether it has unsaved changes.
pub open spec fn spec_outcome(input: Seq<char>, source: Seq<char>, dirty: bool) -> (int, Seq<char>, Seq<char>) {
    match spec_command(words(input)) {
        Err(m) => (0, m, seq![]),
        Ok(c) => match c {
            CommandView::Bpm(b) => update_or_status(
                spec_set_simple(source, "bpm"@, decimal(b as nat), "BPM"@),
                "BPM: "@ + decimal(b as nat),
            ),
            CommandView::LoopOn => update_or_status(
                spec_set_simple(source, "loop"@, "true"@, "Loop"@),
                "Loop: on"@,
            ),
            CommandView::LoopOff => update_or_status(
                spec_set_simple(source, "loop"@, "false"@, "Loop"@),
                "Loop: off"@,
            ),
            CommandView::LoopClear => match spec_clear_loop(source) {
                Ok(Some(t)) => (1, t, "Loop cleared"@),
                Ok(None) => (0, "No loop settings to clear"@, seq![]),
                Err(m) => (0, m, seq![]),
            },
            CommandView::LoopRange(a, b) => (2, a, b),
            CommandView::Save => (3, seq![], seq![]),
            CommandView::Quit => if dirty {
                (0, "Unsaved changes. Use w to save or q! to quit."@, seq![])
            } else {
                (4, seq![], seq![])
            },
            CommandView::ForceQuit => (4, seq![], seq![]),
            CommandView::SaveQuit => (5, seq![], seq![]),
            CommandView::Format => (6, seq![], seq![]),
        },
    }
}

fn update_exec(edit: Result<String, String>, message: String) -> (r: CommandOutcome)
    ensures
        outcome_view(r) == update_or_status(
            match edit {
                Ok(t) => Ok(t@),
                Err(m) => Err(m@),
            },
            message@,
        ),
{
    match edit {
        Ok(t) => CommandOutcome::UpdateSource { source: t, message },
        Err(m) => CommandOutcome::Status(m),
    }
}

/// Runs the command line `input` on the score `source`: the new score and status,
/// a status alone, or the editor action the command asks for.
#[verifier::rlimit(50)]
#[verifier::spinoff_prover]
pub fn command_outcome(input: &str, source: &str, dirty: bool) -> (r: CommandOutcome)
    ensures
        outcome_view(r) == spec_outcome(input@, source@, dirty),
{
    match parse_studio_command(input) {
        Err(m) => CommandOutcome::Status(m),
        Ok(c) => match c {
            StudioCommand::Bpm(b) => {
                let mut m = chars_of("BPM: ");
                append(&mut m, &decimal_chars(b as u64));
                update_exec(set_bpm_frontmatter(source, b), string_of(&m))
            },
            StudioCommand::LoopOn => update_exec(
                set_loop_enabled_frontmatter(source, true),
                crate::text::owned("Loop: on"),
            ),
            StudioCommand::LoopOff => update_exec(
                set_loop_enabled_frontmatter(source, false),
                crate::text::owned("Loop: off"),
            ),
            StudioCommand::LoopClear => match clear_loop_settings_frontmatter(source) {
                Ok(Some(t)) => CommandOutcome::UpdateSource {
                    source: t,
                    message: crate::text::owned("Loop cleared"),
                },
                Ok(None) => CommandOutcome::Status(crate::text::owned("No loop settings to clear")),
                Err(m) => CommandOutcome::Status(m),
            },
            StudioCommand::LoopRange { start, end } => CommandOutcome::LoopRange { start, end },
            StudioCommand::Save => CommandOutcome::Save,
            StudioCommand::Quit => if dirty {
                CommandOutcome::Status(crate::text::owned("Unsaved changes. Use w to save or q! to quit."))
            } else {
                CommandOutcome::Quit
            },
            StudioCommand::ForceQuit => CommandOutcome::Quit,
            StudioCommand::SaveQuit => CommandOutcome::SaveQuit,
            StudioCommand::Format => CommandOutcome::Format,
        },
    }
}

/// `row + delta`, within `0..=usize::MAX`.
pub open spec fn saturating_shift(row: int, delta: int) -> int {
    if row + delta < 0 {
        0
    } else if row + delta > usize::MAX {
        usize::MAX as int
    } else {
        row + delta
    }
}

/// Where the score row `row` is after the frontmatter changed from `before` to
/// `after`: rows of the body move with the body's first row; rows above it, and
/// every row when either text has no readable body start, stay.
pub open spec fn spec_shifted_row(row: int, before: Seq<char>, after: Seq<char>) -> int {
    match (spec_score_body_start(split_lines(before)), spec_score_body_start(split_lines(after))) {
        (Ok(b), Ok(a)) => if row < b {
            row
        } else {
            saturating_shift(row, a - b)
        },
        _ => row,
    }
}

/// Moves `row` by `after_start - before_start` when it is at or below `before_start`.
pub fn shift_row(row: usize, before_start: usize, after_start: usize) -> (r: usize)
    ensures
        r == (if row < before_start {
            row as int
        } else {
            saturating_shift(row as int, after_start - before_start)
        }),
{
    if row < before_start {
        row
    } else if after_start >= before_start {
        row.saturating_add(after_start - before_start)
    } else {
        row.saturating_sub(before_start - after_start)
    }
}

/// A body row moved for a frontmatter change and moved back for the reverse
/// change returns to where it was (when the move stays within `usize`).
pub proof fn shifted_rows_move_back(row: int, before_start: int, after_start: int)
    requires
        0 <= before_start,
        0 <= after_start,
        0 <= row <= usize::MAX,
        row >= before_start ==> row + after_start - before_start <= usize::MAX,
    ensures
        row >= before_start ==> ({
            let moved = saturating_shift(row, after_start - before_start);
            &&& moved >= after_start
            &&& saturating_shift(moved, before_start - after_start) == row
        }),
{
}

/// Where the cursor row `row` is after the frontmatter changed from `before` to `after`.
pub fn shifted_score_row(row: usize, before_source: &str, after_source: &str) -> (r: usize)
    ensures
        r == spec_shifted_row(row as int, before_source@, after_source@),
{
    let before_start = match score_body_start_row(before_source) {
        Ok(n) => n,
        Err(_) => return row,
    };
    let after_start = match score_body_start_row(after_source) {
        Ok(n) => n,
        Err(_) => return row,
    };
    shift_row(row, before_start, after_start)
}

/// The selection with each of its rows moved as `spec_shifted_row` moves score
/// rows when the source changes from `before` to `after`.
pub open spec fn shifted_selection(sel: StudioSelection, before: Seq<char>, after: Seq<char>) -> StudioSelection {
    let m = |r: usize| spec_shifted_row(r as int, before, after) as usize;
    match sel {
        StudioSelection::Unit { row, start_col, end_col, token, kind } => StudioSelection::Unit {
            row: m(row),
            start_col,
            end_col,
            token,
            kind,
        },
        StudioSelection::UnitRange { anchor, focus } => StudioSelection::UnitRange {
            anchor: UnitSpan { row: m(anchor.row), ..anchor },
            focus: UnitSpan { row: m(focus.row), ..focus },
        },
        StudioSelection::Bar { span } => StudioSelection::Bar { span: BarSpan { row: m(span.row), ..span } },
        StudioSelection::BarRange { anchor, focus } => StudioSelection::BarRange {
            anchor: BarSpan { row: m(anchor.row), ..anchor },
            focus: BarSpan { row: m(focus.row), ..focus },
        },
        StudioSelection::TemplateCall { span } => StudioSelection::TemplateCall {
            span: TemplateCallSpan { row: m(span.row), ..span },
        },
        StudioSelection::TemplateCallRange { anchor, focus } => StudioSelection::TemplateCallRange {
            anchor: TemplateCallSpan { row: m(anchor.row), ..anchor },
            focus: TemplateCallSpan { row: m(focus.row), ..focus },
        },
        StudioSelection::LineRange { anchor_row } => StudioSelection::LineRange { anchor_row: m(anchor_row) },
    }
}

/// Keeps the selection on the same score rows after the source changed from
/// `before_source` to `after_source` (a command that adds or removes frontmatter
/// lines moves the score).
pub fn shift_selection_rows(selection: &mut Option<StudioSelection>, before_source: &str, after_source: &str)
    ensures
        match *old(selection) {
            Some(sel) => *final(selection) == Some(shifted_selection(sel, before_source@, after_source@)),
            None => *final(selection) == None::<StudioSelection>,
        },
{
    let taken = selection.take();
    let r = match taken {
        None => None,
        Some(sel) => {
            let f = |r: usize| -> (x: usize)
                ensures
                    x == spec_shifted_row(r as int, before_source@, after_source@) as usize,
                { shifted_score_row(r, before_source, after_source) };
            Some(match sel {
                StudioSelection::Unit { row, start_col, end_col, token, kind } => StudioSelection::Unit {
                    row: f(row),
                    start_col,
                    end_col,
                    token,
                    kind,
                },
                StudioSelection::UnitRange { anchor, focus } => {
                    let a = f(anchor.row);
                    let b = f(focus.row);
                    StudioSelection::UnitRange { anchor: UnitSpan { row: a, ..anchor }, focus: UnitSpan { row: b, ..focus } }
                },
                StudioSelection::Bar { span } => {
                    let a = f(span.row);
                    StudioSelection::Bar { span: BarSpan { row: a, ..span } }
                },
                StudioSelection::BarRange { anchor, focus } => {
                    let a = f(anchor.row);
                    let b = f(focus.row);
                    StudioSelection::BarRange { anchor: BarSpan { row: a, ..anchor }, focus: BarSpan { row: b, ..focus } }
                },
                StudioSelection::TemplateCall { span } => {
                    let a = f(span.row);
                    StudioSelection::TemplateCall { span: TemplateCallSpan { row: a, ..span } }
                },
                StudioSelection::TemplateCallRange { anchor, focus } => {
                    let a = f(anchor.row);
                    let b = f(focus.row);
                    StudioSelection::TemplateCallRange {
                        anchor: TemplateCallSpan { row: a, ..anchor },
                        focus: TemplateCallSpan { row: b, ..focus },
                    }
                },
                StudioSelection::LineRange { anchor_row } => StudioSelection::LineRange { anchor_row: f(anchor_row) },
            })
        },
    };
    *selection = r;
}

} // verus!
