//! Track initialisation lines (`## pc 30`, `## cc 7 100`, ...) below a track
//! header, and the track that encloses a row.
use vstd::prelude::*;
use crate::studio::settings::{parse_track_header, spec_track_header};
use crate::text::{
    chars_of, first_index_of, first_where, parse_unsigned, parse_unsigned_at, position_of, is_prefix, last_where, lemma_first_where, lemma_last_where, slice_vec,
    starts_with, string_views, to_lower, trim, trim_start, trimmed, trimmed_start, words, words_from,
};
use crate::validation::ascii_lowercase_chars;
use crate::studio::keystroke::{key_stroke_matches, normalized_key_stroke, spec_stroke, KeyCode, KeyEvent, KeyStroke};

verus! {

/// The kind of a track initialisation line.
#[derive(Clone, Copy, Debug, PartialEq, Eq, Structural)]
pub enum TrackInitLabel {
    Pc,
    Sound,
    Bank,
    Cc,
    Pan,
    Volume,
    Expression,
    Mod,
    Sustain,
}

/// What the key after "delete init line" asks for.
#[derive(Clone, Copy, Debug, PartialEq, Eq, Structural)]
pub enum TrackInitKeySpec {
    Cancel,
    Pc,
    Bank,
    Cc,
    Pan,
    Volume,
    Expression,
    Mod,
    Sustain,
}

impl TrackInitKeySpec {
    pub open spec fn spec_label(self) -> Seq<char> {
        match self {
            TrackInitKeySpec::Cancel => "cancel"@,
            TrackInitKeySpec::Pc => "pc"@,
            TrackInitKeySpec::Bank => "bank"@,
            TrackInitKeySpec::Cc => "cc"@,
            TrackInitKeySpec::Pan => "pan"@,
            TrackInitKeySpec::Volume => "volume"@,
            TrackInitKeySpec::Expression => "expression"@,
            TrackInitKeySpec::Mod => "mod"@,
            TrackInitKeySpec::Sustain => "sustain"@,
        }
    }

    /// The name of the initialisation command.
    pub fn label(self) -> (r: &'static str)
        ensures
            r@ == self.spec_label(),
    {
        match self {
            TrackInitKeySpec::Cancel => "cancel",
            TrackInitKeySpec::Pc => "pc",
            TrackInitKeySpec::Bank => "bank",
            TrackInitKeySpec::Cc => "cc",
            TrackInitKeySpec::Pan => "pan",
            TrackInitKeySpec::Volume => "volume",
            TrackInitKeySpec::Expression => "expression",
            TrackInitKeySpec::Mod => "mod",
            TrackInitKeySpec::Sustain => "sustain",
        }
    }

    pub open spec fn spec_label_kind(self) -> Option<TrackInitLabel> {
        match self {
            TrackInitKeySpec::Cancel => None,
            TrackInitKeySpec::Pc => Some(TrackInitLabel::Pc),
            TrackInitKeySpec::Bank => Some(TrackInitLabel::Bank),
            TrackInitKeySpec::Cc => Some(TrackInitLabel::Cc),
            TrackInitKeySpec::Pan => Some(TrackInitLabel::Pan),
            TrackInitKeySpec::Volume => Some(TrackInitLabel::Volume),
            TrackInitKeySpec::Expression => Some(TrackInitLabel::Expression),
            TrackInitKeySpec::Mod => Some(TrackInitLabel::Mod),
            TrackInitKeySpec::Sustain => Some(TrackInitLabel::Sustain),
        }
    }

    /// The kind of line the key asks for (`None` for cancel).
    pub fn label_kind(self) -> (r: Option<TrackInitLabel>)
        ensures
            r == self.spec_label_kind(),
    {
        match self {
            TrackInitKeySpec::Cancel => None,
            TrackInitKeySpec::Pc => Some(TrackInitLabel::Pc),
            TrackInitKeySpec::Bank => Some(TrackInitLabel::Bank),
            TrackInitKeySpec::Cc => Some(TrackInitLabel::Cc),
            TrackInitKeySpec::Pan => Some(TrackInitLabel::Pan),
            TrackInitKeySpec::Volume => Some(TrackInitLabel::Volume),
            TrackInitKeySpec::Expression => Some(TrackInitLabel::Expression),
            TrackInitKeySpec::Mod => Some(TrackInitLabel::Mod),
            TrackInitKeySpec::Sustain => Some(TrackInitLabel::Sustain),
        }
    }
}

/// The kind that a character key names: `p` pc, `b` bank, `c` cc, `n` pan,
/// `v` volume, `e` expression, `m` mod, `s` sustain.
pub open spec fn spec_track_init_key(ch: char) -> Option<TrackInitKeySpec> {
    if ch == 'p' {
        Some(TrackInitKeySpec::Pc)
    } else if ch == 'b' {
        Some(TrackInitKeySpec::Bank)
    } else if ch == 'c' {
        Some(TrackInitKeySpec::Cc)
    } else if ch == 'n' {
        Some(TrackInitKeySpec::Pan)
    } else if ch == 'v' {
        Some(TrackInitKeySpec::Volume)
    } else if ch == 'e' {
        Some(TrackInitKeySpec::Expression)
    } else if ch == 'm' {
        Some(TrackInitKeySpec::Mod)
    } else if ch == 's' {
        Some(TrackInitKeySpec::Sustain)
    } else {
        None
    }
}

/// The initialisation line that a character key (with or without shift) asks for.
pub fn track_init_key_for_char(ch: char) -> (r: Option<TrackInitKeySpec>)
    ensures
        r == spec_track_init_key(ch),
{
    match ch {
        'p' => Some(TrackInitKeySpec::Pc),
        'b' => Some(TrackInitKeySpec::Bank),
        'c' => Some(TrackInitKeySpec::Cc),
        'n' => Some(TrackInitKeySpec::Pan),
        'v' => Some(TrackInitKeySpec::Volume),
        'e' => Some(TrackInitKeySpec::Expression),
        'm' => Some(TrackInitKeySpec::Mod),
        's' => Some(TrackInitKeySpec::Sustain),
        _ => None,
    }
}

/// Row `i` of `ls` is a track header.
pub open spec fn header_at(ls: Seq<Seq<char>>) -> spec_fn(int) -> bool {
    |i: int| spec_track_header(ls[i]) is Some
}

/// The track header that encloses `cursor`: the last header at or above it, else
/// the first header of the score.
pub open spec fn enclosing_header(ls: Seq<Seq<char>>, cursor: int) -> Option<int> {
    let n = if cursor + 1 < ls.len() { cursor + 1 } else { ls.len() as int };
    match last_where(n, header_at(ls)) {
        Some(i) => Some(i),
        None => first_where(ls.len() as int, header_at(ls)),
    }
}

/// The row of the track header that encloses `cursor_row`.
pub fn current_track_header_row(lines: &[String], cursor_row: usize) -> (r: Option<usize>)
    ensures
        match enclosing_header(string_views(lines@), cursor_row as int) {
            Some(i) => r == Some(i as usize),
            None => r is None,
        },
{
    match last_header_row_upto(lines, cursor_row) {
        Some(i) => Some(i),
        None => first_header_row(lines),
    }
}

/// The last track header row at or above `cursor_row`.
pub fn last_header_row_upto(lines: &[String], cursor_row: usize) -> (r: Option<usize>)
    ensures
        ({
            let ls = string_views(lines@);
            let n = if cursor_row + 1 < ls.len() { cursor_row + 1 } else { ls.len() as int };
            match last_where(n, header_at(ls)) {
                Some(i) => r == Some(i as usize) && 0 <= i < ls.len(),
                None => r is None,
            }
        }),
{
    let ghost ls = string_views(lines@);
    let ghost p = header_at(ls);
    let n = if cursor_row < lines.len() {
        cursor_row + 1
    } else {
        lines.len()
    };
    let mut k: usize = n;
    while k > 0
        invariant
            k <= n <= lines@.len(),
            n == (if cursor_row + 1 < ls.len() { cursor_row + 1 } else { ls.len() as int }),
            ls == string_views(lines@),
            p == header_at(ls),
            forall|j: int| k <= j < n ==> !#[trigger] p(j),
        decreases k,
    {
        let i = k - 1;
        assert(ls[i as int] == lines@[i as int]@);
        if parse_track_header(lines[i].as_str()).is_some() {
            proof {
                lemma_last_where(n as int, p, i as int);
            }
            return Some(i);
        }
        k -= 1;
    }
    proof {
        lemma_last_where(n as int, p, -1);
    }
    None
}

/// The first track header row of `lines`.
pub fn first_header_row(lines: &[String]) -> (r: Option<usize>)
    ensures
        match first_where(lines@.len() as int, header_at(string_views(lines@))) {
            Some(i) => r == Some(i as usize),
            None => r is None,
        },
{
    let ghost ls = string_views(lines@);
    let ghost p = header_at(ls);
    let mut i: usize = 0;
    while i < lines.len()
        invariant
            i <= lines@.len(),
            ls == string_views(lines@),
            p == header_at(ls),
            forall|j: int| 0 <= j < i ==> !#[trigger] p(j),
        decreases lines@.len() - i,
    {
        assert(ls[i as int] == lines@[i as int]@);
        if parse_track_header(lines[i].as_str()).is_some() {
            proof {
                lemma_first_where(lines@.len() as int, p, i as int);
            }
            return Some(i);
        }
        i += 1;
    }
    proof {
        lemma_first_where(lines@.len() as int, p, lines@.len() as int);
    }
    None
}

/// An initialisation line: after its leading blanks, it starts with `## `.
pub open spec fn spec_is_track_init_line(line: Seq<char>) -> bool {
    is_prefix("## "@, trim_start(line))
}

/// Whether `line` is a track initialisation line.
pub fn is_track_init_line(line: &str) -> (b: bool)
    ensures
        b == spec_is_track_init_line(line@),
{
    let v = chars_of(line);
    starts_with(&trimmed_start(&v), &chars_of("## "))
}

/// The kind named by a lower-cased command word.
pub open spec fn label_named(w: Seq<char>) -> Option<TrackInitLabel> {
    if w == "pc"@ {
        Some(TrackInitLabel::Pc)
    } else if w == "sound"@ {
        Some(TrackInitLabel::Sound)
    } else if w == "bank"@ {
        Some(TrackInitLabel::Bank)
    } else if w == "cc"@ {
        Some(TrackInitLabel::Cc)
    } else if w == "pan"@ {
        Some(TrackInitLabel::Pan)
    } else if w == "volume"@ {
        Some(TrackInitLabel::Volume)
    } else if w == "expression"@ {
        Some(TrackInitLabel::Expression)
    } else if w == "mod"@ {
        Some(TrackInitLabel::Mod)
    } else if w == "sustain"@ {
        Some(TrackInitLabel::Sustain)
    } else {
        None
    }
}

/// The kind of an initialisation line: the trimmed line starts with `## `, and the
/// first word after it, lower-cased in ASCII, names a kind.
pub open spec fn spec_init_label(line: Seq<char>) -> Option<TrackInitLabel> {
    let t = trim(line);
    if is_prefix("## "@, t) {
        let ws = words(t.skip(3));
        if ws.len() > 0 {
            label_named(ws[0].map_values(|c: char| to_lower(c)))
        } else {
            None
        }
    } else {
        None
    }
}

fn label_named_chars(w: &Vec<char>) -> (r: Option<TrackInitLabel>)
    ensures
        r == label_named(w@),
{
    let e = |s: &str| -> (b: bool)
        ensures
            b == (w@ == s@),
        { crate::text::eq_chars(w, &chars_of(s)) };
    if e("pc") {
        Some(TrackInitLabel::Pc)
    } else if e("sound") {
        Some(TrackInitLabel::Sound)
    } else if e("bank") {
        Some(TrackInitLabel::Bank)
    } else if e("cc") {
        Some(TrackInitLabel::Cc)
    } else if e("pan") {
        Some(TrackInitLabel::Pan)
    } else if e("volume") {
        Some(TrackInitLabel::Volume)
    } else if e("expression") {
        Some(TrackInitLabel::Expression)
    } else if e("mod") {
        Some(TrackInitLabel::Mod)
    } else if e("sustain") {
        Some(TrackInitLabel::Sustain)
    } else {
        None
    }
}

/// The kind of the initialisation line `line`.
pub fn track_init_label_of_line(line: &str) -> (r: Option<TrackInitLabel>)
    ensures
        r == spec_init_label(line@),
{
    let v = chars_of(line);
    let t = trimmed(&v);
    if !starts_with(&t, &chars_of("## ")) {
        return None;
    }
    proof {
        reveal_strlit("## ");
    }
    let ws = words_from(&t, 3);
    if ws.len() == 0 {
        return None;
    }
    let head = ascii_lowercase_chars(&ws[0]);
    label_named_chars(&head)
}


/// The line that adding an initialisation line of some kind inserts, and the
/// column where its value starts.
#[derive(Clone, Copy, Debug)]
pub struct TrackInitTemplate {
    pub label: TrackInitLabel,
    pub text: &'static str,
    pub value_col: usize,
}

impl TrackInitTemplate {
    /// The line: `## ` and the template's text.
    pub fn line(self) -> (r: String)
        ensures
            r@ == "## "@ + self.text@,
    {
        let mut v = chars_of("## ");
        crate::text::append(&mut v, &chars_of(self.text));
        crate::text::string_of(&v)
    }

    pub fn value_col(self) -> (r: usize)
        ensures
            r == self.value_col,
    {
        self.value_col
    }
}

impl TrackInitKeySpec {
    /// The kind, default text and value column of a new line of the kind asked for.
    pub open spec fn spec_init_template(self) -> (TrackInitLabel, Seq<char>, usize) {
        match self {
            TrackInitKeySpec::Pc => (TrackInitLabel::Pc, "pc 0"@, 6),
            TrackInitKeySpec::Bank => (TrackInitLabel::Bank, "bank 0/0"@, 8),
            TrackInitKeySpec::Cc => (TrackInitLabel::Cc, "cc 1 0"@, 6),
            TrackInitKeySpec::Pan => (TrackInitLabel::Pan, "pan 64"@, 7),
            TrackInitKeySpec::Volume => (TrackInitLabel::Volume, "volume 100"@, 10),
            TrackInitKeySpec::Expression => (TrackInitLabel::Expression, "expression 100"@, 14),
            TrackInitKeySpec::Mod => (TrackInitLabel::Mod, "mod 0"@, 7),
            _ => (TrackInitLabel::Sustain, "sustain 0"@, 11),
        }
    }

    /// The template of a new line of the kind asked for.
    pub fn init_template(self) -> (r: TrackInitTemplate)
        requires
            self != TrackInitKeySpec::Cancel,
        ensures
            (r.label, r.text@, r.value_col) == self.spec_init_template(),
    {
        match self {
            TrackInitKeySpec::Pc => TrackInitTemplate { label: TrackInitLabel::Pc, text: "pc 0", value_col: 6 },
            TrackInitKeySpec::Bank => TrackInitTemplate { label: TrackInitLabel::Bank, text: "bank 0/0", value_col: 8 },
            TrackInitKeySpec::Cc => TrackInitTemplate { label: TrackInitLabel::Cc, text: "cc 1 0", value_col: 6 },
            TrackInitKeySpec::Pan => TrackInitTemplate { label: TrackInitLabel::Pan, text: "pan 64", value_col: 7 },
            TrackInitKeySpec::Volume => TrackInitTemplate {
                label: TrackInitLabel::Volume,
                text: "volume 100",
                value_col: 10,
            },
            TrackInitKeySpec::Expression => TrackInitTemplate {
                label: TrackInitLabel::Expression,
                text: "expression 100",
                value_col: 14,
            },
            TrackInitKeySpec::Mod => TrackInitTemplate { label: TrackInitLabel::Mod, text: "mod 0", value_col: 7 },
            _ => TrackInitTemplate { label: TrackInitLabel::Sustain, text: "sustain 0", value_col: 11 },
        }
    }
}


/// What an initialisation line sets.
#[derive(Clone, Copy, Debug, PartialEq, Eq, Structural)]
pub enum TrackInitEvent {
    ProgramChange { program: u8 },
    ControlChange { cc: u8, value: u8 },
    BankSelect { msb: u8, lsb: Option<u8> },
}

/// A 7-bit value written as a word.
pub open spec fn u7_word(w: Seq<char>) -> Option<u8> {
    match parse_unsigned(w, 127) {
        Some(n) => Some(n as u8),
        None => None,
    }
}

/// The controller that a shorthand kind sets: `pan` 10, `volume` 7,
/// `expression` 11, `mod` 1, `sustain` 64.
pub open spec fn shorthand_cc(label: TrackInitLabel) -> Option<u8> {
    match label {
        TrackInitLabel::Pan => Some(10u8),
        TrackInitLabel::Volume => Some(7u8),
        TrackInitLabel::Expression => Some(11u8),
        TrackInitLabel::Mod => Some(1u8),
        TrackInitLabel::Sustain => Some(64u8),
        _ => None,
    }
}

/// A bank word: `msb` or `msb/lsb`.
pub open spec fn bank_word(w: Seq<char>) -> Option<TrackInitEvent> {
    match first_index_of(w, '/') {
        None => match u7_word(w) {
            Some(m) => Some(TrackInitEvent::BankSelect { msb: m, lsb: None }),
            None => None,
        },
        Some(k) => match (u7_word(w.take(k)), u7_word(w.skip(k + 1))) {
            (Some(m), Some(l)) => Some(TrackInitEvent::BankSelect { msb: m, lsb: Some(l) }),
            _ => None,
        },
    }
}

/// The event of a command of kind `label` with the words `args` after its name:
/// `pc P` and `sound P` set the program, `cc C V` a controller, a shorthand
/// kind `V` its controller, `bank M` or `bank M/L` the bank; every value is 0..=127.
pub open spec fn init_event_of_words(label: TrackInitLabel, args: Seq<Seq<char>>) -> Option<TrackInitEvent> {
    match label {
        TrackInitLabel::Pc | TrackInitLabel::Sound => if args.len() == 1 {
            match u7_word(args[0]) {
                Some(p) => Some(TrackInitEvent::ProgramChange { program: p }),
                None => None,
            }
        } else {
            None
        },
        TrackInitLabel::Cc => if args.len() == 2 {
            match (u7_word(args[0]), u7_word(args[1])) {
                (Some(c), Some(v)) => Some(TrackInitEvent::ControlChange { cc: c, value: v }),
                _ => None,
            }
        } else {
            None
        },
        TrackInitLabel::Bank => if args.len() == 1 {
            bank_word(args[0])
        } else {
            None
        },
        _ => if args.len() == 1 {
            match (shorthand_cc(label), u7_word(args[0])) {
                (Some(c), Some(v)) => Some(TrackInitEvent::ControlChange { cc: c, value: v }),
                _ => None,
            }
        } else {
            None
        },
    }
}

/// The event of an initialisation line: the trimmed line starts with `## `, its
/// first word names a kind (ASCII case aside), and the remaining words are the
/// kind's values.
pub open spec fn spec_init_event(line: Seq<char>) -> Option<TrackInitEvent> {
    let t = trim(line);
    if is_prefix("## "@, t) {
        let ws = words(t.skip(3));
        if ws.len() > 0 {
            match label_named(ws[0].map_values(|c: char| to_lower(c))) {
                Some(l) => init_event_of_words(l, ws.drop_first()),
                None => None,
            }
        } else {
            None
        }
    } else {
        None
    }
}

fn u7_of(w: &Vec<char>) -> (r: Option<u8>)
    ensures
        r == u7_word(w@),
{
    assert(w@.subrange(0, w.len() as int) =~= w@);
    match parse_unsigned_at(w, 0, w.len(), 127) {
        Some(n) => Some(n as u8),
        None => None,
    }
}

fn bank_of(w: &Vec<char>) -> (r: Option<TrackInitEvent>)
    ensures
        r == bank_word(w@),
{
    match position_of(w, '/') {
        None => match u7_of(w) {
            Some(m) => Some(TrackInitEvent::BankSelect { msb: m, lsb: None }),
            None => None,
        },
        Some(k) => {
            let a = slice_vec(w, 0, k);
            let b = slice_vec(w, k + 1, w.len());
            assert(a@ =~= w@.take(k as int));
            assert(b@ =~= w@.skip(k + 1));
            match (u7_of(&a), u7_of(&b)) {
                (Some(m), Some(l)) => Some(TrackInitEvent::BankSelect { msb: m, lsb: Some(l) }),
                _ => None,
            }
        },
    }
}

/// The event that the initialisation line `line` sets, if it is a well-formed one.
pub fn track_init_event_of_line(line: &str) -> (r: Option<TrackInitEvent>)
    ensures
        r == spec_init_event(line@),
{
    let v = chars_of(line);
    let t = trimmed(&v);
    if !starts_with(&t, &chars_of("## ")) {
        return None;
    }
    proof {
        reveal_strlit("## ");
    }
    let ws = words_from(&t, 3);
    if ws.len() == 0 {
        return None;
    }
    let head = ascii_lowercase_chars(&ws[0]);
    let label = match label_named_chars(&head) {
        Some(l) => l,
        None => return None,
    };
    let ghost args = crate::text::views(ws@).drop_first();
    assert(args.len() == ws.len() - 1);
    match label {
        TrackInitLabel::Pc | TrackInitLabel::Sound => {
            if ws.len() != 2 {
                return None;
            }
            assert(args[0] == ws@[1]@);
            match u7_of(&ws[1]) {
                Some(p) => Some(TrackInitEvent::ProgramChange { program: p }),
                None => None,
            }
        },
        TrackInitLabel::Cc => {
            if ws.len() != 3 {
                return None;
            }
            assert(args[0] == ws@[1]@ && args[1] == ws@[2]@);
            match (u7_of(&ws[1]), u7_of(&ws[2])) {
                (Some(c), Some(x)) => Some(TrackInitEvent::ControlChange { cc: c, value: x }),
                _ => None,
            }
        },
        TrackInitLabel::Bank => {
            if ws.len() != 2 {
                return None;
            }
            assert(args[0] == ws@[1]@);
            bank_of(&ws[1])
        },
        _ => {
            if ws.len() != 2 {
                return None;
            }
            assert(args[0] == ws@[1]@);
            let cc: u8 = match label {
                TrackInitLabel::Pan => 10,
                TrackInitLabel::Volume => 7,
                TrackInitLabel::Expression => 11,
                TrackInitLabel::Mod => 1,
                _ => 64,
            };
            match u7_of(&ws[1]) {
                Some(x) => Some(TrackInitEvent::ControlChange { cc: cc, value: x }),
                None => None,
            }
        },
    }
}

/// The initialisation line that a key press asks for: `Esc` cancels, and a
/// character key (with or without shift) names a kind.
pub fn parse_track_init_key(key: KeyEvent) -> (r: Option<TrackInitKeySpec>)
    ensures
        r == (if spec_stroke(key) == KeyStroke::Code(KeyCode::Esc) {
            Some(TrackInitKeySpec::Cancel)
        } else {
            match spec_stroke(key) {
                KeyStroke::Char(ch) | KeyStroke::ShiftChar(ch) => spec_track_init_key(ch),
                _ => None,
            }
        }),
{
    if key_stroke_matches(KeyStroke::Code(KeyCode::Esc), &key) {
        return Some(TrackInitKeySpec::Cancel);
    }
    match normalized_key_stroke(&key) {
        Some(KeyStroke::Char(ch)) | Some(KeyStroke::ShiftChar(ch)) => track_init_key_for_char(ch),
        _ => None,
    }
}

} // verus!
