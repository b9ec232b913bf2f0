//! The preview panel's keys and state changes: which key plays, stops, closes or
//! changes the program, and what the panel shows after each.
use vstd::prelude::*;
use crate::studio::audition::PreviewTrackContext;
use crate::studio::keystroke::{key_stroke_matches, normalized_key_stroke, spec_stroke, KeyCode, KeyEvent, KeyStroke};
use crate::studio::note_entry::{
    lookup, note_key_input_for_key, note_keyboard_action, preview_key_char, token_text, NoteKeyInput,
    NoteKeyboard, NoteKeyboardAction,
};
use crate::studio::preview::{PreviewControls, PreviewPanelState};
use crate::text::{
    append, chars_of, decimal, decimal_chars, first_where, lemma_first_where, string_of, to_lower,
};

verus! {

/// How far `[` and `]` move the preview program.
pub const PREVIEW_PROGRAM_STEP: u8 = 1;
/// How far `{` and `}` move the preview program.
pub const PREVIEW_PROGRAM_PAGE_STEP: u8 = 10;

/// What a key does in the preview panel.
#[derive(Debug, PartialEq, Eq)]
pub enum PreviewKeyAction {
    /// Nothing.
    Ignore,
    /// A key was let go: the note it holds stops.
    Release(char),
    Close,
    /// The program in effect is written into the track.
    ApplyProgram,
    /// The program moves by this many steps.
    AdjustProgram(i16),
    /// The program override is dropped.
    ResetProgram,
    OctaveDown,
    OctaveUp,
    /// A key that the panel does not take.
    Unknown,
    /// The key sounds already.
    AlreadyHeld(char),
    /// The key plays its pitch token.
    Audition { key: char, token: String },
    /// The key's pitch is not played while the score plays.
    Suppressed(String),
    /// The key types a rest or a sustain, which sounds nothing.
    Silent { key: char, token: String },
}

/// The character of a key press in the preview (as `preview_key_char` gives it).
pub open spec fn preview_char(key: KeyEvent) -> Option<char> {
    match spec_stroke(key) {
        KeyStroke::Char(c) | KeyStroke::ShiftChar(c) | KeyStroke::Symbol(c) => Some(c),
        _ => None,
    }
}

/// The octave offsets of the keyboard keep `octave` plus each offset an `i32`.
pub open spec fn offsets_fit(keyboard: NoteKeyboard, octave: i32) -> bool {
    forall|k: char| #[trigger] lookup(keyboard.entries(), k) matches Some(b) ==> i32::MIN <= octave + b.2 <= i32::MAX
}

/// What a key press does in the preview panel, in this order: a key let go stops
/// its note; `Esc` or `P` closes; `Enter` applies the program; `[ ] { }` move the
/// program by 1 or 10; `r` resets it; the octave keys move the octave; a key
/// without a character cancels or is unknown; a key already sounding stays; a
/// pitch token sounds (unless the score plays), a rest or sustain is silent.
pub open spec fn spec_preview_key(
    key: KeyEvent,
    released: bool,
    keyboard: NoteKeyboard,
    octave: i32,
    held: Seq<char>,
    is_playing: bool,
    r: PreviewKeyAction,
) -> bool {
    let s = spec_stroke(key);
    if released {
        match preview_char(key) {
            Some(c) => r == PreviewKeyAction::Release(c),
            None => r == PreviewKeyAction::Ignore,
        }
    } else if s == KeyStroke::Code(KeyCode::Esc) || s == KeyStroke::ShiftChar('p') {
        r == PreviewKeyAction::Close
    } else if s == KeyStroke::Code(KeyCode::Enter) {
        r == PreviewKeyAction::ApplyProgram
    } else if s == KeyStroke::Symbol('[') {
        r == PreviewKeyAction::AdjustProgram(-1i16)
    } else if s == KeyStroke::Symbol(']') {
        r == PreviewKeyAction::AdjustProgram(1i16)
    } else if s == KeyStroke::Symbol('{') {
        r == PreviewKeyAction::AdjustProgram(-10i16)
    } else if s == KeyStroke::Symbol('}') {
        r == PreviewKeyAction::AdjustProgram(10i16)
    } else if s == KeyStroke::Char('r') {
        r == PreviewKeyAction::ResetProgram
    } else if (s matches KeyStroke::Char(c) && to_lower(c) == to_lower(keyboard.octave_down)) || (
    s matches KeyStroke::ShiftChar(c) && to_lower(c) == to_lower(keyboard.octave_down)) {
        r == PreviewKeyAction::OctaveDown
    } else if (s matches KeyStroke::Char(c) && to_lower(c) == to_lower(keyboard.octave_up)) || (
    s matches KeyStroke::ShiftChar(c) && to_lower(c) == to_lower(keyboard.octave_up)) {
        r == PreviewKeyAction::OctaveUp
    } else {
        match preview_char(key) {
            None => r == PreviewKeyAction::Unknown,
            Some(c) => if held.contains(c) {
                r == PreviewKeyAction::AlreadyHeld(c)
            } else {
                match lookup(keyboard.entries(), to_lower(c)) {
                    None => r == PreviewKeyAction::Unknown,
                    Some(b) => {
                        let t = token_text(b, octave as int);
                        if t == "."@ || t == "-"@ {
                            r matches PreviewKeyAction::Silent { key: k, token } && k == c && token@ == t
                        } else if is_playing {
                            r matches PreviewKeyAction::Suppressed(token) && token@ == t
                        } else {
                            r matches PreviewKeyAction::Audition { key: k, token } && k == c && token@ == t
                        }
                    },
                }
            },
        }
    }
}

fn holds(held: &[char], c: char) -> (b: bool)
    ensures
        b == held@.contains(c),
{
    let mut i: usize = 0;
    while i < held.len()
        invariant
            i <= held@.len(),
            forall|j: int| 0 <= j < i ==> held@[j] != c,
        decreases held@.len() - i,
    {
        if held[i] == c {
            assert(held@[i as int] == c);
            return true;
        }
        i += 1;
    }
    false
}

fn is_rest_or_sustain(t: &String) -> (b: bool)
    ensures
        b == (t@ == "."@ || t@ == "-"@),
{
    let v = chars_of(t.as_str());
    crate::text::eq_chars(&v, &chars_of(".")) || crate::text::eq_chars(&v, &chars_of("-"))
}

/// What a key press does in the preview panel; `released` says whether the key
/// was let go, `held` lists the keys that sound now.
pub fn preview_panel_key_action(
    key: KeyEvent,
    released: bool,
    keyboard: &NoteKeyboard,
    octave: i32,
    held: &[char],
    is_playing: bool,
) -> (r: PreviewKeyAction)
    requires
        offsets_fit(*keyboard, octave),
    ensures
        spec_preview_key(key, released, *keyboard, octave, held@, is_playing, r),
{
    if released {
        return match preview_key_char(&key) {
            Some(c) => PreviewKeyAction::Release(c),
            None => PreviewKeyAction::Ignore,
        };
    }
    if key_stroke_matches(KeyStroke::Code(KeyCode::Esc), &key) || key_stroke_matches(KeyStroke::ShiftChar('p'), &key) {
        return PreviewKeyAction::Close;
    }
    if key_stroke_matches(KeyStroke::Code(KeyCode::Enter), &key) {
        return PreviewKeyAction::ApplyProgram;
    }
    match normalized_key_stroke(&key) {
        Some(KeyStroke::Symbol('[')) => return PreviewKeyAction::AdjustProgram(-(PREVIEW_PROGRAM_STEP as i16)),
        Some(KeyStroke::Symbol(']')) => return PreviewKeyAction::AdjustProgram(PREVIEW_PROGRAM_STEP as i16),
        Some(KeyStroke::Symbol('{')) => return PreviewKeyAction::AdjustProgram(-(PREVIEW_PROGRAM_PAGE_STEP as i16)),
        Some(KeyStroke::Symbol('}')) => return PreviewKeyAction::AdjustProgram(PREVIEW_PROGRAM_PAGE_STEP as i16),
        Some(KeyStroke::Char('r')) => return PreviewKeyAction::ResetProgram,
        _ => {},
    }
    match note_keyboard_action(keyboard, &key) {
        Some(NoteKeyboardAction::OctaveDown) => return PreviewKeyAction::OctaveDown,
        Some(NoteKeyboardAction::OctaveUp) => return PreviewKeyAction::OctaveUp,
        None => {},
    }
    let c = match preview_key_char(&key) {
        Some(c) => c,
        None => return PreviewKeyAction::Unknown,
    };
    if holds(held, c) {
        return PreviewKeyAction::AlreadyHeld(c);
    }
    match note_key_input_for_key(keyboard, octave, key) {
        NoteKeyInput::Token(t) => if is_rest_or_sustain(&t) {
            PreviewKeyAction::Silent { key: c, token: t }
        } else if is_playing {
            PreviewKeyAction::Suppressed(t)
        } else {
            PreviewKeyAction::Audition { key: c, token: t }
        },
        _ => PreviewKeyAction::Unknown,
    }
}

impl PreviewPanelState {
    /// `", source pc <p>"`-style suffix of the panel's title: ` | source pc <p>`
    /// when the track sets a program.
    pub open spec fn spec_source_suffix(p: Option<u8>) -> Seq<char> {
        match p {
            Some(x) => " | source pc "@ + decimal(x as nat),
            None => Seq::empty(),
        }
    }

    /// Opens the panel on a track; the status line then says which.
    pub fn open_with(&mut self, context: PreviewTrackContext) -> (message: String)
        requires
            context.channel < 255,
        ensures
            final(self).open,
            final(self).track_header_row == Some(context.track_header_row),
            final(self).track_name@ == context.track_name@,
            final(self).channel == context.channel,
            final(self).source_program == context.source_program,
            final(self).override_program is None,
            final(self).velocity == 96,
            final(self).active_keys@ == Seq::<char>::empty(),
            final(self).controls == old(self).controls,
            final(self).selected_target == old(self).selected_target,
            message@ == "Preview panel: "@ + context.track_name@ + " | ch "@ + decimal((context.channel + 1) as nat)
                + Self::spec_source_suffix(context.source_program),
    {
        let mut m = chars_of("Preview panel: ");
        append(&mut m, &chars_of(context.track_name.as_str()));
        append(&mut m, &chars_of(" | ch "));
        append(&mut m, &decimal_chars((context.channel + 1) as u64));
        match context.source_program {
            Some(p) => {
                append(&mut m, &chars_of(" | source pc "));
                append(&mut m, &decimal_chars(p as u64));
            },
            None => {
                assert(m@ + Seq::<char>::empty() =~= m@);
            },
        }
        self.open = true;
        self.track_header_row = Some(context.track_header_row);
        self.track_name = context.track_name;
        self.channel = context.channel;
        self.source_program = context.source_program;
        self.override_program = None;
        self.velocity = 96;
        self.active_keys = Vec::new();
        string_of(&m)
    }

    /// Closes the panel.
    pub fn close(&mut self) -> (message: &'static str)
        ensures
            !final(self).open,
            final(self).track_header_row is None,
            final(self).active_keys@ == Seq::<char>::empty(),
            final(self).track_name == old(self).track_name,
            final(self).channel == old(self).channel,
            final(self).source_program == old(self).source_program,
            final(self).override_program == old(self).override_program,
            final(self).controls == old(self).controls,
            message@ == "Preview panel closed"@,
    {
        self.open = false;
        self.track_header_row = None;
        self.active_keys = Vec::new();
        "Preview panel closed"
    }

    /// Moves the program in effect (0 when none) by `delta`, within `0..=127`, as
    /// an override.
    pub fn adjust_program(&mut self, delta: i16) -> (message: String)
        requires
            old(self).channel < 255,
        ensures
            ({
                let current: int = match old(self).override_program {
                    Some(p) => p as int,
                    None => match old(self).source_program {
                        Some(p) => p as int,
                        None => 0,
                    },
                };
                let next: int = if current + delta < 0 {
                    0
                } else if current + delta > 127 {
                    127
                } else {
                    current + delta
                };
                &&& final(self).override_program == Some(next as u8)
                &&& message@ == "Preview program: "@ + decimal(next as nat) + " (track "@ + old(self).track_name@
                    + " ch "@ + decimal((old(self).channel + 1) as nat) + ")"@
            }),
            final(self).source_program == old(self).source_program,
            final(self).track_name == old(self).track_name,
            final(self).channel == old(self).channel,
            final(self).open == old(self).open,
            final(self).controls == old(self).controls,
    {
        let current: u8 = match self.effective_program() {
            Some(p) => p,
            None => 0,
        };
        let sum: i32 = current as i32 + delta as i32;
        let next: u8 = if sum < 0 {
            0
        } else if sum > 127 {
            127
        } else {
            sum as u8
        };
        self.override_program = Some(next);
        let mut m = chars_of("Preview program: ");
        append(&mut m, &decimal_chars(next as u64));
        append(&mut m, &chars_of(" (track "));
        append(&mut m, &chars_of(self.track_name.as_str()));
        append(&mut m, &chars_of(" ch "));
        append(&mut m, &decimal_chars((self.channel + 1) as u64));
        append(&mut m, &chars_of(")"));
        string_of(&m)
    }

    /// Drops the program override.
    pub fn reset_program(&mut self) -> (message: String)
        ensures
            final(self).override_program is None,
            final(self).source_program == old(self).source_program,
            final(self).open == old(self).open,
            final(self).controls == old(self).controls,
            message@ == match old(self).source_program {
                Some(p) => "Preview program reset to source pc "@ + decimal(p as nat),
                None => "Preview program reset to track default"@,
            },
    {
        self.override_program = None;
        match self.source_program {
            Some(p) => {
                let mut m = chars_of("Preview program reset to source pc ");
                append(&mut m, &decimal_chars(p as u64));
                string_of(&m)
            },
            None => crate::text::owned("Preview program reset to track default"),
        }
    }
}

/// The note that a held preview key sounds.
#[derive(Clone, Copy, Debug, PartialEq, Eq)]
pub struct ActivePreviewNote {
    pub channel: u8,
    pub note: u8,
}

/// What the preview asks of the player.
#[derive(Debug, PartialEq, Eq)]
pub enum PreviewSound {
    ProgramChange { channel: u8, program: u8 },
    NoteOn { channel: u8, note: u8, velocity: u8 },
    NoteOff { channel: u8, note: u8 },
    SilenceAll,
}

/// How hard a previewed note is struck.
pub const PREVIEW_VELOCITY: u8 = 96;

/// Where `key` stands in the list `e` of keys and their notes.
pub open spec fn key_index(e: Seq<(char, ActivePreviewNote)>, key: char) -> Option<int> {
    first_where(e.len() as int, key_at(e, key))
}

/// Whether the entry at a position of `e` is that of `key`.
pub open spec fn key_at(e: Seq<(char, ActivePreviewNote)>, key: char) -> spec_fn(int) -> bool {
    |i: int| e[i].0 == key
}

/// No key stands twice in `e`.
pub open spec fn keys_distinct(e: Seq<(char, ActivePreviewNote)>) -> bool {
    forall|i: int, j: int| 0 <= i < j < e.len() ==> #[trigger] e[i].0 != #[trigger] e[j].0
}

/// `e` with `key` sounding `n`: its entry replaced, or a new one at the end.
pub open spec fn with_note(
    e: Seq<(char, ActivePreviewNote)>,
    key: char,
    n: ActivePreviewNote,
) -> Seq<(char, ActivePreviewNote)> {
    match key_index(e, key) {
        Some(i) => e.update(i, (key, n)),
        None => e.push((key, n)),
    }
}

/// `e` without the entry of `key`.
pub open spec fn without_key(e: Seq<(char, ActivePreviewNote)>, key: char) -> Seq<
    (char, ActivePreviewNote),
> {
    match key_index(e, key) {
        Some(i) => e.remove(i),
        None => e,
    }
}

/// Where `c` stands in `keys`.
pub open spec fn char_index(keys: Seq<char>, c: char) -> Option<int> {
    first_where(keys.len() as int, char_at(keys, c))
}

/// Whether the key at a position of `keys` is `c`.
pub open spec fn char_at(keys: Seq<char>, c: char) -> spec_fn(int) -> bool {
    |i: int| keys[i] == c
}

/// The notes that the held preview keys sound, one entry per key.
pub struct ActivePreviewNotes {
    entries: Vec<(char, ActivePreviewNote)>,
}

proof fn lemma_key_index(e: Seq<(char, ActivePreviewNote)>, key: char, i: int)
    requires
        0 <= i <= e.len(),
        forall|j: int| 0 <= j < i ==> e[j].0 != key,
        i < e.len() ==> e[i].0 == key,
    ensures
        key_index(e, key) == (if i < e.len() { Some(i) } else { None::<int> }),
{
    let p = key_at(e, key);
    assert forall|j: int| 0 <= j < i implies !#[trigger] p(j) by {}
    lemma_first_where(e.len() as int, p, i);
}

proof fn lemma_key_index_facts(e: Seq<(char, ActivePreviewNote)>, key: char)
    ensures
        key_index(e, key) matches Some(i) ==> 0 <= i < e.len() && e[i].0 == key && forall|j: int|
            0 <= j < i ==> e[j].0 != key,
        key_index(e, key) is None ==> forall|j: int| 0 <= j < e.len() ==> e[j].0 != key,
{
    let p = key_at(e, key);
    crate::text::lemma_first_where_some(e.len() as int, p);
    if key_index(e, key) is None {
        assert forall|j: int| 0 <= j < e.len() implies e[j].0 != key by {
            assert(!p(j));
        }
    }
    if let Some(i) = key_index(e, key) {
        assert forall|j: int| 0 <= j < i implies e[j].0 != key by {
            assert(!p(j));
        }
        assert(p(i));
    }
}

proof fn lemma_char_index(keys: Seq<char>, c: char, i: int)
    requires
        0 <= i <= keys.len(),
        forall|j: int| 0 <= j < i ==> keys[j] != c,
        i < keys.len() ==> keys[i] == c,
    ensures
        char_index(keys, c) == (if i < keys.len() { Some(i) } else { None::<int> }),
{
    let p = char_at(keys, c);
    assert forall|j: int| 0 <= j < i implies !#[trigger] p(j) by {}
    lemma_first_where(keys.len() as int, p, i);
}

fn find_key(e: &Vec<(char, ActivePreviewNote)>, key: char) -> (r: Option<usize>)
    ensures
        r matches Some(i) ==> key_index(e@, key) == Some(i as int) && i < e.len(),
        r is None ==> key_index(e@, key) is None,
{
    let mut i: usize = 0;
    while i < e.len()
        invariant
            i <= e.len(),
            forall|j: int| 0 <= j < i ==> e@[j].0 != key,
        decreases e.len() - i,
    {
        if e[i].0 == key {
            proof {
                lemma_key_index(e@, key, i as int);
            }
            return Some(i);
        }
        i += 1;
    }
    proof {
        lemma_key_index(e@, key, i as int);
    }
    None
}

fn find_char_in(keys: &Vec<char>, c: char) -> (r: Option<usize>)
    ensures
        r matches Some(i) ==> char_index(keys@, c) == Some(i as int) && i < keys.len(),
        r is None ==> char_index(keys@, c) is None,
{
    let mut i: usize = 0;
    while i < keys.len()
        invariant
            i <= keys.len(),
            forall|j: int| 0 <= j < i ==> keys@[j] != c,
        decreases keys.len() - i,
    {
        if keys[i] == c {
            proof {
                lemma_char_index(keys@, c, i as int);
            }
            return Some(i);
        }
        i += 1;
    }
    proof {
        lemma_char_index(keys@, c, i as int);
    }
    None
}

impl ActivePreviewNotes {
    /// The keys and their notes, in the order they were struck.
    pub closed spec fn entries(&self) -> Seq<(char, ActivePreviewNote)> {
        self.entries@
    }

    pub open spec fn well_formed(&self) -> bool {
        keys_distinct(self.entries())
    }

    /// No key held.
    pub fn new() -> (r: ActivePreviewNotes)
        ensures
            r.entries() == Seq::<(char, ActivePreviewNote)>::empty(),
            r.well_formed(),
    {
        ActivePreviewNotes { entries: Vec::new() }
    }

    /// The held keys, in the order they were struck.
    pub fn keys(&self) -> (r: Vec<char>)
        ensures
            r@ == self.entries().map_values(|p: (char, ActivePreviewNote)| p.0),
    {
        let mut r: Vec<char> = Vec::new();
        let mut i: usize = 0;
        while i < self.entries.len()
            invariant
                i <= self.entries@.len(),
                r@ == self.entries@.take(i as int).map_values(|p: (char, ActivePreviewNote)| p.0),
            decreases self.entries@.len() - i,
        {
            r.push(self.entries[i].0);
            i += 1;
            assert(r@ =~= self.entries@.take(i as int).map_values(|p: (char, ActivePreviewNote)| p.0));
        }
        assert(self.entries@.take(i as int) =~= self.entries@);
        r
    }

    /// The note that `key` sounds, if it is held.
    pub fn note_of(&self, key: char) -> (r: Option<ActivePreviewNote>)
        ensures
            r == (match key_index(self.entries(), key) {
                Some(i) => Some(self.entries()[i].1),
                None => None,
            }),
    {
        match find_key(&self.entries, key) {
            Some(i) => Some(self.entries[i].1),
            None => None,
        }
    }

    /// A key let go: its entry leaves, and the note it sounded is stopped.
    pub fn release(&mut self, key: char) -> (r: Option<PreviewSound>)
        requires
            old(self).well_formed(),
        ensures
            final(self).well_formed(),
            final(self).entries() == without_key(old(self).entries(), key),
            r == (match key_index(old(self).entries(), key) {
                Some(i) => Some(
                    PreviewSound::NoteOff {
                        channel: old(self).entries()[i].1.channel,
                        note: old(self).entries()[i].1.note,
                    },
                ),
                None => None,
            }),
    {
        match find_key(&self.entries, key) {
            Some(i) => {
                let (_, n) = self.entries.remove(i);
                proof {
                    let e = old(self).entries@;
                    assert forall|a: int, b: int| 0 <= a < b < self.entries@.len() implies #[trigger] self.entries@[a].0
                        != #[trigger] self.entries@[b].0 by {
                        let a0 = if a < i { a } else { a + 1 };
                        let b0 = if b < i { b } else { b + 1 };
                        assert(self.entries@[a] == e[a0]);
                        assert(self.entries@[b] == e[b0]);
                    }
                }
                Some(PreviewSound::NoteOff { channel: n.channel, note: n.note })
            },
            None => None,
        }
    }

    /// A pitch key struck while the score is still: where the pitch has a note on
    /// the panel's track (`target`, channel and note), the program in effect is
    /// sent, the note starts and the key holds it; else the key holds nothing.
    /// The status line says which.
    pub fn audition(
        &mut self,
        program: Option<u8>,
        key: char,
        token: &String,
        target: Option<(u8, u8)>,
    ) -> (r: (Vec<PreviewSound>, String))
        requires
            old(self).well_formed(),
            target matches Some(t) ==> t.0 < 255,
        ensures
            final(self).well_formed(),
            match target {
                Some((channel, note)) => {
                    &&& final(self).entries() == with_note(
                        old(self).entries(),
                        key,
                        ActivePreviewNote { channel, note },
                    )
                    &&& r.0@ == (match program {
                        Some(p) => seq![PreviewSound::ProgramChange { channel, program: p }],
                        None => Seq::<PreviewSound>::empty(),
                    }).push(PreviewSound::NoteOn { channel, note, velocity: PREVIEW_VELOCITY })
                    &&& r.1@ == "Preview: "@ + token@ + " | ch "@ + decimal((channel + 1) as nat) + (
                    match program {
                        Some(p) => " | pc "@ + decimal(p as nat),
                        None => Seq::<char>::empty(),
                    })
                },
                None => {
                    &&& final(self).entries() == without_key(old(self).entries(), key)
                    &&& r.0@ == Seq::<PreviewSound>::empty()
                    &&& r.1@ == "Preview unavailable here: "@ + token@
                },
            },
    {
        match target {
            Some((channel, note)) => {
                let n = ActivePreviewNote { channel, note };
                match find_key(&self.entries, key) {
                    Some(i) => {
                        self.entries.set(i, (key, n));
                        proof {
                            let e = old(self).entries@;
                            assert forall|a: int, b: int| 0 <= a < b < self.entries@.len() implies #[trigger] self.entries@[a].0
                                != #[trigger] self.entries@[b].0 by {
                                if a != i && b != i {
                                    assert(self.entries@[a] == e[a] && self.entries@[b] == e[b]);
                                } else if a == i {
                                    assert(self.entries@[b] == e[b]);
                                    assert(e[a].0 == key);
                                } else {
                                    assert(self.entries@[a] == e[a]);
                                    assert(e[b].0 == key);
                                }
                            }
                        }
                    },
                    None => {
                        self.entries.push((key, n));
                        proof {
                            let e = old(self).entries@;
                            lemma_first_where_none_all(e, key);
                            assert forall|a: int, b: int| 0 <= a < b < self.entries@.len() implies #[trigger] self.entries@[a].0
                                != #[trigger] self.entries@[b].0 by {
                                assert(self.entries@[a] == e[a]);
                                if b < e.len() {
                                    assert(self.entries@[b] == e[b]);
                                }
                            }
                        }
                    },
                }
                let mut sounds: Vec<PreviewSound> = Vec::new();
                let mut m = chars_of("Preview: ");
                append(&mut m, &chars_of(token.as_str()));
                append(&mut m, &chars_of(" | ch "));
                append(&mut m, &decimal_chars((channel + 1) as u64));
                match program {
                    Some(p) => {
                        sounds.push(PreviewSound::ProgramChange { channel, program: p });
                        append(&mut m, &chars_of(" | pc "));
                        append(&mut m, &decimal_chars(p as u64));
                    },
                    None => {
                        assert(m@ + Seq::<char>::empty() =~= m@);
                    },
                }
                sounds.push(PreviewSound::NoteOn { channel, note, velocity: PREVIEW_VELOCITY });
                proof {
                    match program {
                        Some(p) => assert(sounds@ =~= seq![PreviewSound::ProgramChange { channel, program: p }].push(
                            PreviewSound::NoteOn { channel, note, velocity: PREVIEW_VELOCITY },
                        )),
                        None => assert(sounds@ =~= Seq::<PreviewSound>::empty().push(
                            PreviewSound::NoteOn { channel, note, velocity: PREVIEW_VELOCITY },
                        )),
                    }
                }
                (sounds, string_of(&m))
            },
            None => {
                let _ = self.release(key);
                let mut m = chars_of("Preview unavailable here: ");
                append(&mut m, &chars_of(token.as_str()));
                (Vec::new(), string_of(&m))
            },
        }
    }

    /// A rest or sustain key struck: it holds nothing, and the status line names
    /// the token.
    pub fn silent(&mut self, key: char, token: &String) -> (message: String)
        requires
            old(self).well_formed(),
        ensures
            final(self).well_formed(),
            final(self).entries() == without_key(old(self).entries(), key),
            message@ == "Preview silent: "@ + token@,
    {
        let _ = self.release(key);
        let mut m = chars_of("Preview silent: ");
        append(&mut m, &chars_of(token.as_str()));
        string_of(&m)
    }

    /// Every held note stops at once: when any is held, the panel's keys and the
    /// notes are dropped and the player silences everything; else nothing happens.
    pub fn clear(&mut self, panel: &mut PreviewPanelState) -> (r: Option<PreviewSound>)
        ensures
            final(self).well_formed(),
            old(self).entries().len() == 0 ==> {
                &&& r is None
                &&& final(self).entries() == old(self).entries()
                &&& final(panel).active_keys@ == old(panel).active_keys@
            },
            old(self).entries().len() > 0 ==> {
                &&& r == Some(PreviewSound::SilenceAll)
                &&& final(self).entries() == Seq::<(char, ActivePreviewNote)>::empty()
                &&& final(panel).active_keys@ == Seq::<char>::empty()
            },
            final(panel).open == old(panel).open,
            final(panel).track_header_row == old(panel).track_header_row,
            final(panel).track_name == old(panel).track_name,
            final(panel).channel == old(panel).channel,
            final(panel).selected_target == old(panel).selected_target,
            final(panel).source_program == old(panel).source_program,
            final(panel).override_program == old(panel).override_program,
            final(panel).controls == old(panel).controls,
            final(panel).velocity == old(panel).velocity,
    {
        if self.entries.len() == 0 {
            return None;
        }
        panel.active_keys = Vec::new();
        self.entries = Vec::new();
        Some(PreviewSound::SilenceAll)
    }
}

proof fn lemma_first_where_none_all(e: Seq<(char, ActivePreviewNote)>, key: char)
    requires
        key_index(e, key) is None,
    ensures
        forall|j: int| 0 <= j < e.len() ==> e[j].0 != key,
{
    lemma_key_index_facts(e, key);
}

/// The status line of a pitch key struck while the score plays.
pub fn suppressed_status(token: &String) -> (message: String)
    ensures
        message@ == "Preview suppressed while playing: "@ + token@,
{
    let mut m = chars_of("Preview suppressed while playing: ");
    append(&mut m, &chars_of(token.as_str()));
    string_of(&m)
}

impl PreviewPanelState {
    /// A key pressed in the panel is shown as held (once).
    pub fn hold_key(&mut self, key: char)
        ensures
            final(self).active_keys@ == (match char_index(old(self).active_keys@, key) {
                Some(_) => old(self).active_keys@,
                None => old(self).active_keys@.push(key),
            }),
            final(self).open == old(self).open,
            final(self).track_header_row == old(self).track_header_row,
            final(self).track_name == old(self).track_name,
            final(self).channel == old(self).channel,
            final(self).selected_target == old(self).selected_target,
            final(self).source_program == old(self).source_program,
            final(self).override_program == old(self).override_program,
            final(self).controls == old(self).controls,
            final(self).velocity == old(self).velocity,
    {
        if find_char_in(&self.active_keys, key).is_none() {
            self.active_keys.push(key);
        }
    }

    /// A key let go in the panel is no longer shown as held.
    pub fn let_go(&mut self, key: char)
        ensures
            final(self).active_keys@ == (match char_index(old(self).active_keys@, key) {
                Some(i) => old(self).active_keys@.remove(i),
                None => old(self).active_keys@,
            }),
            final(self).open == old(self).open,
            final(self).track_header_row == old(self).track_header_row,
            final(self).track_name == old(self).track_name,
            final(self).channel == old(self).channel,
            final(self).selected_target == old(self).selected_target,
            final(self).source_program == old(self).source_program,
            final(self).override_program == old(self).override_program,
            final(self).controls == old(self).controls,
            final(self).velocity == old(self).velocity,
    {
        match find_char_in(&self.active_keys, key) {
            Some(i) => {
                self.active_keys.remove(i);
            },
            None => {},
        }
    }
}

/// The note that a struck key holds is the one its release stops, and letting it
/// go leaves the other keys as they were before it was struck.
pub proof fn release_stops_the_struck_note(
    e: Seq<(char, ActivePreviewNote)>,
    key: char,
    n: ActivePreviewNote,
)
    requires
        keys_distinct(e),
    ensures
        key_index(with_note(e, key, n), key) matches Some(i) && with_note(e, key, n)[i].1 == n,
        without_key(with_note(e, key, n), key) == without_key(e, key),
{
    lemma_key_index_facts(e, key);
    let e2 = with_note(e, key, n);
    match key_index(e, key) {
        Some(i) => {
            assert forall|j: int| 0 <= j < i implies e2[j].0 != key by {
                assert(e2[j] == e[j]);
            }
            lemma_key_index(e2, key, i);
            assert(e2.remove(i) =~= e.remove(i));
        },
        None => {
            assert forall|j: int| 0 <= j < e.len() implies e2[j].0 != key by {
                assert(e2[j] == e[j]);
            }
            lemma_key_index(e2, key, e.len() as int);
            assert(e2.remove(e.len() as int) =~= e);
        },
    }
}

} // verus!
