//! Note entry from the computer keyboard: which key types which token, the
//! keyboard's configuration, its on-screen layout, and setting a track's program.
use vstd::prelude::*;
use crate::studio::settings::{parse_track_header, spec_track_header};
use crate::studio::track_init::{spec_init_label, track_init_label_of_line, TrackInitLabel};
use crate::studio::template_ops::template_name_of;
use crate::studio::keystroke::{key_stroke_matches, normalized_key_stroke, spec_stroke, KeyCode, KeyEvent, KeyStroke};
use crate::text::{
    ascii_lowercase, chars_of, decimal_chars, eq_chars, parse_i32_at, parse_i32_spec, signed_decimal,
    signed_decimal_chars, slice_vec, string_of, string_views, to_lower, trim, trimmed, is_prefix,
    starts_with, decimal,
};

verus! {

pub const MIN_KEYBOARD_OCTAVE: i32 = 0;
pub const MAX_KEYBOARD_OCTAVE: i32 = 7;
pub const DEFAULT_KEYBOARD_OCTAVE: i32 = 4;

/// What a key types: a pitch (a note name and an octave offset from the
/// keyboard's octave), a rest or a sustain.
#[derive(Debug)]
pub enum NoteKeyBinding {
    Pitch { name: String, octave_offset: i32 },
    Rest,
    Sustain,
}

/// A binding as plain values: `(0, name, offset)` for a pitch, `(1, "", 0)` for a
/// rest, `(2, "", 0)` for a sustain.
pub open spec fn binding_view(b: NoteKeyBinding) -> (int, Seq<char>, int) {
    match b {
        NoteKeyBinding::Pitch { name, octave_offset } => (0, name@, octave_offset as int),
        NoteKeyBinding::Rest => (1, seq![], 0),
        NoteKeyBinding::Sustain => (2, seq![], 0),
    }
}

impl NoteKeyBinding {
    /// A copy of the binding.
    pub fn duplicate(&self) -> (r: NoteKeyBinding)
        ensures
            binding_view(r) == binding_view(*self),
    {
        match self {
            NoteKeyBinding::Pitch { name, octave_offset } => NoteKeyBinding::Pitch {
                name: string_of(&chars_of(name.as_str())),
                octave_offset: *octave_offset,
            },
            NoteKeyBinding::Rest => NoteKeyBinding::Rest,
            NoteKeyBinding::Sustain => NoteKeyBinding::Sustain,
        }
    }

    /// Whether two bindings type the same thing.
    pub fn same_as(&self, other: &NoteKeyBinding) -> (r: bool)
        ensures
            r == (binding_view(*self) == binding_view(*other)),
    {
        match (self, other) {
            (
                NoteKeyBinding::Pitch { name: a, octave_offset: x },
                NoteKeyBinding::Pitch { name: b, octave_offset: y },
            ) => *x == *y && eq_chars(&chars_of(a.as_str()), &chars_of(b.as_str())),
            (NoteKeyBinding::Rest, NoteKeyBinding::Rest) => true,
            (NoteKeyBinding::Sustain, NoteKeyBinding::Sustain) => true,
            _ => false,
        }
    }
}

/// What a key pressed in note entry means.
pub enum NoteKeyInput {
    Cancel,
    Token(String),
    Unknown,
}

/// How a typed token is previewed.
#[derive(Clone, Copy, Debug, PartialEq, Eq, Structural)]
pub enum PreviewAction {
    AuditionPitch,
    SilentToken,
}

/// The preview of an input: rests and sustains are silent, other tokens sound.
pub fn preview_action(input: NoteKeyInput) -> (r: Option<PreviewAction>)
    ensures
        r == match input {
            NoteKeyInput::Token(t) => if t@ == "."@ || t@ == "-"@ {
                Some(PreviewAction::SilentToken)
            } else {
                Some(PreviewAction::AuditionPitch)
            },
            _ => None::<PreviewAction>,
        },
{
    match input {
        NoteKeyInput::Token(t) => {
            let v = chars_of(t.as_str());
            if eq_chars(&v, &chars_of(".")) || eq_chars(&v, &chars_of("-")) {
                Some(PreviewAction::SilentToken)
            } else {
                Some(PreviewAction::AuditionPitch)
            }
        },
        _ => None,
    }
}

/// The keyboard: each key's binding (at most one binding per key and one key per
/// binding), and the keys that move its octave.
pub struct NoteKeyboard {
    pub keys: Vec<(char, NoteKeyBinding)>,
    pub octave_down: char,
    pub octave_up: char,
}

/// The bindings as plain values.
pub open spec fn entries_view(es: Seq<(char, NoteKeyBinding)>) -> Seq<(char, (int, Seq<char>, int))> {
    es.map_values(|e: (char, NoteKeyBinding)| (e.0, binding_view(e.1)))
}

/// The binding of key `k` among `es`.
pub open spec fn lookup(es: Seq<(char, (int, Seq<char>, int))>, k: char) -> Option<(int, Seq<char>, int)>
    decreases es.len(),
{
    if es.len() == 0 {
        None
    } else if es.last().0 == k {
        Some(es.last().1)
    } else {
        lookup(es.drop_last(), k)
    }
}

/// The key bound to `b` among `es` (the first one).
pub open spec fn key_of(es: Seq<(char, (int, Seq<char>, int))>, b: (int, Seq<char>, int)) -> Option<char>
    decreases es.len(),
{
    if es.len() == 0 {
        None
    } else {
        match key_of(es.drop_last(), b) {
            Some(k) => Some(k),
            None => if es.last().1 == b {
                Some(es.last().0)
            } else {
                None
            },
        }
    }
}

/// No key and no binding occurs twice.
pub open spec fn bindings_unique(es: Seq<(char, (int, Seq<char>, int))>) -> bool {
    forall|i: int, j: int|
        0 <= i < j < es.len() ==> (#[trigger] es[i]).0 != (#[trigger] es[j]).0 && es[i].1 != es[j].1
}

/// Binding key `key` to `b`: the key's old binding and the old key of `b` go,
/// then `key` is bound to `b`.
pub open spec fn rebound(es: Seq<(char, (int, Seq<char>, int))>, key: char, b: (int, Seq<char>, int)) -> Seq<(char, (int, Seq<char>, int))>
    decreases es.len(),
{
    if es.len() == 0 {
        seq![(key, b)]
    } else {
        let r = rebound(es.drop_last(), key, b);
        let e = es.last();
        if e.0 != key && e.1 != b {
            r.drop_last().push(e).push((key, b))
        } else {
            r
        }
    }
}

/// The text a binding types at octave `octave`: the note name and the octave
/// plus its offset, `.` or `-`.
pub open spec fn token_text(b: (int, Seq<char>, int), octave: int) -> Seq<char> {
    if b.0 == 0 {
        b.1 + signed_decimal(octave + b.2)
    } else if b.0 == 1 {
        "."@
    } else {
        "-"@
    }
}

/// The note names a binding may use.
pub open spec fn is_note_name(s: Seq<char>) -> bool {
    s == "C"@ || s == "C#"@ || s == "D"@ || s == "D#"@ || s == "E"@ || s == "F"@ || s == "F#"@ || s == "G"@
        || s == "G#"@ || s == "A"@ || s == "A#"@ || s == "B"@
}

/// ASCII case-insensitive equality.
pub open spec fn eq_ignore_case(a: Seq<char>, b: Seq<char>) -> bool {
    a.map_values(|c: char| to_lower(c)) == b.map_values(|c: char| to_lower(c))
}

/// The first `+` or `-` of `s`, else its length.
pub open spec fn sign_at(s: Seq<char>) -> int
    decreases s.len(),
{
    if s.len() == 0 {
        0
    } else if sign_at(s.drop_last()) < s.len() - 1 {
        sign_at(s.drop_last())
    } else if s.last() == '+' || s.last() == '-' {
        s.len() - 1
    } else {
        s.len() as int
    }
}

/// The binding a configuration value asks for: `rest`, `sustain` (any ASCII
/// case), or a note name with an optional signed octave offset (`C#+1`).
pub open spec fn spec_note_binding(value: Seq<char>) -> Option<(int, Seq<char>, int)> {
    let v = trim(value);
    if eq_ignore_case(v, "rest"@) {
        Some((1, seq![], 0))
    } else if eq_ignore_case(v, "sustain"@) {
        Some((2, seq![], 0))
    } else {
        let at = sign_at(v);
        let name = v.take(at);
        if !is_note_name(name) {
            None
        } else if at == v.len() {
            Some((0, name, 0))
        } else {
            match parse_i32_spec(v.skip(at)) {
                Some(o) => Some((0, name, o)),
                None => None,
            }
        }
    }
}

fn lower_all(v: &Vec<char>) -> (r: Vec<char>)
    ensures
        r@ == v@.map_values(|c: char| to_lower(c)),
{
    crate::validation::ascii_lowercase_chars(v)
}

fn eq_ignore_case_lit(v: &Vec<char>, lit: &str) -> (b: bool)
    ensures
        b == eq_ignore_case(v@, lit@),
{
    eq_chars(&lower_all(v), &lower_all(&chars_of(lit)))
}

fn is_note_name_chars(v: &Vec<char>) -> (b: bool)
    ensures
        b == is_note_name(v@),
{
    let e = |s: &str| -> (b: bool)
        ensures
            b == (v@ == s@),
        { eq_chars(v, &chars_of(s)) };
    e("C") || e("C#") || e("D") || e("D#") || e("E") || e("F") || e("F#") || e("G") || e("G#") || e("A") || e("A#")
        || e("B")
}

/// Reads a configured binding.
pub fn parse_note_binding(value: &str) -> (r: Option<NoteKeyBinding>)
    ensures
        match spec_note_binding(value@) {
            Some(b) => r matches Some(x) && binding_view(x) == b,
            None => r is None,
        },
{
    let v = trimmed(&chars_of(value));
    if eq_ignore_case_lit(&v, "rest") {
        return Some(NoteKeyBinding::Rest);
    }
    if eq_ignore_case_lit(&v, "sustain") {
        return Some(NoteKeyBinding::Sustain);
    }
    let mut at: usize = 0;
    while at < v.len() && v[at] != '+' && v[at] != '-'
        invariant
            at <= v.len(),
            forall|j: int| 0 <= j < at ==> v@[j] != '+' && v@[j] != '-',
        decreases v.len() - at,
    {
        at += 1;
    }
    proof {
        lemma_sign_at(v@, at as int);
    }
    let name = slice_vec(&v, 0, at);
    assert(name@ =~= v@.take(at as int));
    if !is_note_name_chars(&name) {
        return None;
    }
    let offset = if at == v.len() {
        0
    } else {
        assert(v@.subrange(at as int, v.len() as int) =~= v@.skip(at as int));
        match parse_i32_at(&v, at, v.len()) {
            Some(o) => o,
            None => {
                return None;
            },
        }
    };
    Some(NoteKeyBinding::Pitch { name: string_of(&name), octave_offset: offset })
}

proof fn lemma_sign_at(s: Seq<char>, at: int)
    requires
        0 <= at <= s.len(),
        forall|j: int| 0 <= j < at ==> s[j] != '+' && s[j] != '-',
        at < s.len() ==> (s[at] == '+' || s[at] == '-'),
    ensures
        sign_at(s) == at,
    decreases s.len(),
{
    if s.len() > 0 {
        if at < s.len() {
            if at < s.len() - 1 {
                lemma_sign_at(s.drop_last(), at);
            } else {
                lemma_sign_at(s.drop_last(), s.len() - 1);
            }
        } else {
            lemma_sign_at(s.drop_last(), s.len() - 1);
        }
    }
}

/// A configured key: exactly one character, lower-cased in ASCII.
pub open spec fn spec_single_char(value: Seq<char>) -> Option<char> {
    if value.len() == 1 {
        Some(to_lower(value[0]))
    } else {
        None
    }
}

/// Reads a configured key.
pub fn single_char_key(value: &str) -> (r: Option<char>)
    ensures
        r == spec_single_char(value@),
{
    let v = chars_of(value);
    if v.len() == 1 {
        Some(ascii_lowercase(v[0]))
    } else {
        None
    }
}

/// The key configuration of note entry.
pub struct NoteKeyboardConfig {
    pub base_octave: Option<i32>,
    pub octave_down: Option<String>,
    pub octave_up: Option<String>,
    pub keys: Vec<(String, String)>,
}

/// The default bindings: the home row and the row above it from `C` to the `E` an
/// octave up, `.` for rest and `-` for sustain.
pub open spec fn default_entries() -> Seq<(char, (int, Seq<char>, int))> {
    seq![
        ('a', (0, "C"@, 0)),
        ('w', (0, "C#"@, 0)),
        ('s', (0, "D"@, 0)),
        ('e', (0, "D#"@, 0)),
        ('d', (0, "E"@, 0)),
        ('f', (0, "F"@, 0)),
        ('t', (0, "F#"@, 0)),
        ('g', (0, "G"@, 0)),
        ('y', (0, "G#"@, 0)),
        ('h', (0, "A"@, 0)),
        ('u', (0, "A#"@, 0)),
        ('j', (0, "B"@, 0)),
        ('k', (0, "C"@, 1)),
        ('o', (0, "C#"@, 1)),
        ('l', (0, "D"@, 1)),
        ('p', (0, "D#"@, 1)),
        (';', (0, "E"@, 1)),
        ('.', (1, seq![], 0)),
        ('-', (2, seq![], 0))
    ]
}

fn pitch(key: char, name: &str, offset: i32) -> (r: (char, NoteKeyBinding))
    ensures
        r.0 == key,
        binding_view(r.1) == (0int, name@, offset as int),
{
    (key, NoteKeyBinding::Pitch { name: crate::text::owned(name), octave_offset: offset })
}

impl NoteKeyboard {
    /// The bindings as plain values.
    pub open spec fn entries(&self) -> Seq<(char, (int, Seq<char>, int))> {
        entries_view(self.keys@)
    }

    /// The default keyboard; `z` and `x` move the octave.
    pub fn default_keyboard() -> (r: NoteKeyboard)
        ensures
            r.entries() == default_entries(),
            r.octave_down == 'z',
            r.octave_up == 'x',
    {
        let mut keys: Vec<(char, NoteKeyBinding)> = Vec::new();
        keys.push(pitch('a', "C", 0));
        keys.push(pitch('w', "C#", 0));
        keys.push(pitch('s', "D", 0));
        keys.push(pitch('e', "D#", 0));
        keys.push(pitch('d', "E", 0));
        keys.push(pitch('f', "F", 0));
        keys.push(pitch('t', "F#", 0));
        keys.push(pitch('g', "G", 0));
        keys.push(pitch('y', "G#", 0));
        keys.push(pitch('h', "A", 0));
        keys.push(pitch('u', "A#", 0));
        keys.push(pitch('j', "B", 0));
        keys.push(pitch('k', "C", 1));
        keys.push(pitch('o', "C#", 1));
        keys.push(pitch('l', "D", 1));
        keys.push(pitch('p', "D#", 1));
        keys.push(pitch(';', "E", 1));
        keys.push(('.', NoteKeyBinding::Rest));
        keys.push(('-', NoteKeyBinding::Sustain));
        let r = NoteKeyboard { keys, octave_down: 'z', octave_up: 'x' };
        assert(r.entries() =~= default_entries());
        r
    }

    /// Whether `key` moves the octave down (in any ASCII case).
    pub fn is_octave_down(&self, key: char) -> (b: bool)
        ensures
            b == (to_lower(key) == to_lower(self.octave_down)),
    {
        ascii_lowercase(key) == ascii_lowercase(self.octave_down)
    }

    /// Whether `key` moves the octave up (in any ASCII case).
    pub fn is_octave_up(&self, key: char) -> (b: bool)
        ensures
            b == (to_lower(key) == to_lower(self.octave_up)),
    {
        ascii_lowercase(key) == ascii_lowercase(self.octave_up)
    }

    fn find_key(&self, k: char) -> (r: Option<usize>)
        ensures
            match lookup(self.entries(), k) {
                Some(b) => r matches Some(i) && i < self.keys@.len() && self.entries()[i as int] == (k, b),
                None => r is None,
            },
    {
        let ghost es = self.entries();
        let mut n: usize = self.keys.len();
        assert(es.take(n as int) =~= es);
        while n > 0
            invariant
                n <= self.keys@.len(),
                es == self.entries(),
                lookup(es, k) == lookup(es.take(n as int), k),
            decreases n,
        {
            assert(es.take(n as int).drop_last() =~= es.take(n - 1));
            assert(es.take(n as int).last() == es[n - 1]);
            if self.keys[n - 1].0 == k {
                return Some(n - 1);
            }
            n -= 1;
        }
        None
    }

    /// The token that `key` (in any ASCII case) types at octave `base_octave`.
    pub fn token(&self, key: char, base_octave: i32) -> (r: Option<String>)
        requires
            lookup(self.entries(), to_lower(key)) matches Some(b) ==> i32::MIN <= base_octave + b.2 <= i32::MAX,
        ensures
            match lookup(self.entries(), to_lower(key)) {
                Some(b) => r matches Some(t) && t@ == token_text(b, base_octave as int),
                None => r is None,
            },
    {
        let i = match self.find_key(ascii_lowercase(key)) {
            Some(i) => i,
            None => {
                return None;
            },
        };
        match &self.keys[i].1 {
            NoteKeyBinding::Pitch { name, octave_offset } => {
                let mut t = chars_of(name.as_str());
                crate::text::append(&mut t, &signed_decimal_chars((base_octave + *octave_offset) as i64));
                Some(string_of(&t))
            },
            NoteKeyBinding::Rest => Some(crate::text::owned(".")),
            NoteKeyBinding::Sustain => Some(crate::text::owned("-")),
        }
    }

    /// Binds `key` to `binding`, dropping the key's old binding and the old key of
    /// the binding.
    pub fn set_binding(&mut self, key: char, binding: NoteKeyBinding)
        ensures
            final(self).entries() == rebound(old(self).entries(), key, binding_view(binding)),
            final(self).octave_down == old(self).octave_down,
            final(self).octave_up == old(self).octave_up,
    {
        let ghost es = self.entries();
        let ghost bv = binding_view(binding);
        let mut old_keys: Vec<(char, NoteKeyBinding)> = Vec::new();
        std::mem::swap(&mut old_keys, &mut self.keys);
        let ghost ov = entries_view(old_keys@);
        let mut kept: Vec<(char, NoteKeyBinding)> = Vec::new();
        let mut i: usize = 0;
        assert(entries_view(kept@).push((key, bv)) =~= rebound(ov.take(0), key, bv));
        while i < old_keys.len()
            invariant
                i <= old_keys@.len(),
                ov == entries_view(old_keys@),
                bv == binding_view(binding),
                entries_view(kept@).push((key, bv)) == rebound(ov.take(i as int), key, bv),
            decreases old_keys@.len() - i,
        {
            let ghost k0 = entries_view(kept@);
            proof {
                assert(ov.take(i + 1).drop_last() =~= ov.take(i as int));
                assert(ov.take(i + 1).last() == ov[i as int]);
            }
            let e = &old_keys[i];
            if e.0 != key && !e.1.same_as(&binding) {
                let b = e.1.duplicate();
                kept.push((e.0, b));
                assert(entries_view(kept@) =~= k0.push(ov[i as int]));
                assert(k0.push((key, bv)).drop_last() =~= k0);
            }
            i += 1;
        }
        assert(ov.take(old_keys@.len() as int) =~= ov);
        let ghost kv = entries_view(kept@);
        kept.push((key, binding));
        assert(entries_view(kept@) =~= kv.push((key, bv)));
        self.keys = kept;
    }
}


/// The place of a default key in the default keyboard.
spec fn default_key_index(c: char) -> int {
    if c == 'a' { 0 } else if c == 'w' { 1 } else if c == 's' { 2 } else if c == 'e' { 3 }
    else if c == 'd' { 4 } else if c == 'f' { 5 } else if c == 't' { 6 } else if c == 'g' { 7 }
    else if c == 'y' { 8 } else if c == 'h' { 9 } else if c == 'u' { 10 } else if c == 'j' { 11 }
    else if c == 'k' { 12 } else if c == 'o' { 13 } else if c == 'l' { 14 } else if c == 'p' { 15 }
    else if c == ';' { 16 } else if c == '.' { 17 } else if c == '-' { 18 } else { 19 }
}

/// The place of a note name among the twelve, by its letter and its sharp.
spec fn name_index(n: Seq<char>) -> int {
    let c = n[0];
    let base: int = if c == 'C' { 0 } else if c == 'D' { 2 } else if c == 'E' { 4 } else if c == 'F' { 5 }
        else if c == 'G' { 7 } else if c == 'A' { 9 } else { 11 };
    if n.len() == 2 && n[1] == '#' { base + 1 } else { base }
}

/// The place of a default binding in the default keyboard.
spec fn default_binding_index(b: (int, Seq<char>, int)) -> int {
    if b.0 == 1 { 17 } else if b.0 == 2 { 18 } else { name_index(b.1) + 12 * b.2 }
}

proof fn lemma_note_names_distinct()
    ensures
        name_index("C"@) == 0, name_index("C#"@) == 1, name_index("D"@) == 2, name_index("D#"@) == 3,
        name_index("E"@) == 4, name_index("F"@) == 5, name_index("F#"@) == 6, name_index("G"@) == 7,
        name_index("G#"@) == 8, name_index("A"@) == 9, name_index("A#"@) == 10, name_index("B"@) == 11,
{
    reveal_strlit("C");
    reveal_strlit("C#");
    reveal_strlit("D");
    reveal_strlit("D#");
    reveal_strlit("E");
    reveal_strlit("F");
    reveal_strlit("F#");
    reveal_strlit("G");
    reveal_strlit("G#");
    reveal_strlit("A");
    reveal_strlit("A#");
    reveal_strlit("B");
}

/// The default keyboard binds each key once and each binding to one key.
#[verifier::rlimit(50)]
proof fn lemma_default_unique()
    ensures
        bindings_unique(default_entries()),
{
    let es = default_entries();
    lemma_note_names_distinct();
    assert forall|i: int| 0 <= i < es.len() implies default_key_index(#[trigger] es[i].0) == i
        && default_binding_index(es[i].1) == i by {
        if i == 0 {} else if i == 1 {} else if i == 2 {} else if i == 3 {} else if i == 4 {}
        else if i == 5 {} else if i == 6 {} else if i == 7 {} else if i == 8 {} else if i == 9 {}
        else if i == 10 {} else if i == 11 {} else if i == 12 {} else if i == 13 {} else if i == 14 {}
        else if i == 15 {} else if i == 16 {} else if i == 17 {} else {}
    }
}

/// Configuring keys keeps each key bound once and each binding bound to one key.
proof fn lemma_configured_unique(es: Seq<(char, (int, Seq<char>, int))>, cfg: Seq<(Seq<char>, Seq<char>)>)
    requires
        bindings_unique(es),
    ensures
        bindings_unique(configured(es, cfg)),
    decreases cfg.len(),
{
    if cfg.len() > 0 {
        lemma_configured_unique(es, cfg.drop_last());
        let acc = configured(es, cfg.drop_last());
        match (spec_single_char(cfg.last().0), spec_note_binding(cfg.last().1)) {
            (Some(k), Some(b)) => lemma_rebound_unique(acc, k, b),
            _ => {},
        }
    }
}

/// Every keyboard made from a configuration binds each key at most once and each
/// binding to at most one key, whatever the configuration holds.
pub proof fn configured_keyboard_is_unique(cfg: Seq<(Seq<char>, Seq<char>)>)
    ensures
        bindings_unique(default_entries()),
        bindings_unique(configured(default_entries(), cfg)),
{
    lemma_default_unique();
    lemma_configured_unique(default_entries(), cfg);
}

/// After a key is bound, it types its new binding, and the keyboard still binds
/// each key at most once and each binding to at most one key.
pub proof fn rebinding_sets_the_key(es: Seq<(char, (int, Seq<char>, int))>, key: char, b: (int, Seq<char>, int))
    requires
        bindings_unique(es),
    ensures
        lookup(rebound(es, key, b), key) == Some(b),
        bindings_unique(rebound(es, key, b)),
{
    lemma_rebound_unique(es, key, b);
}

/// Rebinding keeps every key and every binding unique.
pub proof fn lemma_rebound_unique(es: Seq<(char, (int, Seq<char>, int))>, key: char, b: (int, Seq<char>, int))
    requires
        bindings_unique(es),
    ensures
        bindings_unique(rebound(es, key, b)),
        forall|e: (char, (int, Seq<char>, int))| #[trigger] rebound(es, key, b).contains(e) ==> e == (key, b) || (es.contains(e) && e.0 != key && e.1 != b),
        rebound(es, key, b).len() > 0,
        rebound(es, key, b).last() == (key, b),
    decreases es.len(),
{
    if es.len() > 0 {
        let d = es.drop_last();
        assert(bindings_unique(d)) by {
            assert forall|i: int, j: int| 0 <= i < j < d.len() implies (#[trigger] d[i]).0 != (#[trigger] d[j]).0 && d[i].1 != d[j].1 by {
                assert(d[i] == es[i] && d[j] == es[j]);
            }
        }
        lemma_rebound_unique(d, key, b);
        let r = rebound(d, key, b);
        let e = es.last();
        assert forall|x: (char, (int, Seq<char>, int))| #[trigger] d.contains(x) implies es.contains(x) by {
            let i = choose|i: int| 0 <= i < d.len() && d[i] == x;
            assert(es[i] == x);
        }
        if e.0 != key && e.1 != b {
            let t = r.drop_last();
            let n = r.push(e);
            let res = t.push(e).push((key, b));
            assert forall|x: (char, (int, Seq<char>, int))| #[trigger] t.contains(x) implies r.contains(x) by {
                let i = choose|i: int| 0 <= i < t.len() && t[i] == x;
                assert(r[i] == x);
            }
            assert forall|i: int| 0 <= i < t.len() implies (#[trigger] t[i]).0 != e.0 && t[i].1 != e.1 by {
                assert(r.contains(t[i])) by {
                    assert(r[i] == t[i]);
                }
                if t[i] != (key, b) {
                    assert(d.contains(t[i]));
                    let k = choose|k: int| 0 <= k < d.len() && d[k] == t[i];
                    assert(es[k] == t[i]);
                    assert(es[es.len() - 1] == e);
                } else {
                }
            }
            assert forall|i: int, j: int| 0 <= i < j < res.len() implies (#[trigger] res[i]).0 != (#[trigger] res[j]).0 && res[i].1 != res[j].1 by {
                if j < t.len() {
                    assert(res[i] == r[i] && res[j] == r[j]);
                } else if j == t.len() {
                    assert(res[j] == e);
                    assert(res[i] == t[i]);
                } else {
                    assert(res[j] == (key, b));
                    if i < t.len() {
                        assert(res[i] == r[i]);
                        assert(r[i] != r[r.len() - 1]);
                    } else {
                        assert(res[i] == e);
                    }
                }
            }
            assert forall|x: (char, (int, Seq<char>, int))| #[trigger] res.contains(x) implies x == (key, b) || (es.contains(x) && x.0 != key && x.1 != b) by {
                let i = choose|i: int| 0 <= i < res.len() && res[i] == x;
                if i < t.len() {
                    assert(r.contains(x)) by {
                        assert(r[i] == x);
                    }
                } else if i == t.len() {
                    assert(es[es.len() - 1] == x);
                }
            }
        }
    }
}


/// The configured keys as plain values.
pub open spec fn config_keys(keys: Seq<(String, String)>) -> Seq<(Seq<char>, Seq<char>)> {
    keys.map_values(|e: (String, String)| (e.0@, e.1@))
}

/// The bindings after applying the configured keys in order: each entry whose key
/// is one character and whose value is a binding rebinds that key.
pub open spec fn configured(es: Seq<(char, (int, Seq<char>, int))>, cfg: Seq<(Seq<char>, Seq<char>)>) -> Seq<(char, (int, Seq<char>, int))>
    decreases cfg.len(),
{
    if cfg.len() == 0 {
        es
    } else {
        let acc = configured(es, cfg.drop_last());
        match (spec_single_char(cfg.last().0), spec_note_binding(cfg.last().1)) {
            (Some(k), Some(b)) => rebound(acc, k, b),
            _ => acc,
        }
    }
}

/// A configured octave key, else the default.
pub open spec fn octave_key(value: Option<String>, default: char) -> char {
    match value {
        Some(v) => match spec_single_char(v@) {
            Some(k) => k,
            None => default,
        },
        None => default,
    }
}

/// The keyboard's octave: the configured one (4 when none), within `0..=7`.
pub open spec fn configured_octave(base: Option<i32>) -> int {
    let o = match base {
        Some(b) => b as int,
        None => 4,
    };
    if o < 0 {
        0
    } else if o > 7 {
        7
    } else {
        o
    }
}

impl NoteKeyboard {
    /// The keyboard and octave that a configuration gives.
    pub fn from_config(config: &NoteKeyboardConfig) -> (r: (NoteKeyboard, i32))
        ensures
            r.0.entries() == configured(default_entries(), config_keys(config.keys@)),
            r.0.octave_down == octave_key(config.octave_down, 'z'),
            r.0.octave_up == octave_key(config.octave_up, 'x'),
            r.1 as int == configured_octave(config.base_octave),
    {
        let mut keyboard = NoteKeyboard::default_keyboard();
        match &config.octave_down {
            Some(v) => match single_char_key(v.as_str()) {
                Some(k) => {
                    keyboard.octave_down = k;
                },
                None => {},
            },
            None => {},
        }
        match &config.octave_up {
            Some(v) => match single_char_key(v.as_str()) {
                Some(k) => {
                    keyboard.octave_up = k;
                },
                None => {},
            },
            None => {},
        }
        let ghost cfg = config_keys(config.keys@);
        let mut i: usize = 0;
        while i < config.keys.len()
            invariant
                i <= config.keys@.len(),
                cfg == config_keys(config.keys@),
                keyboard.entries() == configured(default_entries(), cfg.take(i as int)),
                keyboard.octave_down == octave_key(config.octave_down, 'z'),
                keyboard.octave_up == octave_key(config.octave_up, 'x'),
            decreases config.keys@.len() - i,
        {
            proof {
                assert(cfg.take(i + 1).drop_last() =~= cfg.take(i as int));
                assert(cfg.take(i + 1).last() == cfg[i as int]);
            }
            let (k, v) = &config.keys[i];
            match single_char_key(k.as_str()) {
                Some(c) => match parse_note_binding(v.as_str()) {
                    Some(b) => {
                        keyboard.set_binding(c, b);
                    },
                    None => {},
                },
                None => {},
            }
            i += 1;
        }
        assert(cfg.take(config.keys@.len() as int) =~= cfg);
        let o = match config.base_octave {
            Some(b) => b,
            None => DEFAULT_KEYBOARD_OCTAVE,
        };
        let octave = if o < MIN_KEYBOARD_OCTAVE {
            MIN_KEYBOARD_OCTAVE
        } else if o > MAX_KEYBOARD_OCTAVE {
            MAX_KEYBOARD_OCTAVE
        } else {
            o
        };
        (keyboard, octave)
    }

    /// The key bound to the binding `(kind, name, offset)`.
    fn find_binding_key(&self, target: &NoteKeyBinding) -> (r: Option<char>)
        ensures
            r == key_of(self.entries(), binding_view(*target)),
    {
        let ghost es = self.entries();
        let mut i: usize = 0;
        assert(es.take(0) =~= Seq::<(char, (int, Seq<char>, int))>::empty());
        while i < self.keys.len()
            invariant
                i <= self.keys@.len(),
                es == self.entries(),
                key_of(es.take(i as int), binding_view(*target)) is None,
            decreases self.keys@.len() - i,
        {
            proof {
                assert(es.take(i + 1).drop_last() =~= es.take(i as int));
                assert(es.take(i + 1).last() == es[i as int]);
            }
            if self.keys[i].1.same_as(target) {
                proof {
                    lemma_key_of_prefix(es, i as int + 1, binding_view(*target));
                }
                return Some(self.keys[i].0);
            }
            i += 1;
        }
        assert(es.take(self.keys@.len() as int) =~= es);
        None
    }

    /// The on-screen keyboard: the key of each pitch of the layout that has one,
    /// the rest and sustain keys (`.` and `-` when unbound), and the octave keys.
    pub fn visual_layout(&self) -> (r: KeyboardVisualLayout)
        ensures
            visual_keys_view(r.pitch_keys@) == visual_keys(self.entries(), 17),
            r.rest_key == match key_of(self.entries(), (1, seq![], 0)) {
                Some(k) => k,
                None => '.',
            },
            r.sustain_key == match key_of(self.entries(), (2, seq![], 0)) {
                Some(k) => k,
                None => '-',
            },
            r.octave_down_key == self.octave_down,
            r.octave_up_key == self.octave_up,
    {
        let mut keys: Vec<KeyboardVisualKey> = Vec::new();
        let mut i: usize = 0;
        while i < 17
            invariant
                i <= 17,
                visual_keys_view(keys@) == visual_keys(self.entries(), i as int),
            decreases 17 - i,
        {
            let (name, offset, black) = layout_entry(i);
            let target = NoteKeyBinding::Pitch { name: crate::text::owned(name), octave_offset: offset };
            let ghost kk = keys@;
            let ghost k0 = visual_keys_view(keys@);
            match self.find_binding_key(&target) {
                Some(k) => {
                    let vk = KeyboardVisualKey { physical_key: k, note_name: name, octave_offset: offset, is_black: black };
                    let ghost gv = vk;
                    keys.push(vk);
                    assert(keys@ =~= kk.push(gv));
                    assert(visual_key_view(gv) == (k, name@, offset as int, black));
                    proof { lemma_visual_keys_push(kk, gv); }
                    assert(visual_keys_view(keys@) =~= k0.push((k, name@, offset as int, black)));
                },
                None => {},
            }
            i += 1;
        }
        let rest = match self.find_binding_key(&NoteKeyBinding::Rest) {
            Some(k) => k,
            None => '.',
        };
        let sustain = match self.find_binding_key(&NoteKeyBinding::Sustain) {
            Some(k) => k,
            None => '-',
        };
        KeyboardVisualLayout {
            pitch_keys: keys,
            rest_key: rest,
            sustain_key: sustain,
            octave_down_key: self.octave_down,
            octave_up_key: self.octave_up,
        }
    }
}

proof fn lemma_key_of_prefix(es: Seq<(char, (int, Seq<char>, int))>, n: int, b: (int, Seq<char>, int))
    requires
        1 <= n <= es.len(),
        key_of(es.take(n - 1), b) is None,
        es[n - 1].1 == b,
    ensures
        key_of(es, b) == Some(es[n - 1].0),
    decreases es.len() - n,
{
    assert(es.take(n).drop_last() =~= es.take(n - 1));
    assert(key_of(es.take(n), b) == Some(es[n - 1].0));
    if n < es.len() {
        lemma_key_of_extend(es, n, b);
    } else {
        assert(es.take(n) =~= es);
    }
}

proof fn lemma_key_of_extend(es: Seq<(char, (int, Seq<char>, int))>, n: int, b: (int, Seq<char>, int))
    requires
        0 <= n <= es.len(),
        key_of(es.take(n), b) is Some,
    ensures
        key_of(es, b) == key_of(es.take(n), b),
    decreases es.len() - n,
{
    if n < es.len() {
        assert(es.take(n + 1).drop_last() =~= es.take(n));
        lemma_key_of_extend(es, n + 1, b);
    } else {
        assert(es.take(n) =~= es);
    }
}

/// A key of the on-screen keyboard: the key, the note name and octave offset it
/// types, and whether it is a black key.
#[derive(Debug)]
pub struct KeyboardVisualKey {
    pub physical_key: char,
    pub note_name: &'static str,
    pub octave_offset: i32,
    pub is_black: bool,
}

/// The on-screen keyboard.
#[derive(Debug)]
pub struct KeyboardVisualLayout {
    pub pitch_keys: Vec<KeyboardVisualKey>,
    pub rest_key: char,
    pub sustain_key: char,
    pub octave_down_key: char,
    pub octave_up_key: char,
}

/// One key of the on-screen keyboard as plain values.
pub open spec fn visual_key_view(k: KeyboardVisualKey) -> (char, Seq<char>, int, bool) {
    (k.physical_key, k.note_name@, k.octave_offset as int, k.is_black)
}

proof fn lemma_visual_keys_push(ks: Seq<KeyboardVisualKey>, k: KeyboardVisualKey)
    ensures
        visual_keys_view(ks.push(k)) == visual_keys_view(ks).push(visual_key_view(k)),
{
    assert(visual_keys_view(ks.push(k)) =~= visual_keys_view(ks).push(visual_key_view(k)));
}

/// The keys of the on-screen keyboard as plain values.
pub open spec fn visual_keys_view(ks: Seq<KeyboardVisualKey>) -> Seq<(char, Seq<char>, int, bool)> {
    Seq::new(ks.len(), |i: int| visual_key_view(ks[i]))
}

/// The pitches of the on-screen keyboard, from `C` to the `E` an octave up.
pub open spec fn layout() -> Seq<(Seq<char>, int, bool)> {
    seq![
        ("C"@, 0, false),
        ("C#"@, 0, true),
        ("D"@, 0, false),
        ("D#"@, 0, true),
        ("E"@, 0, false),
        ("F"@, 0, false),
        ("F#"@, 0, true),
        ("G"@, 0, false),
        ("G#"@, 0, true),
        ("A"@, 0, false),
        ("A#"@, 0, true),
        ("B"@, 0, false),
        ("C"@, 1, false),
        ("C#"@, 1, true),
        ("D"@, 1, false),
        ("D#"@, 1, true),
        ("E"@, 1, false)
    ]
}

/// The bound keys among the first `n` pitches of the layout.
pub open spec fn visual_keys(es: Seq<(char, (int, Seq<char>, int))>, n: int) -> Seq<(char, Seq<char>, int, bool)>
    decreases n,
{
    if n <= 0 {
        seq![]
    } else {
        let r = visual_keys(es, n - 1);
        let p = layout()[n - 1];
        match key_of(es, (0, p.0, p.1)) {
            Some(k) => r.push((k, p.0, p.1, p.2)),
            None => r,
        }
    }
}

fn layout_entry(i: usize) -> (r: (&'static str, i32, bool))
    requires
        i < 17,
    ensures
        (r.0@, r.1 as int, r.2) == layout()[i as int],
{
    match i {
        0 => ("C", 0, false),
        1 => ("C#", 0, true),
        2 => ("D", 0, false),
        3 => ("D#", 0, true),
        4 => ("E", 0, false),
        5 => ("F", 0, false),
        6 => ("F#", 0, true),
        7 => ("G", 0, false),
        8 => ("G#", 0, true),
        9 => ("A", 0, false),
        10 => ("A#", 0, true),
        11 => ("B", 0, false),
        12 => ("C", 1, false),
        13 => ("C#", 1, true),
        14 => ("D", 1, false),
        15 => ("D#", 1, true),
        _ => ("E", 1, false),
    }
}

/// The keyboard's octave moved by `delta`, within `0..=7`.
pub fn adjusted_keyboard_octave(octave: i32, delta: i32) -> (r: i32)
    requires
        i32::MIN <= octave + delta <= i32::MAX,
    ensures
        r == (if octave + delta < 0 {
            0
        } else if octave + delta > 7 {
            7
        } else {
            octave + delta
        }),
{
    let o = octave + delta;
    if o < MIN_KEYBOARD_OCTAVE {
        MIN_KEYBOARD_OCTAVE
    } else if o > MAX_KEYBOARD_OCTAVE {
        MAX_KEYBOARD_OCTAVE
    } else {
        o
    }
}

// ---------------------------------------------------------------------------
// Track programs
// ---------------------------------------------------------------------------

/// A program line: an initialisation line of kind `pc` or `sound`.
pub open spec fn spec_is_program_line(l: Seq<char>) -> bool {
    spec_init_label(l) == Some(TrackInitLabel::Pc) || spec_init_label(l) == Some(TrackInitLabel::Sound)
}

/// Whether `line` sets the track's program.
pub fn is_program_init_line(line: &str) -> (b: bool)
    ensures
        b == spec_is_program_line(line@),
{
    let l = track_init_label_of_line(line);
    l == Some(TrackInitLabel::Pc) || l == Some(TrackInitLabel::Sound)
}

/// A line that ends a track's body: the next track header or a template header.
pub open spec fn ends_track(l: Seq<char>) -> bool {
    spec_track_header(l) is Some || is_prefix("# @"@, trim(l))
}

/// The first row after `h` that ends the track (the end of the score when none).
pub open spec fn track_end_from(ls: Seq<Seq<char>>, from: int) -> int
    decreases ls.len() - from,
{
    if from >= ls.len() || from < 0 {
        ls.len() as int
    } else if ends_track(ls[from]) {
        from
    } else {
        track_end_from(ls, from + 1)
    }
}

/// The first program line among rows `from..end`.
pub open spec fn program_row(ls: Seq<Seq<char>>, from: int, end: int) -> Option<int>
    decreases end - from,
{
    if from >= end || from < 0 || from >= ls.len() {
        None
    } else if spec_is_program_line(ls[from]) {
        Some(from)
    } else {
        program_row(ls, from + 1, end)
    }
}

/// Setting the program of the track whose header is at row `h`: the lines after
/// and the row of its `## pc` line — its first program line, rewritten, else a
/// new line right below the header. `None` when row `h` is no track header.
pub open spec fn program_applied(ls: Seq<Seq<char>>, h: int, program: u8) -> Option<(Seq<Seq<char>>, int)> {
    if !(0 <= h < ls.len()) || spec_track_header(ls[h]) is None {
        None
    } else {
        let line = "## pc "@ + decimal(program as nat);
        match program_row(ls, h + 1, track_end_from(ls, h + 1)) {
            Some(r) => Some((ls.update(r, line), r)),
            None => Some((ls.insert(h + 1, line), h + 1)),
        }
    }
}

fn ends_track_at(lines: &Vec<String>, i: usize) -> (b: bool)
    requires
        i < lines@.len(),
    ensures
        b == ends_track(string_views(lines@)[i as int]),
{
    assert(string_views(lines@)[i as int] == lines@[i as int]@);
    parse_track_header(lines[i].as_str()).is_some() || starts_with(&trimmed(&chars_of(lines[i].as_str())), &chars_of("# @"))
}

fn program_at(lines: &Vec<String>, i: usize) -> (b: bool)
    requires
        i < lines@.len(),
    ensures
        b == spec_is_program_line(string_views(lines@)[i as int]),
{
    assert(string_views(lines@)[i as int] == lines@[i as int]@);
    is_program_init_line(lines[i].as_str())
}

/// Sets the program of the track whose header is at `track_header_row`.
pub fn apply_track_program_to_lines(lines: &mut Vec<String>, track_header_row: usize, program: u8) -> (r: Option<usize>)
    ensures
        match program_applied(string_views(old(lines)@), track_header_row as int, program) {
            Some((t, row)) => r == Some(row as usize) && string_views(final(lines)@) == t,
            None => r is None && final(lines)@ == old(lines)@,
        },
{
    let ghost ls = string_views(lines@);
    if track_header_row >= lines.len() {
        return None;
    }
    assert(ls[track_header_row as int] == lines@[track_header_row as int]@);
    if parse_track_header(lines[track_header_row].as_str()).is_none() {
        return None;
    }
    let mut text = chars_of("## pc ");
    crate::text::append(&mut text, &decimal_chars(program as u64));
    let replacement = string_of(&text);
    let from = track_header_row + 1;
    let mut end = from;
    while end < lines.len() && !ends_track_at(lines, end)
        invariant
            from <= end,
            end <= lines@.len() || end == from,
            from == track_header_row + 1,
            track_header_row < lines@.len(),
            ls == string_views(lines@),
            track_end_from(ls, from as int) == track_end_from(ls, end as int),
        decreases lines@.len() - end,
    {
        end += 1;
    }
    let mut row = from;
    while row < end && !program_at(lines, row)
        invariant
            from <= row,
            row <= end || row == from,
            end == track_end_from(ls, from as int),
            end <= lines@.len(),
            ls == string_views(lines@),
            program_row(ls, from as int, end as int) == program_row(ls, row as int, end as int),
        decreases end - row,
    {
        row += 1;
    }
    if row < end {
        let ghost l0 = lines@;
        lines.set(row, replacement);
        assert(string_views(lines@) =~= ls.update(row as int, text@));
        Some(row)
    } else {
        let ghost l0 = lines@;
        lines.insert(from, replacement);
        assert(string_views(lines@) =~= ls.insert(from as int, text@));
        Some(from)
    }
}

/// The character that a key press types in the preview: that of a character key
/// (with or without shift, in lower case) or of a symbol key.
pub fn preview_key_char(key: &KeyEvent) -> (r: Option<char>)
    ensures
        r == match spec_stroke(*key) {
            KeyStroke::Char(c) | KeyStroke::ShiftChar(c) | KeyStroke::Symbol(c) => Some(c),
            _ => None,
        },
{
    match normalized_key_stroke(key) {
        Some(KeyStroke::Char(ch)) | Some(KeyStroke::ShiftChar(ch)) | Some(KeyStroke::Symbol(ch)) => Some(ch),
        _ => None,
    }
}

/// A key press that moves the keyboard's octave.
#[derive(Clone, Copy, Debug, PartialEq, Eq, Structural)]
pub enum NoteKeyboardAction {
    OctaveDown,
    OctaveUp,
}

/// The octave move of a key press: a character key that is the keyboard's
/// octave-down or octave-up key.
pub fn note_keyboard_action(keyboard: &NoteKeyboard, key: &KeyEvent) -> (r: Option<NoteKeyboardAction>)
    ensures
        r == match spec_stroke(*key) {
            KeyStroke::Char(c) | KeyStroke::ShiftChar(c) => if to_lower(c) == to_lower(keyboard.octave_down) {
                Some(NoteKeyboardAction::OctaveDown)
            } else if to_lower(c) == to_lower(keyboard.octave_up) {
                Some(NoteKeyboardAction::OctaveUp)
            } else {
                None
            },
            _ => None,
        },
{
    match normalized_key_stroke(key) {
        Some(KeyStroke::Char(ch)) | Some(KeyStroke::ShiftChar(ch)) => {
            if keyboard.is_octave_down(ch) {
                Some(NoteKeyboardAction::OctaveDown)
            } else if keyboard.is_octave_up(ch) {
                Some(NoteKeyboardAction::OctaveUp)
            } else {
                None
            }
        },
        _ => None,
    }
}

/// The input of a key press in note entry: `Esc` cancels; a character or symbol
/// key types its token, if it has one; other keys are unknown.
pub fn note_key_input_for_key(keyboard: &NoteKeyboard, octave: i32, key: KeyEvent) -> (r: NoteKeyInput)
    requires
        forall|k: char| #[trigger] lookup(keyboard.entries(), k) matches Some(b) ==> i32::MIN <= octave + b.2
            <= i32::MAX,
    ensures
        if spec_stroke(key) == KeyStroke::Code(KeyCode::Esc) {
            r is Cancel
        } else {
            match spec_stroke(key) {
                KeyStroke::Char(c) | KeyStroke::ShiftChar(c) | KeyStroke::Symbol(c) => match lookup(
                    keyboard.entries(),
                    to_lower(c),
                ) {
                    Some(b) => r matches NoteKeyInput::Token(t) && t@ == token_text(b, octave as int),
                    None => r is Unknown,
                },
                _ => r is Unknown,
            }
        },
{
    if key_stroke_matches(KeyStroke::Code(KeyCode::Esc), &key) {
        return NoteKeyInput::Cancel;
    }
    match normalized_key_stroke(&key) {
        Some(KeyStroke::Char(ch)) | Some(KeyStroke::ShiftChar(ch)) | Some(KeyStroke::Symbol(ch)) => {
            assert(lookup(keyboard.entries(), to_lower(ch)) matches Some(b) ==> i32::MIN <= octave + b.2
                <= i32::MAX);
            match keyboard.token(ch, octave) {
                Some(t) => NoteKeyInput::Token(t),
                None => NoteKeyInput::Unknown,
            }
        },
        _ => NoteKeyInput::Unknown,
    }
}

} // verus!
