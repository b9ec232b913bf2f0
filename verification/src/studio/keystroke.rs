//! Key presses and the strokes that key bindings are written in: a key press is
//! normalized (ASCII case, shifted symbols, modifiers) before it is matched.
use vstd::prelude::*;
use crate::text::{ascii_lowercase, to_lower};

verus! {

/// The key of a key press.
#[derive(Clone, Copy, Debug, PartialEq, Eq, Structural)]
pub enum KeyCode {
    Char(char),
    Esc,
    Enter,
    Backspace,
    Tab,
    BackTab,
    Left,
    Right,
    Up,
    Down,
    Home,
    End,
    PageUp,
    PageDown,
    Delete,
    Insert,
    F(u8),
    /// Any other key.
    Other,
}

/// The modifier keys held during a key press.
#[derive(Clone, Copy, Debug, PartialEq, Eq, Structural)]
pub struct KeyModifiers {
    pub shift: bool,
    pub control: bool,
    pub alt: bool,
}

impl KeyModifiers {
    /// No modifier.
    pub fn none() -> (r: KeyModifiers)
        ensures
            !r.shift && !r.control && !r.alt,
    {
        KeyModifiers { shift: false, control: false, alt: false }
    }

    /// Shift alone.
    pub fn shift() -> (r: KeyModifiers)
        ensures
            r.shift && !r.control && !r.alt,
    {
        KeyModifiers { shift: true, control: false, alt: false }
    }

    /// Control alone.
    pub fn control() -> (r: KeyModifiers)
        ensures
            !r.shift && r.control && !r.alt,
    {
        KeyModifiers { shift: false, control: true, alt: false }
    }
}

/// A key press.
#[derive(Clone, Copy, Debug, PartialEq, Eq, Structural)]
pub struct KeyEvent {
    pub code: KeyCode,
    pub modifiers: KeyModifiers,
}

impl KeyEvent {
    pub fn new(code: KeyCode, modifiers: KeyModifiers) -> (r: KeyEvent)
        ensures
            r.code == code,
            r.modifiers == modifiers,
    {
        KeyEvent { code, modifiers }
    }
}

/// A normalized key press, as key bindings are written.
#[derive(Clone, Copy, Debug, PartialEq, Eq, Structural)]
pub enum KeyStroke {
    /// A lower-case character.
    Char(char),
    /// A punctuation symbol, with shifted keys read as the symbol they type.
    Symbol(char),
    /// A character typed with shift, or an upper-case one.
    ShiftChar(char),
    /// A character typed with control.
    CtrlChar(char),
    Code(KeyCode),
    ShiftCode(KeyCode),
}

/// A key binding: a stroke and what it does.
#[derive(Clone, Copy, Debug)]
pub struct KeyBinding<T> {
    pub stroke: KeyStroke,
    pub action: T,
}

/// The symbol that `code` types (with `shift` held or not), if it is one that
/// bindings name: a shifted `/ ; , . [ ] =` reads as `? : < > { } +`, those
/// symbols read as themselves, and the unshifted `. - , [ ] =` stay as they are.
pub open spec fn spec_symbol(code: char, shift: bool) -> Option<char> {
    if (code == '/' && shift) || code == '?' {
        Some('?')
    } else if (code == ';' && shift) || code == ':' {
        Some(':')
    } else if (code == ',' && shift) || code == '<' {
        Some('<')
    } else if (code == '.' && shift) || code == '>' {
        Some('>')
    } else if (code == '[' && shift) || code == '{' {
        Some('{')
    } else if (code == ']' && shift) || code == '}' {
        Some('}')
    } else if (code == '=' && shift) || code == '+' {
        Some('+')
    } else if !shift && (code == '.' || code == '-' || code == ',' || code == '[' || code == ']'
        || code == '=') {
        Some(code)
    } else {
        None
    }
}

pub fn normalize_symbol(code: char, modifiers: KeyModifiers) -> (r: Option<char>)
    ensures
        r == spec_symbol(code, modifiers.shift),
{
    let shift = modifiers.shift;
    if (code == '/' && shift) || code == '?' {
        Some('?')
    } else if (code == ';' && shift) || code == ':' {
        Some(':')
    } else if (code == ',' && shift) || code == '<' {
        Some('<')
    } else if (code == '.' && shift) || code == '>' {
        Some('>')
    } else if (code == '[' && shift) || code == '{' {
        Some('{')
    } else if (code == ']' && shift) || code == '}' {
        Some('}')
    } else if (code == '=' && shift) || code == '+' {
        Some('+')
    } else if !shift && (code == '.' || code == '-' || code == ',' || code == '[' || code == ']'
        || code == '=') {
        Some(code)
    } else {
        None
    }
}

/// The stroke of a key press: a character with control is a control stroke (in
/// lower case); other characters are symbols, else shifted (with shift held or in
/// upper case) or plain characters, in lower case; other keys keep their code,
/// shifted or not.
pub open spec fn spec_stroke(key: KeyEvent) -> KeyStroke {
    match key.code {
        KeyCode::Char(c) => if key.modifiers.control {
            KeyStroke::CtrlChar(to_lower(c))
        } else {
            match spec_symbol(c, key.modifiers.shift) {
                Some(s) => KeyStroke::Symbol(s),
                None => if ('A' <= c && c <= 'Z') || key.modifiers.shift {
                    KeyStroke::ShiftChar(to_lower(c))
                } else {
                    KeyStroke::Char(to_lower(c))
                },
            }
        },
        code => if key.modifiers.shift {
            KeyStroke::ShiftCode(code)
        } else {
            KeyStroke::Code(code)
        },
    }
}

/// The stroke of a key press (every key press has one).
pub fn normalized_key_stroke(key: &KeyEvent) -> (r: Option<KeyStroke>)
    ensures
        r == Some(spec_stroke(*key)),
{
    match key.code {
        KeyCode::Char(c) => if key.modifiers.control {
            Some(KeyStroke::CtrlChar(ascii_lowercase(c)))
        } else {
            match normalize_symbol(c, key.modifiers) {
                Some(s) => Some(KeyStroke::Symbol(s)),
                None => if ('A' <= c && c <= 'Z') || key.modifiers.shift {
                    Some(KeyStroke::ShiftChar(ascii_lowercase(c)))
                } else {
                    Some(KeyStroke::Char(ascii_lowercase(c)))
                },
            }
        },
        code => if key.modifiers.shift {
            Some(KeyStroke::ShiftCode(code))
        } else {
            Some(KeyStroke::Code(code))
        },
    }
}

/// Whether a key press is the stroke `stroke`.
pub fn key_stroke_matches(stroke: KeyStroke, key: &KeyEvent) -> (b: bool)
    ensures
        b == (spec_stroke(*key) == stroke),
{
    match normalized_key_stroke(key) {
        Some(s) => s == stroke,
        None => false,
    }
}

/// The first binding among `bs` whose stroke a key press with stroke `s` is.
pub open spec fn first_binding<T>(bs: Seq<KeyBinding<T>>, s: KeyStroke) -> Option<int>
    decreases bs.len(),
{
    if bs.len() == 0 {
        None
    } else {
        match first_binding(bs.drop_last(), s) {
            Some(i) => Some(i),
            None => if bs.last().stroke == s {
                Some(bs.len() - 1)
            } else {
                None
            },
        }
    }
}

/// What the first binding that a key press matches does.
pub fn lookup_key_action<T: Copy>(bindings: &[KeyBinding<T>], key: &KeyEvent) -> (r: Option<T>)
    ensures
        match first_binding(bindings@, spec_stroke(*key)) {
            Some(i) => r == Some(bindings@[i].action),
            None => r is None,
        },
{
    let ghost s = spec_stroke(*key);
    let mut i: usize = 0;
    while i < bindings.len()
        invariant
            i <= bindings@.len(),
            s == spec_stroke(*key),
            first_binding(bindings@.take(i as int), s) is None,
        decreases bindings@.len() - i,
    {
        let ghost t = bindings@.take(i + 1);
        assert(t.drop_last() =~= bindings@.take(i as int));
        if key_stroke_matches(bindings[i].stroke, key) {
            assert(first_binding(t, s) == Some(i as int));
            proof {
                lemma_first_binding_extend(bindings@, i + 1, s);
            }
            return Some(bindings[i].action);
        }
        i += 1;
    }
    assert(bindings@.take(bindings@.len() as int) =~= bindings@);
    None
}

proof fn lemma_first_binding_extend<T>(bs: Seq<KeyBinding<T>>, n: int, s: KeyStroke)
    requires
        0 <= n <= bs.len(),
        first_binding(bs.take(n), s) is Some,
    ensures
        first_binding(bs, s) == first_binding(bs.take(n), s),
    decreases bs.len() - n,
{
    if n < bs.len() {
        assert(bs.take(n + 1).drop_last() =~= bs.take(n));
        lemma_first_binding_extend(bs, n + 1, s);
    } else {
        assert(bs.take(n) =~= bs);
    }
}

} // verus!
