//! The key sequences that wait for a second key (add, goto, delete, note entry,
//! ...): what they prompt and what they answer to a cancel or an unknown key.
use vstd::prelude::*;
use crate::text::{append, chars_of, signed_decimal, signed_decimal_chars, string_of};

verus! {

pub const ADD_HELP: &'static str = "Add\n  s seq  l lane  t track  h separator  T template  b bar\n  d drums  v velocity  p pitch  i init  m macro  n note  . rest  - sustain";
pub const GOTO_HELP: &'static str = "Goto: t next track | T previous track | d template definition | Esc cancel";
pub const DELETE_HELP: &'static str = "Delete\n  s seq  l lane  t track  h separator  T template  b bar\n  v velocity  p pitch  i init  m macro";
pub const NOTE_HELP: &'static str = "Note: keyboard piano key | . rest | - sustain | z/x octave | Esc cancel";
pub const CONTINUOUS_NOTE_HELP: &'static str = "Note*: keyboard piano key | Space skip | . rest | - sustain | z/x octave | Tab subdivide | S-Tab shrink | Backspace undo | Esc cancel";
pub const PREVIEW_NOTE_HELP: &'static str = "Preview: keyboard piano key | . rest | - sustain | z/x octave | Esc cancel";
pub const ONSET_HELP: &'static str = "Onset: x note-on | . rest | - sustain | t toggle | Esc cancel";
pub const CONTINUOUS_ONSET_HELP: &'static str = "Onset*: x note-on | Space skip | . rest | - sustain | t toggle | Tab subdivide | S-Tab shrink | Backspace undo | Esc cancel";
pub const TEMPLATE_MACRO_HELP: &'static str = "Template macro: a arp | r rev | s strum | Esc cancel";
pub const TRACK_INIT_ADD_HELP: &'static str = "Init add\n  p pc  b bank  c cc  n pan\n  v volume  e expression  m mod  s sustain";
pub const TRACK_INIT_DELETE_HELP: &'static str = "Init delete\n  p pc  b bank  c cc  n pan\n  v volume  e expression  m mod  s sustain";

/// Whether note or onset entry stops after one key or goes on.
#[derive(Clone, Copy, Debug, PartialEq, Eq, Structural)]
pub enum NoteInputMode {
    Single,
    Continuous,
}

/// The key sequence that waits for its second key.
#[derive(Clone, Copy, Debug, PartialEq, Eq, Structural)]
pub enum PendingInput {
    Add,
    Goto,
    DeleteStructure,
    TemplateMacro,
    TrackInitAdd,
    TrackInitDelete,
    PreviewNote,
    Note(NoteInputMode),
    Onset(NoteInputMode),
}

impl PendingInput {
    pub open spec fn spec_help_text(self) -> Seq<char> {
        match self {
            PendingInput::Add => ADD_HELP@,
            PendingInput::Goto => GOTO_HELP@,
            PendingInput::DeleteStructure => DELETE_HELP@,
            PendingInput::TemplateMacro => TEMPLATE_MACRO_HELP@,
            PendingInput::TrackInitAdd => TRACK_INIT_ADD_HELP@,
            PendingInput::TrackInitDelete => TRACK_INIT_DELETE_HELP@,
            PendingInput::PreviewNote => PREVIEW_NOTE_HELP@,
            PendingInput::Note(NoteInputMode::Single) => NOTE_HELP@,
            PendingInput::Note(NoteInputMode::Continuous) => CONTINUOUS_NOTE_HELP@,
            PendingInput::Onset(NoteInputMode::Single) => ONSET_HELP@,
            PendingInput::Onset(NoteInputMode::Continuous) => CONTINUOUS_ONSET_HELP@,
        }
    }

    /// The keys that the sequence takes next.
    pub fn help_text(self) -> (r: &'static str)
        ensures
            r@ == self.spec_help_text(),
    {
        match self {
            PendingInput::Add => ADD_HELP,
            PendingInput::Goto => GOTO_HELP,
            PendingInput::DeleteStructure => DELETE_HELP,
            PendingInput::TemplateMacro => TEMPLATE_MACRO_HELP,
            PendingInput::TrackInitAdd => TRACK_INIT_ADD_HELP,
            PendingInput::TrackInitDelete => TRACK_INIT_DELETE_HELP,
            PendingInput::PreviewNote => PREVIEW_NOTE_HELP,
            PendingInput::Note(NoteInputMode::Single) => NOTE_HELP,
            PendingInput::Note(NoteInputMode::Continuous) => CONTINUOUS_NOTE_HELP,
            PendingInput::Onset(NoteInputMode::Single) => ONSET_HELP,
            PendingInput::Onset(NoteInputMode::Continuous) => CONTINUOUS_ONSET_HELP,
        }
    }

    /// The prompt of the sequence: its help, and the keyboard's octave for the
    /// sequences that type pitches.
    pub fn prompt(self, note_keyboard_octave: i32) -> (r: String)
        ensures
            r@ == match self {
                PendingInput::PreviewNote | PendingInput::Note(_) => self.spec_help_text() + " | octave "@
                    + signed_decimal(note_keyboard_octave as int),
                _ => self.spec_help_text(),
            },
    {
        match self {
            PendingInput::PreviewNote | PendingInput::Note(_) => {
                let mut v = chars_of(self.help_text());
                append(&mut v, &chars_of(" | octave "));
                append(&mut v, &signed_decimal_chars(note_keyboard_octave as i64));
                string_of(&v)
            },
            _ => string_of(&chars_of(self.help_text())),
        }
    }

    pub open spec fn spec_cancel_message(self) -> Seq<char> {
        match self {
            PendingInput::Add => "Add cancelled"@,
            PendingInput::Goto => "Goto cancelled"@,
            PendingInput::DeleteStructure => "Delete cancelled"@,
            PendingInput::TemplateMacro => "Template macro cancelled"@,
            PendingInput::TrackInitAdd => "Track init add cancelled"@,
            PendingInput::TrackInitDelete => "Track init delete cancelled"@,
            PendingInput::PreviewNote => "Preview cancelled"@,
            PendingInput::Note(NoteInputMode::Single) => "Note entry cancelled"@,
            PendingInput::Note(NoteInputMode::Continuous) => "Continuous note entry cancelled"@,
            PendingInput::Onset(NoteInputMode::Single) => "Onset edit cancelled"@,
            PendingInput::Onset(NoteInputMode::Continuous) => "Continuous onset edit cancelled"@,
        }
    }

    /// What the status line says when the sequence is cancelled.
    pub fn cancel_message(self) -> (r: &'static str)
        ensures
            r@ == self.spec_cancel_message(),
    {
        match self {
            PendingInput::Add => "Add cancelled",
            PendingInput::Goto => "Goto cancelled",
            PendingInput::DeleteStructure => "Delete cancelled",
            PendingInput::TemplateMacro => "Template macro cancelled",
            PendingInput::TrackInitAdd => "Track init add cancelled",
            PendingInput::TrackInitDelete => "Track init delete cancelled",
            PendingInput::PreviewNote => "Preview cancelled",
            PendingInput::Note(NoteInputMode::Single) => "Note entry cancelled",
            PendingInput::Note(NoteInputMode::Continuous) => "Continuous note entry cancelled",
            PendingInput::Onset(NoteInputMode::Single) => "Onset edit cancelled",
            PendingInput::Onset(NoteInputMode::Continuous) => "Continuous onset edit cancelled",
        }
    }

    pub open spec fn spec_unknown_label(self) -> Seq<char> {
        match self {
            PendingInput::Add => "add command"@,
            PendingInput::Goto => "goto command"@,
            PendingInput::DeleteStructure => "delete command"@,
            PendingInput::TemplateMacro => "template macro command"@,
            PendingInput::TrackInitAdd => "track init add command"@,
            PendingInput::TrackInitDelete => "track init delete command"@,
            PendingInput::PreviewNote => "preview key"@,
            PendingInput::Note(_) => "note key"@,
            PendingInput::Onset(_) => "onset command"@,
        }
    }

    pub open spec fn spec_unknown_message(self) -> Seq<char> {
        "Unknown "@ + self.spec_unknown_label() + ". "@ + self.spec_help_text()
    }

    /// What the status line says when the second key is not one the sequence takes.
    pub fn unknown_message(self) -> (r: String)
        ensures
            r@ == self.spec_unknown_message(),
    {
        let label = match self {
            PendingInput::Add => "add command",
            PendingInput::Goto => "goto command",
            PendingInput::DeleteStructure => "delete command",
            PendingInput::TemplateMacro => "template macro command",
            PendingInput::TrackInitAdd => "track init add command",
            PendingInput::TrackInitDelete => "track init delete command",
            PendingInput::PreviewNote => "preview key",
            PendingInput::Note(_) => "note key",
            PendingInput::Onset(_) => "onset command",
        };
        let mut v = chars_of("Unknown ");
        append(&mut v, &chars_of(label));
        append(&mut v, &chars_of(". "));
        append(&mut v, &chars_of(self.help_text()));
        string_of(&v)
    }

    /// Whether the sequence goes on after each key.
    pub fn is_continuous(self) -> (b: bool)
        ensures
            b == (self == PendingInput::Note(NoteInputMode::Continuous) || self == PendingInput::Onset(
                NoteInputMode::Continuous,
            )),
    {
        match self {
            PendingInput::Note(NoteInputMode::Continuous) | PendingInput::Onset(NoteInputMode::Continuous) => true,
            _ => false,
        }
    }
}

/// The key sequence under way, if any.
pub struct StudioInputState {
    pub pending: Option<PendingInput>,
}

impl StudioInputState {
    /// No sequence under way.
    pub fn new() -> (r: StudioInputState)
        ensures
            r.pending is None,
    {
        StudioInputState { pending: None }
    }

    /// Starts a sequence.
    pub fn begin(&mut self, pending: PendingInput)
        ensures
            final(self).pending == Some(pending),
    {
        self.pending = Some(pending);
    }

    /// Ends the sequence under way and gives it back.
    pub fn take_pending(&mut self) -> (r: Option<PendingInput>)
        ensures
            r == old(self).pending,
            final(self).pending is None,
    {
        self.pending.take()
    }

    /// The sequence under way.
    pub fn pending(&self) -> (r: Option<PendingInput>)
        ensures
            r == self.pending,
    {
        self.pending
    }
}

} // verus!
