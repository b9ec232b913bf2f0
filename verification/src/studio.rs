//! The score editor's text operations.
pub mod selection;
pub mod settings;
pub mod template_call;
pub mod selection_state;
pub mod onset;
pub mod track_init;
pub mod track_ops;
pub mod template_ops;
pub mod add;
pub mod source;
pub mod rename;
pub mod completion;
pub mod note_entry;
pub mod preview;
pub mod audition;
pub mod loop_bound;
pub mod command;
pub mod keystroke;
pub mod input;
pub mod selection_model;
pub mod preview_panel;
pub mod note_input;
pub mod clipboard;
pub mod edit_batch;
pub mod extract;
