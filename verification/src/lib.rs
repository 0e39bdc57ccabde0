use vstd::prelude::*;

pub mod audio_settings;
pub mod autosave;
pub mod clipboard;
pub mod document;
pub mod engine;
pub mod history;
pub mod keyboard;
pub mod midi_compat;
pub mod note_edit;
pub mod num_expr;
pub mod poll;
pub mod quantize;
pub mod sel_hint;
pub mod shortcuts;
pub mod startup;
pub mod text;
pub mod workspace;
