//! Verified core of the ahess project session: undo and redo of project and score changes,
//! the arrangement and its playback loop, score row edits, the session's status line and
//! layout, WAV inspection and building, impulse-response assets and database change ordering.
use vstd::prelude::*;

pub mod arrangement;
pub mod arrangement_playback;
pub mod audio_build;
pub mod change_db;
pub mod convolution;
pub mod document;
pub mod history;
pub mod history_laws;
pub mod note_grid;
pub mod part;
pub mod parts_summary;
pub mod project;
pub mod restore;
pub mod row_edit;
pub mod score;
pub mod score_document;
pub mod status;
pub mod text;
pub mod wav;

verus! {
} // verus!
