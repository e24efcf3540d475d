//! The interactive editing core: the editor state, note-level editing
//! operations, structural addressing of musical elements inside the text
//! buffer, cursor movement, score extraction for previews, and the
//! alignment formatter.  Terminal rendering, key dispatch and audio
//! playback live outside the library and drive these operations.
pub mod editing;
pub mod editor_state;
pub mod formatting;
pub mod movement;
pub mod playback;
pub mod utils;
