//! Hum: a music notation language.
//!
//! The library parses the notation into commands, replays those commands into
//! sample-accurate note events and an additively mixed master track, addresses
//! musical elements inside a text buffer, and aligns scores with a
//! segment-based layout engine.  Audio rendering, file handling and the
//! terminal front end live outside the library and consume plain values.
pub mod chars;
pub mod hum_editor;
pub mod hum_error;
pub mod rat;
pub mod hum_parse;
pub mod hum_process;
pub mod strings;

pub mod text;

use crate::hum_error::HumError;
use crate::hum_process::NoteEvent;
use vstd::prelude::*;

verus! {

/// Parse a score and replay it into note events: the whole pipeline short
/// of audio rendering.  A syntax error or a semantically invalid command
/// aborts the run with a typed error and no partial result.
pub fn parse_score_contents(score_contents: String) -> (r: Result<Vec<NoteEvent>, HumError>)
    ensures
        match crate::hum_parse::hum_grammar::score_from(score_contents@, 0) {
            Err(p) => r matches Err(HumError::HumParseError(e)) && e.position == p,
            Ok(cmds) => match crate::hum_process::run_from(
                cmds,
                0,
                crate::hum_process::init_state(),
            ) {
                Err(_) => r matches Err(HumError::GenerateError(_)),
                Ok(evs) => r matches Ok(v) && crate::hum_process::events_view(v@) == evs,
            },
        },
{
    match crate::hum_parse::hum_grammar::score(score_contents.as_str()) {
        Err(e) => Err(HumError::HumParseError(e)),
        Ok(commands) => match crate::hum_process::run_commands(commands) {
            Err(e) => Err(HumError::GenerateError(e)),
            Ok(evs) => Ok(evs),
        },
    }
}

} // verus!
