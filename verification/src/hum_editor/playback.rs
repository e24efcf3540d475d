//! Score extraction for previews: the text handed to the audio pipeline
//! when playing a note, a section or the whole file.  Writing the
//! temporary file and driving the player process live with the caller.
use crate::hum_editor::editor_state::EditorState;
use crate::hum_editor::editor_state::ed_wf;
use crate::hum_editor::utils::has_bpm_marker;
use crate::hum_editor::utils::has_char;
use crate::hum_editor::utils::line_starts_with;
use crate::hum_editor::utils::voice_from;
use crate::text::line_at;
use crate::text::line_count;
use crate::text::line_of;
use crate::text::line_start;
use crate::text::rope_text;
use vstd::prelude::*;

verus! {

/// The nearest checkpoint line at or above line `l`.
pub open spec fn checkpoint_line_from(s: Seq<char>, l: int) -> Option<int>
    decreases l,
{
    if line_starts_with(line_at(s, l), '*') {
        Some(l)
    } else if l <= 0 {
        None
    } else {
        checkpoint_line_from(s, l - 1)
    }
}

/// Finds the index of the last checkpoint line at or before the cursor's
/// line.
pub fn find_last_checkpoint_line(state: &EditorState) -> (r: Option<usize>)
    requires
        ed_wf(*state),
    ensures
        ({
            let s = rope_text(state.text);
            let l = line_of(s, state.cursor_pos as int);
            match r {
                Some(i) => checkpoint_line_from(s, l) == Some(i as int) && (i as int)
                    < line_count(s),
                None => checkpoint_line_from(s, l) is None,
            }
        }),
{
    let ghost s = rope_text(state.text);
    proof {
        crate::text::lemma_cursor_in_line(s, state.cursor_pos as int);
    }
    let line_idx = crate::text::rope_char_to_line(&state.text, state.cursor_pos);
    let mut li = line_idx;
    loop
        invariant
            0 <= li <= line_idx,
            s == rope_text(state.text),
            line_idx < line_count(s),
            line_idx == line_of(s, state.cursor_pos as int),
            checkpoint_line_from(s, line_idx as int) == checkpoint_line_from(s, li as int),
        decreases li,
    {
        let line = crate::text::rope_line_string(&state.text, li);
        if crate::hum_editor::utils::is_checkpoint_line(line.as_str()) {
            return Some(li);
        }
        if li == 0 {
            return None;
        }
        li -= 1;
    }
}

/// Whether a line is useful for a preview header given which kinds were
/// already found below it.
pub open spec fn header_useful(line: Seq<char>, fb: bool, ft: bool, fv: bool) -> (bool, bool, bool) {
    (!fb && has_bpm_marker(line), !ft && (has_char(line, '[') && has_char(line, '/') && has_char(
        line,
        ']',
    )), !fv && line_starts_with(line, '%'))
}

/// The context header above `end_line`: the nearest tempo, time-signature
/// and voice lines below it, in their original order.
pub open spec fn header_from(s: Seq<char>, i: int, fb: bool, ft: bool, fv: bool) -> Seq<char>
    decreases i + 1,
{
    if i < 0 {
        Seq::empty()
    } else {
        let line = line_at(s, i);
        let (ub, ut, uv) = header_useful(line, fb, ft, fv);
        let rest = header_from(s, i - 1, fb || ub, ft || ut, fv || uv);
        if ub || ut || uv {
            rest + line
        } else {
            rest
        }
    }
}

fn header_rec(state: &EditorState, i: usize, fb: bool, ft: bool, fv: bool, fuel: usize) -> (r:
    String)
    requires
        ed_wf(*state),
        i < line_count(rope_text(state.text)),
        fuel > i,
    ensures
        r@ == header_from(rope_text(state.text), i as int, fb, ft, fv),
    decreases fuel,
{
    let line = crate::text::rope_line_string(&state.text, i);
    let ub = !fb && crate::hum_editor::utils::is_tempo_line(line.as_str());
    let ut = !ft && crate::hum_editor::utils::is_time_signature_line(line.as_str());
    let uv = !fv && crate::hum_editor::utils::is_voice_line(line.as_str());
    let rest: String = if i == 0 {
        proof {
            assert(header_from(rope_text(state.text), -1, fb || ub, ft || ut, fv || uv)
                =~= Seq::<char>::empty());
        }
        String::new()
    } else {
        header_rec(state, i - 1, fb || ub, ft || ut, fv || uv, fuel - 1)
    };
    if ub || ut || uv {
        rest.concat(line.as_str())
    } else {
        rest
    }
}

/// Extracts the preview context (tempo, time signature, voice) from the
/// text above `end_line`: for each kind, the nearest such line below the
/// section, kept in file order.
pub fn extract_context_header(state: &EditorState, end_line: usize) -> (r: String)
    requires
        ed_wf(*state),
        end_line < line_count(rope_text(state.text)) + 1,
    ensures
        r@ == header_from(rope_text(state.text), end_line - 1, false, false, false),
{
    if end_line == 0 {
        proof {
            assert(header_from(rope_text(state.text), -1, false, false, false)
                =~= Seq::<char>::empty());
        }
        String::new()
    } else {
        header_rec(state, end_line - 1, false, false, false, end_line)
    }
}

/// Extracts the text of the section starting at `start_line`.
pub fn extract_section_content(state: &EditorState, start_line: usize) -> (r: String)
    requires
        ed_wf(*state),
        start_line < line_count(rope_text(state.text)) + 1,
    ensures
        r@ == rope_text(state.text).skip(
            line_start(rope_text(state.text), start_line as int),
        ),
{
    let ghost s = rope_text(state.text);
    proof {
        crate::text::lemma_line_start_bounds(s, start_line as int);
    }
    let start_char = crate::text::rope_line_to_char(&state.text, start_line);
    let len = crate::text::rope_len_chars(&state.text);
    let r = crate::text::rope_slice_string(&state.text, start_char, len);
    proof {
        assert(s.subrange(line_start(s, start_line as int), s.len() as int) =~= s.skip(
            line_start(s, start_line as int),
        ));
    }
    r
}

/// The score text rendered to preview a single note: a default tempo and
/// time signature, the active voice at the cursor, one measure with the
/// note, and a reset.
pub open spec fn note_preview_spec(s: Seq<char>, cursor: int, note: Seq<char>) -> Seq<char> {
    "[ 120_bpm ][ 4/4 ] % "@ + voice_from(s, line_of(s, cursor)) + " | "@ + note + " ;"@
}

/// Builds the minimal score played to preview a note at the cursor.
pub fn note_preview_score(state: &EditorState, note: &str) -> (r: String)
    requires
        ed_wf(*state),
    ensures
        r@ == note_preview_spec(rope_text(state.text), state.cursor_pos as int, note@),
{
    let voice = crate::hum_editor::utils::get_voice_at_cursor(state);
    let r = String::from_str("[ 120_bpm ][ 4/4 ] % ").concat(voice.as_str()).concat(" | ").concat(
        note,
    ).concat(" ;");
    proof {
        assert(r@ =~= note_preview_spec(rope_text(state.text), state.cursor_pos as int, note@));
    }
    r
}

/// The score text played for a section preview: from the last checkpoint
/// before the cursor, with the context header above it; the whole text
/// when no checkpoint precedes the cursor.
pub fn section_score(state: &EditorState) -> (r: String)
    requires
        ed_wf(*state),
    ensures
        ({
            let s = rope_text(state.text);
            let l = line_of(s, state.cursor_pos as int);
            match checkpoint_line_from(s, l) {
                Some(i) => r@ == header_from(s, i - 1, false, false, false) + s.skip(
                    line_start(s, i),
                ),
                None => r@ == s,
            }
        }),
{
    match find_last_checkpoint_line(state) {
        Some(line_idx) => {
            let header = extract_context_header(state, line_idx);
            let section = extract_section_content(state, line_idx);
            header.concat(section.as_str())
        },
        None => crate::text::rope_to_string(&state.text),
    }
}

} // verus!
