//! Note-level and line-level editing operations over the editor state.
use crate::chars::not_char_class;
use crate::chars::scan_while;
use crate::chars::trim_blanks;
use crate::hum_editor::editor_state::EditorState;
use crate::hum_editor::editor_state::ed_wf;
use crate::hum_editor::utils;
use crate::hum_editor::utils::first_non_blank;
use crate::hum_editor::utils::note_range_spec;
use crate::hum_editor::utils::pitch_range_spec;
use crate::hum_editor::utils::word_range_spec;
use crate::hum_process::hum_math::flat_index;
use crate::hum_process::hum_math::flat_name;
use crate::hum_process::hum_math::sharp_index;
use crate::hum_process::hum_math::sharp_name;
use crate::text::line_at;
use crate::text::line_count;
use crate::text::line_of;
use crate::text::line_start;
use crate::text::rope_text;
use vstd::prelude::*;

verus! {

/// Add a character at the current cursor position and move the cursor
/// forward.
pub fn insert_char(state: &mut EditorState, c: char)
    requires
        ed_wf(*old(state)),
        rope_text(old(state).text).len() < usize::MAX,
    ensures
        ed_wf(*final(state)),
        rope_text(final(state).text) == rope_text(old(state).text).insert(
            old(state).cursor_pos as int,
            c,
        ),
        final(state).cursor_pos == old(state).cursor_pos + 1,
        *final(state) == (EditorState {
            text: final(state).text,
            cursor_pos: final(state).cursor_pos,
            ..*old(state)
        }),
{
    crate::text::rope_insert_char(&mut state.text, state.cursor_pos, c);
    state.cursor_pos += 1;
}

/// Delete the character before the current cursor position and move the
/// cursor back; at the start of the buffer nothing happens.
pub fn delete_char(state: &mut EditorState)
    requires
        ed_wf(*old(state)),
    ensures
        ed_wf(*final(state)),
        old(state).cursor_pos > 0 ==> {
            &&& rope_text(final(state).text) == rope_text(old(state).text).take(
                old(state).cursor_pos - 1,
            ) + rope_text(old(state).text).skip(old(state).cursor_pos as int)
            &&& final(state).cursor_pos == old(state).cursor_pos - 1
        },
        old(state).cursor_pos == 0 ==> *final(state) == *old(state),
        *final(state) == (EditorState {
            text: final(state).text,
            cursor_pos: final(state).cursor_pos,
            ..*old(state)
        }),
{
    if state.cursor_pos > 0 {
        crate::text::rope_remove(&mut state.text, state.cursor_pos - 1, state.cursor_pos);
        state.cursor_pos -= 1;
    }
}

/// Get the character index at the end of the current line: the start of the
/// next one.
pub fn get_current_eol_idx(state: &EditorState) -> (r: usize)
    requires
        ed_wf(*state),
        rope_text(state.text).len() < usize::MAX,
    ensures
        r == line_start(rope_text(state.text), line_of(rope_text(state.text), state.cursor_pos as int) + 1),
        r <= rope_text(state.text).len(),
{
    proof {
        crate::text::lemma_cursor_in_line(rope_text(state.text), state.cursor_pos as int);
        crate::text::lemma_count_nl_le(
            rope_text(state.text),
            state.cursor_pos as int,
            rope_text(state.text).len() as int,
        );
    }
    let line_idx = crate::text::rope_char_to_line(&state.text, state.cursor_pos);
    crate::text::rope_line_to_char(&state.text, line_idx + 1)
}

/// What inserting a new line below does: a newline goes in at the end of
/// the current line, and the cursor moves to the start of the fresh line.
pub open spec fn new_line_below_spec(s: Seq<char>, cursor: int) -> (Seq<char>, int) {
    let l = line_of(s, cursor);
    let eol = line_start(s, l + 1);
    let has_nl = eol > line_start(s, l) && s[eol - 1] == '\n';
    (s.insert(eol, '\n'), if has_nl {
        eol
    } else {
        eol + 1
    })
}

/// Insert a new line below the current line and move the cursor to the
/// start of that line.
pub fn insert_new_line_below(state: &mut EditorState)
    requires
        ed_wf(*old(state)),
        rope_text(old(state).text).len() < usize::MAX,
    ensures
        ed_wf(*final(state)),
        (rope_text(final(state).text), final(state).cursor_pos as int) == new_line_below_spec(
            rope_text(old(state).text),
            old(state).cursor_pos as int,
        ),
        *final(state) == (EditorState {
            text: final(state).text,
            cursor_pos: final(state).cursor_pos,
            ..*old(state)
        }),
{
    let ghost s = rope_text(state.text);
    proof {
        crate::text::lemma_cursor_in_line(s, state.cursor_pos as int);
        crate::text::lemma_line_start_bounds(s, line_of(s, state.cursor_pos as int));
    }
    let line_idx = crate::text::rope_char_to_line(&state.text, state.cursor_pos);
    let line_begin = crate::text::rope_line_to_char(&state.text, line_idx);
    let current_eol_idx = get_current_eol_idx(state);
    let has_newline = current_eol_idx > line_begin && crate::text::rope_char(
        &state.text,
        current_eol_idx - 1,
    ) == '\n';
    crate::text::rope_insert_char(&mut state.text, current_eol_idx, '\n');
    if has_newline {
        state.cursor_pos = current_eol_idx;
    } else {
        state.cursor_pos = current_eol_idx + 1;
    }
}

/// What preparing an empty line does: a line of blanks is cleared in place
/// (keeping its newline) with the cursor at its start; any other line gets
/// a fresh line below.
pub open spec fn prepare_empty_line_spec(s: Seq<char>, cursor: int) -> (Seq<char>, int) {
    let l = line_of(s, cursor);
    let line = line_at(s, l);
    if first_non_blank(line) == line.len() {
        let start = line_start(s, l);
        let has_nl = line.len() > 0 && line.last() == '\n';
        let rm = if has_nl {
            line.len() - 1
        } else {
            line.len() as int
        };
        (s.take(start) + s.skip(start + rm), start)
    } else {
        new_line_below_spec(s, cursor)
    }
}

/// Prepares an empty line for insertion: clears an all-blank line in place,
/// otherwise opens a new line below.
pub fn prepare_empty_line(state: &mut EditorState)
    requires
        ed_wf(*old(state)),
        rope_text(old(state).text).len() < usize::MAX,
    ensures
        ed_wf(*final(state)),
        (rope_text(final(state).text), final(state).cursor_pos as int) == prepare_empty_line_spec(
            rope_text(old(state).text),
            old(state).cursor_pos as int,
        ),
        *final(state) == (EditorState {
            text: final(state).text,
            cursor_pos: final(state).cursor_pos,
            ..*old(state)
        }),
{
    let ghost s = rope_text(state.text);
    proof {
        crate::text::lemma_cursor_in_line(s, state.cursor_pos as int);
        crate::text::lemma_line_start_bounds(s, line_of(s, state.cursor_pos as int));
    }
    let line_idx = crate::text::rope_char_to_line(&state.text, state.cursor_pos);
    let line = crate::text::rope_line_string(&state.text, line_idx);
    let llen = line.as_str().unicode_len();
    let fnb = crate::chars::skip_blanks(line.as_str(), 0);
    if fnb == llen {
        let start = crate::text::rope_line_to_char(&state.text, line_idx);
        let has_newline = llen > 0 && line.as_str().get_char(llen - 1) == '\n';
        let remove_len = if has_newline {
            llen - 1
        } else {
            llen
        };
        proof {
            assert(line_at(s, line_idx as int).len() == line_start(s, line_idx + 1) - line_start(
                s,
                line_idx as int,
            ));
        }
        if remove_len > 0 {
            crate::text::rope_remove(&mut state.text, start, start + remove_len);
        } else {
            proof {
                assert(s.take(start as int) + s.skip(start as int) =~= s);
            }
        }
        state.cursor_pos = start;
    } else {
        insert_new_line_below(state);
    }
}

/// Delete the entire current line and clamp the cursor to the buffer.
pub fn delete_line(state: &mut EditorState)
    requires
        ed_wf(*old(state)),
    ensures
        ed_wf(*final(state)),
        ({
            let s = rope_text(old(state).text);
            let l = line_of(s, old(state).cursor_pos as int);
            let start = line_start(s, l);
            let end = if l + 1 < line_count(s) {
                line_start(s, l + 1)
            } else {
                s.len() as int
            };
            &&& rope_text(final(state).text) == s.take(start) + s.skip(end)
            &&& final(state).cursor_pos == if old(state).cursor_pos as int <= rope_text(
                final(state).text,
            ).len() {
                old(state).cursor_pos as int
            } else {
                rope_text(final(state).text).len() as int
            }
        }),
        final(state).message@ == "Deleted line"@,
        *final(state) == (EditorState {
            text: final(state).text,
            cursor_pos: final(state).cursor_pos,
            message: final(state).message,
            ..*old(state)
        }),
{
    let ghost s = rope_text(state.text);
    proof {
        crate::text::lemma_cursor_in_line(s, state.cursor_pos as int);
        crate::text::lemma_line_start_bounds(s, line_of(s, state.cursor_pos as int));
    }
    let line_idx = crate::text::rope_char_to_line(&state.text, state.cursor_pos);
    let start_char = crate::text::rope_line_to_char(&state.text, line_idx);
    let total_lines = crate::text::rope_len_lines(&state.text);
    let end_char = if line_idx + 1 < total_lines {
        crate::text::rope_line_to_char(&state.text, line_idx + 1)
    } else {
        crate::text::rope_len_chars(&state.text)
    };
    proof {
        crate::text::lemma_line_start_bounds(s, line_idx + 1);
    }
    crate::text::rope_remove(&mut state.text, start_char, end_char);
    let new_len = crate::text::rope_len_chars(&state.text);
    if state.cursor_pos > new_len {
        state.cursor_pos = new_len;
    }
    state.message = String::from_str("Deleted line");
}

/// Insert a string of text at the current cursor position and move the
/// cursor to the end of the inserted string.
pub fn insert_snippet(state: &mut EditorState, snippet: &str)
    requires
        ed_wf(*old(state)),
        rope_text(old(state).text).len() + snippet@.len() <= usize::MAX,
    ensures
        ed_wf(*final(state)),
        rope_text(final(state).text) == rope_text(old(state).text).take(
            old(state).cursor_pos as int,
        ) + snippet@ + rope_text(old(state).text).skip(old(state).cursor_pos as int),
        final(state).cursor_pos == old(state).cursor_pos + snippet@.len(),
        final(state).message@ == "Inserted snippet: '"@ + trim_blanks(snippet@) + "'"@,
        *final(state) == (EditorState {
            text: final(state).text,
            cursor_pos: final(state).cursor_pos,
            message: final(state).message,
            ..*old(state)
        }),
{
    crate::text::rope_insert(&mut state.text, state.cursor_pos, snippet);
    let n = snippet.unicode_len();
    state.cursor_pos += n;
    let trimmed = crate::chars::trim_substring(snippet, 0, n);
    proof {
        assert(snippet@.subrange(0, n as int) =~= snippet@);
    }
    state.message = String::from_str("Inserted snippet: '").concat(trimmed.as_str()).concat("'");
}

/// What appending a reset does: a semicolon lands at the end of the current
/// line (before its newline, if any), then a fresh line opens below.
pub open spec fn append_reset_spec(s: Seq<char>, cursor: int) -> (Seq<char>, int) {
    let l = line_of(s, cursor);
    let eol = line_start(s, l + 1);
    let has_nl = eol > line_start(s, l) && s[eol - 1] == '\n';
    let pos = if has_nl {
        eol - 1
    } else {
        eol
    };
    let s2 = s.insert(pos, ';');
    new_line_below_spec(s2, pos + 1)
}

/// Appends a reset (semicolon) to the end of the current line and starts a
/// new line below.
pub fn append_reset_and_newline(state: &mut EditorState)
    requires
        ed_wf(*old(state)),
        rope_text(old(state).text).len() + 2 <= usize::MAX,
    ensures
        ed_wf(*final(state)),
        (rope_text(final(state).text), final(state).cursor_pos as int) == append_reset_spec(
            rope_text(old(state).text),
            old(state).cursor_pos as int,
        ),
        final(state).message@ == "Inserted reset and newline"@,
        *final(state) == (EditorState {
            text: final(state).text,
            cursor_pos: final(state).cursor_pos,
            message: final(state).message,
            ..*old(state)
        }),
{
    let ghost s = rope_text(state.text);
    proof {
        crate::text::lemma_cursor_in_line(s, state.cursor_pos as int);
        crate::text::lemma_line_start_bounds(s, line_of(s, state.cursor_pos as int));
    }
    let line_idx = crate::text::rope_char_to_line(&state.text, state.cursor_pos);
    proof {
        crate::text::lemma_count_nl_le(s, state.cursor_pos as int, s.len() as int);
    }
    let line_begin = crate::text::rope_line_to_char(&state.text, line_idx);
    let eol = crate::text::rope_line_to_char(&state.text, line_idx + 1);
    let has_newline = eol > line_begin && crate::text::rope_char(&state.text, eol - 1) == '\n';
    let insert_pos = if has_newline {
        eol - 1
    } else {
        eol
    };
    crate::text::rope_insert_char(&mut state.text, insert_pos, ';');
    state.cursor_pos = insert_pos + 1;
    insert_new_line_below(state);
    state.message = String::from_str("Inserted reset and newline");
}

/// Add a dot to the current duration setting.
pub fn add_dot_to_duration(state: &mut EditorState)
    requires
        ed_wf(*old(state)),
    ensures
        ed_wf(*final(state)),
        final(state).current_duration@ == old(state).current_duration@ + "+"@,
        *final(state) == (EditorState {
            current_duration: final(state).current_duration,
            ..*old(state)
        }),
{
    let d = state.current_duration.clone();
    state.current_duration = d.concat("+");
}

/// Remove a dot from the current duration setting, if it ends with one.
pub fn remove_dot_from_duration(state: &mut EditorState)
    requires
        ed_wf(*old(state)),
    ensures
        ed_wf(*final(state)),
        ({
            let d = old(state).current_duration@;
            if d.len() > 0 && d.last() == '+' {
                final(state).current_duration@ == d.drop_last()
            } else {
                final(state).current_duration@ == d
            }
        }),
        *final(state) == (EditorState {
            current_duration: final(state).current_duration,
            ..*old(state)
        }),
{
    let n = state.current_duration.as_str().unicode_len();
    if n > 0 && state.current_duration.as_str().get_char(n - 1) == '+' {
        let d = String::from_str(state.current_duration.as_str().substring_char(0, n - 1));
        proof {
            assert(old(state).current_duration@.subrange(0, n - 1 as int) =~= old(
                state,
            ).current_duration@.drop_last());
        }
        state.current_duration = d;
    }
}

/// Parse the current duration setting into its fraction and its dots: the
/// text splits at the first plus sign.
pub fn parse_duration_setting(duration: &str) -> (r: (String, String))
    ensures
        ({
            let idx = scan_while(duration@, 0, not_char_class('+'));
            &&& r.0@ == duration@.subrange(0, if idx <= duration@.len() {
                idx
            } else {
                duration@.len() as int
            })
            &&& r.1@ == duration@.subrange(
                if idx <= duration@.len() {
                    idx
                } else {
                    duration@.len() as int
                },
                duration@.len() as int,
            )
        }),
{
    let ghost pc = not_char_class('+');
    let n = duration.unicode_len();
    let mut i: usize = 0;
    while i < n && duration.get_char(i) != '+'
        invariant
            i <= n,
            n == duration@.len(),
            scan_while(duration@, 0, pc) == scan_while(duration@, i as int, pc),
            pc == not_char_class('+'),
        decreases n - i,
    {
        proof {
            assert(scan_while(duration@, i as int, pc) == scan_while(duration@, i + 1, pc));
        }
        i += 1;
    }
    proof {
        assert(scan_while(duration@, i as int, pc) == i as int);
    }
    (
        String::from_str(duration.substring_char(0, i)),
        String::from_str(duration.substring_char(i, n)),
    )
}

/// The uppercase form of an ASCII letter; other characters pass through.
pub open spec fn ascii_upper(c: char) -> char {
    if 97 <= c as u32 <= 122 {
        spec_upper_of(c)
    } else {
        c
    }
}

/// The uppercase partner of a lowercase ASCII letter.
pub open spec fn spec_upper_of(c: char) -> char {
    if c == 'a' {
        'A'
    } else if c == 'b' {
        'B'
    } else if c == 'c' {
        'C'
    } else if c == 'd' {
        'D'
    } else if c == 'e' {
        'E'
    } else if c == 'f' {
        'F'
    } else if c == 'g' {
        'G'
    } else if c == 'h' {
        'H'
    } else if c == 'i' {
        'I'
    } else if c == 'j' {
        'J'
    } else if c == 'k' {
        'K'
    } else if c == 'l' {
        'L'
    } else if c == 'm' {
        'M'
    } else if c == 'n' {
        'N'
    } else if c == 'o' {
        'O'
    } else if c == 'p' {
        'P'
    } else if c == 'q' {
        'Q'
    } else if c == 'r' {
        'R'
    } else if c == 's' {
        'S'
    } else if c == 't' {
        'T'
    } else if c == 'u' {
        'U'
    } else if c == 'v' {
        'V'
    } else if c == 'w' {
        'W'
    } else if c == 'x' {
        'X'
    } else if c == 'y' {
        'Y'
    } else if c == 'z' {
        'Z'
    } else {
        c
    }
}

fn upper_char(c: char) -> (r: char)
    ensures
        r == ascii_upper(c),
{
    match c {
        'a' => 'A',
        'b' => 'B',
        'c' => 'C',
        'd' => 'D',
        'e' => 'E',
        'f' => 'F',
        'g' => 'G',
        'h' => 'H',
        'i' => 'I',
        'j' => 'J',
        'k' => 'K',
        'l' => 'L',
        'm' => 'M',
        'n' => 'N',
        'o' => 'O',
        'p' => 'P',
        'q' => 'Q',
        'r' => 'R',
        's' => 'S',
        't' => 'T',
        'u' => 'U',
        'v' => 'V',
        'w' => 'W',
        'x' => 'X',
        'y' => 'Y',
        'z' => 'Z',
        _ => c,
    }
}

/// The note text inserted for a key: the uppercased letter with the natural
/// accidental, the current octave and duration, and two trailing spaces.
pub open spec fn inserted_note_text(note_char: char, octave: int, duration: Seq<char>) -> Seq<
    char,
> {
    let idx = scan_while(duration, 0, not_char_class('+'));
    let cut = if idx <= duration.len() {
        idx
    } else {
        duration.len() as int
    };
    let fraction = duration.subrange(0, cut);
    let dots = duration.subrange(cut, duration.len() as int);
    seq!['('] + seq![ascii_upper(note_char)] + seq!['n'] + seq!['_'] + crate::chars::i64_dec(octave)
        + seq![' '] + fraction + seq![')'] + dots + seq![' ', ' ']
}

/// Insert a note at the current cursor position with the current duration
/// and octave settings.
pub fn insert_note(state: &mut EditorState, note_char: char)
    requires
        ed_wf(*old(state)),
        rope_text(old(state).text).len() + old(state).current_duration@.len() + 32 <= usize::MAX,
    ensures
        ed_wf(*final(state)),
        ({
            let note = inserted_note_text(
                note_char,
                old(state).current_octave as int,
                old(state).current_duration@,
            );
            &&& rope_text(final(state).text) == rope_text(old(state).text).take(
                old(state).cursor_pos as int,
            ) + note + rope_text(old(state).text).skip(old(state).cursor_pos as int)
            &&& final(state).cursor_pos == old(state).cursor_pos + note.len()
        }),
        *final(state) == (EditorState {
            text: final(state).text,
            cursor_pos: final(state).cursor_pos,
            message: final(state).message,
            ..*old(state)
        }),
{
    let (fraction, dots) = parse_duration_setting(state.current_duration.as_str());
    let up = upper_char(note_char);
    let mut name: Vec<char> = Vec::new();
    name.push(up);
    name.push('n');
    let name_s = crate::strings::chars_to_string(name);
    let body = utils::construct_note_text(
        name_s.as_str(),
        state.current_octave as i32,
        fraction.as_str(),
        dots.as_str(),
    );
    let note = body.concat("  ");
    proof {
        reveal_strlit("  ");
        assert(note@ =~= inserted_note_text(
            note_char,
            old(state).current_octave as int,
            old(state).current_duration@,
        ));
        crate::chars::lemma_u64_dec_len3(old(state).current_octave as nat);
        assert(crate::chars::i64_dec(old(state).current_octave as int) == crate::chars::u64_dec(
            old(state).current_octave as nat,
        ));
        assert(crate::chars::i64_dec(old(state).current_octave as int).len() <= 3);
        let ghost dur = old(state).current_duration@;
        let ghost idx = scan_while(dur, 0, not_char_class('+'));
        crate::chars::lemma_scan_while(dur, 0, not_char_class('+'));
        let ghost cut = if idx <= dur.len() { idx } else { dur.len() as int };
        assert(dur.subrange(0, cut).len() + dur.subrange(cut, dur.len() as int).len()
            == dur.len());
        assert(note@.len() <= old(state).current_duration@.len() + 32);
    }
    insert_snippet(state, note.as_str());
}

/// The rest text inserted for the current duration.
pub open spec fn inserted_rest_text(duration: Seq<char>) -> Seq<char> {
    let idx = scan_while(duration, 0, not_char_class('+'));
    let cut = if idx <= duration.len() {
        idx
    } else {
        duration.len() as int
    };
    let fraction = duration.subrange(0, cut);
    let dots = duration.subrange(cut, duration.len() as int);
    "(Rest "@ + fraction + seq![')'] + dots + seq![' ', ' ']
}

/// Insert a rest at the current cursor position with the current duration
/// setting.
pub fn insert_rest(state: &mut EditorState)
    requires
        ed_wf(*old(state)),
        rope_text(old(state).text).len() + old(state).current_duration@.len() + 32 <= usize::MAX,
    ensures
        ed_wf(*final(state)),
        ({
            let note = inserted_rest_text(old(state).current_duration@);
            &&& rope_text(final(state).text) == rope_text(old(state).text).take(
                old(state).cursor_pos as int,
            ) + note + rope_text(old(state).text).skip(old(state).cursor_pos as int)
            &&& final(state).cursor_pos == old(state).cursor_pos + note.len()
        }),
        *final(state) == (EditorState {
            text: final(state).text,
            cursor_pos: final(state).cursor_pos,
            message: final(state).message,
            ..*old(state)
        }),
{
    let (fraction, dots) = parse_duration_setting(state.current_duration.as_str());
    proof {
        reveal_strlit("(Rest ");
    }
    let note = String::from_str("(Rest ").concat(fraction.as_str()).concat(")").concat(
        dots.as_str(),
    ).concat("  ");
    proof {
        reveal_strlit(")");
        reveal_strlit("  ");
        reveal_strlit("(Rest ");
        assert(note@ =~= inserted_rest_text(old(state).current_duration@));
        let ghost dur = old(state).current_duration@;
        let ghost idx = scan_while(dur, 0, not_char_class('+'));
        crate::chars::lemma_scan_while(dur, 0, not_char_class('+'));
        let ghost cut = if idx <= dur.len() { idx } else { dur.len() as int };
        assert(dur.subrange(0, cut).len() + dur.subrange(cut, dur.len() as int).len()
            == dur.len());
        assert(note@.len() <= old(state).current_duration@.len() + 32);
    }
    insert_snippet(state, note.as_str());
}

/// The element the delete operation acts on: the note span around the
/// cursor, or failing that the word span.
pub open spec fn delete_target(s: Seq<char>, cursor: int) -> Option<(int, int)> {
    match note_range_spec(s, cursor) {
        Some(r) => Some(r),
        None => word_range_spec(s, cursor),
    }
}

/// Delete the note (or word) at the current cursor position and move the
/// cursor to its start; a following space goes with it to keep spacing
/// clean.
pub fn delete_note(state: &mut EditorState)
    requires
        ed_wf(*old(state)),
    ensures
        ed_wf(*final(state)),
        ({
            let s = rope_text(old(state).text);
            match delete_target(s, old(state).cursor_pos as int) {
                Some((a, b)) => {
                    let s2 = s.take(a) + s.skip(b);
                    let dropped_space = a < s2.len() && s2[a] == ' ';
                    &&& rope_text(final(state).text) == if dropped_space {
                        s2.take(a) + s2.skip(a + 1)
                    } else {
                        s2
                    }
                    &&& final(state).cursor_pos == a
                    &&& final(state).message@ == "Deleted "@ + s.subrange(a, b)
                },
                None => *final(state) == *old(state),
            }
        }),
        *final(state) == (EditorState {
            text: final(state).text,
            cursor_pos: final(state).cursor_pos,
            message: final(state).message,
            ..*old(state)
        }),
{
    let ghost s = rope_text(state.text);
    let range = match utils::get_note_range_at_cursor(state) {
        Some(r) => Some(r),
        None => utils::get_word_range_at_cursor(state),
    };
    match range {
        Some((start, end)) => {
            let word = crate::text::rope_slice_string(&state.text, start, end);
            crate::text::rope_remove(&mut state.text, start, end);
            let new_len = crate::text::rope_len_chars(&state.text);
            if start < new_len && crate::text::rope_char(&state.text, start) == ' ' {
                crate::text::rope_remove(&mut state.text, start, start + 1);
            }
            state.cursor_pos = start;
            state.message = String::from_str("Deleted ").concat(word.as_str());
        },
        None => {},
    }
}

/// The merged pitch lookup used for transposition: the sharp table first,
/// then the flat table, remembering which spelling matched.
pub open spec fn lookup_note_idx(name: Seq<char>) -> Option<(int, bool)> {
    match sharp_index(name) {
        Some(i) => Some((i, true)),
        None => match flat_index(name) {
            Some(i) => Some((i, false)),
            None => None,
        },
    }
}

/// The spelling of a scale position in the chosen table.
pub open spec fn spell_note(idx: int, use_sharps: bool) -> Seq<char> {
    if use_sharps {
        sharp_name(idx)
    } else {
        flat_name(idx)
    }
}

/// The transposition of a pitch by a semitone delta: the pitch becomes a
/// linear semitone index, the delta is added, and the octave is re-derived;
/// a result below the lowest or above the highest configured octave is an
/// error, never a silent wrap.
pub open spec fn transpose_spec(name: Seq<char>, octave: int, delta: int) -> Option<
    (Seq<char>, int),
> {
    match lookup_note_idx(name) {
        None => None,
        Some((idx, sharps)) => {
            let np = octave * 12 + idx + delta;
            if np < 0 {
                None
            } else {
                let no = np / 12;
                if no > 7 {
                    None
                } else {
                    Some(
                        (
                            spell_note(np % 12, sharps) + seq!['_'] + crate::chars::u64_dec(
                                no as nat,
                            ),
                            no,
                        ),
                    )
                }
            }
        },
    }
}

/// Calculates the new note name and octave after transposition.
pub fn calculate_transposition(note_name: &str, octave: i32, delta: i32) -> (r: Result<
    (String, i32),
    String,
>)
    ensures
        match r {
            Ok((n2, o2)) => transpose_spec(note_name@, octave as int, delta as int) == Some(
                (n2@, o2 as int),
            ),
            Err(m) => {
                &&& transpose_spec(note_name@, octave as int, delta as int) is None
                &&& (lookup_note_idx(note_name@) is None ==> m@ == "Invalid note name"@)
                &&& (lookup_note_idx(note_name@) matches Some((idx, _)) && octave * 12 + idx + delta
                    < 0 ==> m@ == "Transposition too low"@)
                &&& (lookup_note_idx(note_name@) matches Some((idx, _)) && octave * 12 + idx + delta
                    >= 0 && (octave * 12 + idx + delta) / 12 > 7 ==> m@
                    == "Transposition out of octave range"@)
            },
        },
{
    let looked: Option<(usize, bool)> = match crate::hum_process::hum_math::sharp_index_of(
        note_name,
    ) {
        Some(i) => Some((i, true)),
        None => match crate::hum_process::hum_math::flat_index_of(note_name) {
            Some(i) => Some((i, false)),
            None => None,
        },
    };
    match looked {
        None => Err(String::from_str("Invalid note name")),
        Some((idx, use_sharps)) => {
            let pitch: i64 = (octave as i64) * 12 + (idx as i64);
            let np: i64 = pitch + (delta as i64);
            if np < 0 {
                return Err(String::from_str("Transposition too low"));
            }
            let no = (np as u64) / 12;
            let ni = ((np as u64) % 12) as usize;
            if no > 7 {
                return Err(String::from_str("Transposition out of octave range"));
            }
            let spelled = if use_sharps {
                crate::hum_process::hum_math::sharp_name_at(ni)
            } else {
                crate::hum_process::hum_math::flat_name_at(ni)
            };
            let mut v: Vec<char> = Vec::new();
            crate::strings::push_str_chars(&mut v, spelled);
            v.push('_');
            crate::chars::push_u64_dec(no, &mut v);
            proof {
                assert(v@ =~= spell_note(np as int % 12, use_sharps) + seq!['_']
                    + crate::chars::u64_dec((np as int / 12) as nat));
            }
            Ok((crate::strings::chars_to_string(v), no as i32))
        },
    }
}

/// A spelling taken from the sharp table looks up to its own position.
proof fn lemma_sharp_index_inverse(v: Seq<char>, i: int)
    requires
        sharp_index(v) == Some(i),
    ensures
        v == sharp_name(i),
        0 <= i < 12,
{
    reveal_strlit("Cn");
    reveal_strlit("Cs");
    reveal_strlit("Dn");
    reveal_strlit("Ds");
    reveal_strlit("En");
    reveal_strlit("Fn");
    reveal_strlit("Fs");
    reveal_strlit("Gn");
    reveal_strlit("Gs");
    reveal_strlit("An");
    reveal_strlit("As");
    reveal_strlit("Bn");
    assert(v =~= sharp_name(i));
}

proof fn lemma_sharp_name_index(i: int)
    requires
        0 <= i < 12,
    ensures
        sharp_index(sharp_name(i)) == Some(i),
{
    reveal_strlit("Cn");
    reveal_strlit("Cs");
    reveal_strlit("Dn");
    reveal_strlit("Ds");
    reveal_strlit("En");
    reveal_strlit("Fn");
    reveal_strlit("Fs");
    reveal_strlit("Gn");
    reveal_strlit("Gs");
    reveal_strlit("An");
    reveal_strlit("As");
    reveal_strlit("Bn");
}

/// Transposition round trip: transposing a sharp- or natural-spelled pitch
/// by `k` semitones and the resulting pitch back by `-k` returns exactly
/// the original pitch and octave.  (A flat-only spelling can come back
/// respelled: `Df_4` up one semitone is `Dn_4`, and back down is `Cs_4`.)
pub proof fn lemma_transposition_round_trip(name: Seq<char>, octave: int, k: int)
    requires
        sharp_index(name) is Some,
        0 <= octave <= 7,
        transpose_spec(name, octave, k) is Some,
    ensures
        ({
            let (full, o2) = transpose_spec(name, octave, k)->Some_0;
            transpose_spec(full.subrange(0, 2), o2, -k) == Some(
                (name + seq!['_'] + crate::chars::u64_dec(octave as nat), octave),
            )
        }),
{
    let idx = sharp_index(name)->Some_0;
    lemma_sharp_index_inverse(name, idx);
    let np = octave * 12 + idx + k;
    let no = np / 12;
    let ni = np % 12;
    vstd::arithmetic::div_mod::lemma_fundamental_div_mod(np, 12);
    vstd::arithmetic::div_mod::lemma_mod_division_less_than_divisor(np, 12);
    let (full, o2) = transpose_spec(name, octave, k)->Some_0;
    assert(full == sharp_name(ni) + seq!['_'] + crate::chars::u64_dec(no as nat));
    reveal_strlit("Cn");
    reveal_strlit("Cs");
    reveal_strlit("Dn");
    reveal_strlit("Ds");
    reveal_strlit("En");
    reveal_strlit("Fn");
    reveal_strlit("Fs");
    reveal_strlit("Gn");
    reveal_strlit("Gs");
    reveal_strlit("An");
    reveal_strlit("As");
    reveal_strlit("Bn");
    assert(full.subrange(0, 2) =~= sharp_name(ni));
    lemma_sharp_name_index(ni);
    // going back: the new pitch index is the original one
    let np2 = o2 * 12 + ni + (-k);
    assert(np2 == octave * 12 + idx);
    assert(np2 >= 0);
    vstd::arithmetic::div_mod::lemma_fundamental_div_mod_converse(np2, 12, octave, idx);
    assert(np2 / 12 == octave);
    assert(np2 % 12 == idx);
}

/// Every spelling, sharp or flat, looks up to its own scale position: the
/// two tables agree on the shared natural names, and each accidental name
/// stands only in its own table.
proof fn lemma_lookup_spelling(i: int, use_sharps: bool)
    requires
        0 <= i < 12,
    ensures
        lookup_note_idx(spell_note(i, use_sharps)) matches Some((j, _)) && j == i,
        spell_note(i, use_sharps).len() == 2,
{
    reveal_strlit("Cn");
    reveal_strlit("Cs");
    reveal_strlit("Dn");
    reveal_strlit("Ds");
    reveal_strlit("En");
    reveal_strlit("Fn");
    reveal_strlit("Fs");
    reveal_strlit("Gn");
    reveal_strlit("Gs");
    reveal_strlit("An");
    reveal_strlit("As");
    reveal_strlit("Bn");
    reveal_strlit("Df");
    reveal_strlit("Ef");
    reveal_strlit("Gf");
    reveal_strlit("Af");
    reveal_strlit("Bf");
}

/// Transposition round trip at the pitch level: for any spelling, sharp or
/// flat, transposing by `k` semitones and the result (re-split into name
/// and octave) back by `-k` returns the original octave and a spelling at
/// the original scale position - the same pitch, though a flat-only name
/// can come back respelled through the sharps-first merged lookup.
pub proof fn lemma_transposition_round_trip_semitone(name: Seq<char>, octave: int, k: int)
    requires
        lookup_note_idx(name) is Some,
        0 <= octave <= 7,
        transpose_spec(name, octave, k) is Some,
    ensures
        ({
            let (idx, _) = lookup_note_idx(name)->Some_0;
            let (full, o2) = transpose_spec(name, octave, k)->Some_0;
            let spelled = full.subrange(0, 2);
            &&& transpose_spec(spelled, o2, -k) is Some
            &&& transpose_spec(spelled, o2, -k)->Some_0.1 == octave
            &&& ({
                let spelled2 = transpose_spec(spelled, o2, -k)->Some_0.0.subrange(0, 2);
                lookup_note_idx(spelled2) matches Some((idx2, _)) && idx2 == idx
            })
        }),
{
    let (idx, sf) = lookup_note_idx(name)->Some_0;
    let np = octave * 12 + idx + k;
    let no = np / 12;
    let ni = np % 12;
    vstd::arithmetic::div_mod::lemma_fundamental_div_mod(np, 12);
    vstd::arithmetic::div_mod::lemma_mod_division_less_than_divisor(np, 12);
    let (full, o2) = transpose_spec(name, octave, k)->Some_0;
    lemma_lookup_spelling(ni, sf);
    assert(full.subrange(0, 2) =~= spell_note(ni, sf));
    let spelled = full.subrange(0, 2);
    let (ni2, sf2) = lookup_note_idx(spelled)->Some_0;
    // going back lands on the original linear pitch index
    let np2 = o2 * 12 + ni2 + (-k);
    assert(np2 == octave * 12 + idx);
    vstd::arithmetic::div_mod::lemma_fundamental_div_mod_converse(np2, 12, octave, idx);
    let (full2, o3) = transpose_spec(spelled, o2, -k)->Some_0;
    lemma_lookup_spelling(idx, sf2);
    assert(full2.subrange(0, 2) =~= spell_note(idx, sf2));
}

/// Replaces the note text between `start` and `end` and reports it.
pub fn replace_note_at_cursor(state: &mut EditorState, start: usize, end: usize, new_note: &str)
    requires
        ed_wf(*old(state)),
        start <= end <= rope_text(old(state).text).len(),
        rope_text(old(state).text).len() - (end - start) + new_note@.len() <= usize::MAX,
    ensures
        ed_wf(*final(state)),
        rope_text(final(state).text) == rope_text(old(state).text).take(start as int) + new_note@
            + rope_text(old(state).text).skip(end as int),
        final(state).message@ == "Transposed to "@ + new_note@,
        final(state).cursor_pos == if old(state).cursor_pos as int <= rope_text(
            final(state).text,
        ).len() {
            old(state).cursor_pos as int
        } else {
            rope_text(final(state).text).len() as int
        },
        *final(state) == (EditorState {
            text: final(state).text,
            cursor_pos: final(state).cursor_pos,
            message: final(state).message,
            ..*old(state)
        }),
{
    let ghost s = rope_text(state.text);
    crate::text::rope_remove(&mut state.text, start, end);
    crate::text::rope_insert(&mut state.text, start, new_note);
    proof {
        assert(rope_text(state.text) =~= s.take(start as int) + new_note@ + s.skip(end as int));
    }
    let new_len = crate::text::rope_len_chars(&state.text);
    if state.cursor_pos > new_len {
        state.cursor_pos = new_len;
    }
    state.message = String::from_str("Transposed to ").concat(new_note);
}

/// Transpose the note at the current cursor position by the given delta in
/// semitones; failures are reported in the status message and leave the
/// text unchanged.
pub fn transpose_note(state: &mut EditorState, delta: i32)
    requires
        ed_wf(*old(state)),
        rope_text(old(state).text).len() + 8 <= usize::MAX,
    ensures
        ed_wf(*final(state)),
        ({
            let s = rope_text(old(state).text);
            match pitch_range_spec(s, old(state).cursor_pos as int) {
                None => *final(state) == *old(state),
                Some((a, b)) => {
                    let pitch = s.subrange(a, b);
                    let u = scan_while(pitch, 0, crate::chars::not_underscore_class());
                    let split_ok = u < pitch.len() && scan_while(
                        pitch,
                        u + 1,
                        crate::chars::not_underscore_class(),
                    ) == pitch.len() && crate::hum_editor::utils::parse_i32_spec(
                        pitch.subrange(u + 1, pitch.len() as int),
                    ) is Some;
                    if !split_ok {
                        &&& rope_text(final(state).text) == s
                        &&& final(state).message@ == "Failed to parse note for transposition"@
                    } else {
                        let name = pitch.subrange(0, u);
                        let oct = crate::hum_editor::utils::parse_i32_spec(
                            pitch.subrange(u + 1, pitch.len() as int),
                        )->Some_0;
                        match transpose_spec(name, oct, delta as int) {
                            Some((new_note, _)) => {
                                &&& rope_text(final(state).text) == s.take(a) + new_note + s.skip(b)
                                &&& final(state).message@ == "Transposed to "@ + new_note
                            },
                            None => {
                                &&& rope_text(final(state).text) == s
                                &&& (lookup_note_idx(name) is None ==> final(state).message@
                                    == "Invalid note name"@)
                            },
                        }
                    }
                },
            }
        }),
        *final(state) == (EditorState {
            text: final(state).text,
            cursor_pos: final(state).cursor_pos,
            message: final(state).message,
            ..*old(state)
        }),
{
    let ghost s = rope_text(state.text);
    match utils::get_pitch_range_at_cursor(state) {
        None => {},
        Some((start, end)) => {
            let pitch = crate::text::rope_slice_string(&state.text, start, end);
            match utils::split_note_name_and_octave(pitch.as_str()) {
                None => {
                    state.message = String::from_str("Failed to parse note for transposition");
                },
                Some((note_name, octave)) => {
                    match calculate_transposition(note_name, octave, delta) {
                        Ok((new_note, _new_octave)) => {
                            proof {
                                assert(new_note@.len() <= 8) by {
                                    let nm = pitch@.subrange(
                                        0,
                                        scan_while(
                                            pitch@,
                                            0,
                                            crate::chars::not_underscore_class(),
                                        ),
                                    );
                                    let got = transpose_spec(
                                        nm,
                                        octave as int,
                                        delta as int,
                                    )->Some_0;
                                    lemma_spelling_len(got.0, got.1);
                                };
                            }
                            replace_note_at_cursor(state, start, end, new_note.as_str());
                        },
                        Err(msg) => {
                            state.message = msg;
                        },
                    }
                },
            }
        },
    }
}

/// A transposed spelling is short: two name characters, the separator and
/// at most one octave digit.
proof fn lemma_spelling_len(full: Seq<char>, o2: int)
    requires
        exists|name: Seq<char>, octave: int, delta: int|
            transpose_spec(name, octave, delta) == Some((full, o2)),
    ensures
        full.len() <= 8,
{
    let (name, octave, delta) = choose|name: Seq<char>, octave: int, delta: int|
        transpose_spec(name, octave, delta) == Some((full, o2));
    let (idx, sharps) = lookup_note_idx(name)->Some_0;
    let np = octave * 12 + idx + delta;
    let no = np / 12;
    crate::chars::lemma_u64_dec_len3(no as nat);
    reveal_strlit("Cn");
    reveal_strlit("Cs");
    reveal_strlit("Dn");
    reveal_strlit("Ds");
    reveal_strlit("En");
    reveal_strlit("Fn");
    reveal_strlit("Fs");
    reveal_strlit("Gn");
    reveal_strlit("Gs");
    reveal_strlit("An");
    reveal_strlit("As");
    reveal_strlit("Bn");
    reveal_strlit("Df");
    reveal_strlit("Ef");
    reveal_strlit("Gf");
    reveal_strlit("Af");
    reveal_strlit("Bf");
}

/// Preparing an empty line grows the text by at most one character, and
/// leaves the cursor inside it.
pub proof fn lemma_prepare_len(s: Seq<char>, cursor: int)
    requires
        0 <= cursor <= s.len(),
    ensures
        prepare_empty_line_spec(s, cursor).0.len() <= s.len() + 1,
{
    crate::text::lemma_cursor_in_line(s, cursor);
    let l = line_of(s, cursor);
    crate::text::lemma_line_start_bounds(s, l);
    crate::text::lemma_line_start_bounds(s, l + 1);
    let line = line_at(s, l);
    if first_non_blank(line) == line.len() {
    } else {
        let eol = line_start(s, l + 1);
        s.insert_ensures(eol, '\n');
    }
}

/// Opening a line below grows the text by exactly one character.
pub proof fn lemma_new_line_len(s: Seq<char>, cursor: int)
    requires
        0 <= cursor <= s.len(),
    ensures
        new_line_below_spec(s, cursor).0.len() == s.len() + 1,
{
    crate::text::lemma_cursor_in_line(s, cursor);
    let l = line_of(s, cursor);
    crate::text::lemma_line_start_bounds(s, l);
    crate::text::lemma_line_start_bounds(s, l + 1);
    let eol = line_start(s, l + 1);
    s.insert_ensures(eol, '\n');
}

/// What inserting a checkpoint line does: an empty line is prepared, a
/// blank separator is kept above, the stars go in, and two fresh lines
/// open below.
pub open spec fn checkpoint_line_spec(s: Seq<char>, cursor: int, length: int) -> (Seq<char>, int) {
    let (s1, c1) = prepare_empty_line_spec(s, cursor);
    let l1 = line_of(s1, c1);
    let needs_gap = l1 > 0 && first_non_blank(line_at(s1, l1 - 1)) != line_at(s1, l1 - 1).len();
    let (s2, c2) = if needs_gap {
        new_line_below_spec(s1, c1)
    } else {
        (s1, c1)
    };
    let stars = Seq::<char>::new(length as nat, |i: int| '*');
    let s3 = s2.take(c2) + stars + s2.skip(c2);
    let c3 = c2 + length;
    let (s4, c4) = new_line_below_spec(s3, c3);
    new_line_below_spec(s4, c4)
}

/// Insert a checkpoint line of the given length at the current cursor
/// position and move the cursor below it.
pub fn insert_checkpoint_line(state: &mut EditorState, length: usize)
    requires
        ed_wf(*old(state)),
        rope_text(old(state).text).len() + length + 8 <= usize::MAX,
    ensures
        ed_wf(*final(state)),
        (rope_text(final(state).text), final(state).cursor_pos as int) == checkpoint_line_spec(
            rope_text(old(state).text),
            old(state).cursor_pos as int,
            length as int,
        ),
        final(state).message@ == "Inserted checkpoint"@,
        *final(state) == (EditorState {
            text: final(state).text,
            cursor_pos: final(state).cursor_pos,
            message: final(state).message,
            ..*old(state)
        }),
{
    proof {
        lemma_prepare_len(rope_text(old(state).text), old(state).cursor_pos as int);
    }
    prepare_empty_line(state);
    let ghost s1 = rope_text(state.text);
    proof {
        crate::text::lemma_cursor_in_line(s1, state.cursor_pos as int);
    }
    let line_idx = crate::text::rope_char_to_line(&state.text, state.cursor_pos);
    if line_idx > 0 {
        let prev_line = crate::text::rope_line_string(&state.text, line_idx - 1);
        let pl = prev_line.as_str().unicode_len();
        let fnb = crate::chars::skip_blanks(prev_line.as_str(), 0);
        if fnb != pl {
            proof {
                lemma_new_line_len(rope_text(state.text), state.cursor_pos as int);
            }
            insert_new_line_below(state);
        }
    }
    let mut stars: Vec<char> = Vec::new();
    let mut i: usize = 0;
    while i < length
        invariant
            i <= length,
            stars@ =~= Seq::<char>::new(i as nat, |k: int| '*'),
        decreases length - i,
    {
        stars.push('*');
        proof {
            assert(stars@ =~= Seq::<char>::new((i + 1) as nat, |k: int| '*'));
        }
        i += 1;
    }
    let star_str = crate::strings::chars_to_string(stars);
    let ghost s2 = rope_text(state.text);
    let ghost c2 = state.cursor_pos as int;
    crate::text::rope_insert(&mut state.text, state.cursor_pos, star_str.as_str());
    state.cursor_pos = state.cursor_pos + length;
    proof {
        lemma_new_line_len(rope_text(state.text), state.cursor_pos as int);
    }
    insert_new_line_below(state);
    proof {
        lemma_new_line_len(rope_text(state.text), state.cursor_pos as int);
    }
    insert_new_line_below(state);
    state.message = String::from_str("Inserted checkpoint");
}

/// Insert a voice command prefix at the current cursor position and switch
/// to insert mode so the name can be typed.
pub fn insert_voice_command(state: &mut EditorState)
    requires
        ed_wf(*old(state)),
        rope_text(old(state).text).len() + 4 <= usize::MAX,
    ensures
        ed_wf(*final(state)),
        ({
            let (s1, c1) = prepare_empty_line_spec(
                rope_text(old(state).text),
                old(state).cursor_pos as int,
            );
            &&& rope_text(final(state).text) == s1.take(c1) + "% "@ + s1.skip(c1)
            &&& final(state).cursor_pos == c1 + 2
        }),
        final(state).mode is Insert,
        final(state).message@ == "Enter voice name"@,
        *final(state) == (EditorState {
            text: final(state).text,
            cursor_pos: final(state).cursor_pos,
            message: final(state).message,
            mode: final(state).mode,
            ..*old(state)
        }),
{
    proof {
        lemma_prepare_len(rope_text(old(state).text), old(state).cursor_pos as int);
    }
    prepare_empty_line(state);
    proof {
        reveal_strlit("% ");
    }
    insert_snippet(state, "% ");
    state.mode = crate::hum_editor::editor_state::Mode::Insert;
    state.message = String::from_str("Enter voice name");
}

} // verus!
