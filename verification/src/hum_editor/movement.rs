//! Cursor movement over the text buffer.
use crate::chars::not_char_class;
use crate::chars::scan_while;
use crate::hum_editor::editor_state::EditorState;
use crate::hum_editor::editor_state::ed_wf;
use crate::text::line_count;
use crate::text::line_of;
use crate::text::line_start;
use crate::text::rope_text;
use vstd::prelude::*;

verus! {

/// Moves the cursor one character to the left.
pub fn move_cursor_left(state: &mut EditorState)
    requires
        ed_wf(*old(state)),
    ensures
        ed_wf(*final(state)),
        final(state).cursor_pos == if old(state).cursor_pos > 0 {
            old(state).cursor_pos - 1
        } else {
            0int
        },
        *final(state) == (EditorState { cursor_pos: final(state).cursor_pos, ..*old(state) }),
{
    if state.cursor_pos > 0 {
        state.cursor_pos -= 1;
    }
}

/// Moves the cursor one character to the right, stopping at the end.
pub fn move_cursor_right(state: &mut EditorState)
    requires
        ed_wf(*old(state)),
    ensures
        ed_wf(*final(state)),
        final(state).cursor_pos == if (old(state).cursor_pos as int) < rope_text(
            old(state).text,
        ).len() {
            old(state).cursor_pos + 1
        } else {
            old(state).cursor_pos as int
        },
        *final(state) == (EditorState { cursor_pos: final(state).cursor_pos, ..*old(state) }),
{
    let len = crate::text::rope_len_chars(&state.text);
    if state.cursor_pos < len {
        state.cursor_pos += 1;
    }
}

/// Where the cursor lands moving one line up, keeping the column when the
/// line above is long enough (its terminating newline excepted).
pub open spec fn cursor_up_spec(s: Seq<char>, cursor: int) -> int {
    let l = line_of(s, cursor);
    if l > 0 {
        let col = cursor - line_start(s, l);
        let prev_len = line_start(s, l) - line_start(s, l - 1);
        let cap = if prev_len > 0 {
            prev_len - 1
        } else {
            0int
        };
        let new_col = if col <= cap {
            col
        } else {
            cap
        };
        line_start(s, l - 1) + new_col
    } else {
        cursor
    }
}

/// Moves the cursor up one line, maintaining the column if possible.
pub fn move_cursor_up(state: &mut EditorState)
    requires
        ed_wf(*old(state)),
    ensures
        ed_wf(*final(state)),
        final(state).cursor_pos == cursor_up_spec(
            rope_text(old(state).text),
            old(state).cursor_pos as int,
        ),
        *final(state) == (EditorState { cursor_pos: final(state).cursor_pos, ..*old(state) }),
{
    let ghost s = rope_text(state.text);
    proof {
        crate::text::lemma_cursor_in_line(s, state.cursor_pos as int);
    }
    let line_idx = crate::text::rope_char_to_line(&state.text, state.cursor_pos);
    if line_idx > 0 {
        proof {
            crate::text::lemma_line_start_bounds(s, line_idx - 1);
        }
        let here = crate::text::rope_line_to_char(&state.text, line_idx);
        let current_col = state.cursor_pos - here;
        let prev_begin = crate::text::rope_line_to_char(&state.text, line_idx - 1);
        let prev_line_len = here - prev_begin;
        let cap = if prev_line_len > 0 {
            prev_line_len - 1
        } else {
            0
        };
        let new_col = if current_col <= cap {
            current_col
        } else {
            cap
        };
        state.cursor_pos = prev_begin + new_col;
    }
}

/// Where the cursor lands moving one line down.
pub open spec fn cursor_down_spec(s: Seq<char>, cursor: int) -> int {
    let l = line_of(s, cursor);
    if l < line_count(s) - 1 {
        let col = cursor - line_start(s, l);
        let next_len = line_start(s, l + 2) - line_start(s, l + 1);
        let cap = if next_len > 0 {
            next_len - 1
        } else {
            0int
        };
        let new_col = if col <= cap {
            col
        } else {
            cap
        };
        line_start(s, l + 1) + new_col
    } else {
        cursor
    }
}

/// Moves the cursor down one line, maintaining the column if possible.
pub fn move_cursor_down(state: &mut EditorState)
    requires
        ed_wf(*old(state)),
        rope_text(old(state).text).len() < usize::MAX,
    ensures
        ed_wf(*final(state)),
        final(state).cursor_pos == cursor_down_spec(
            rope_text(old(state).text),
            old(state).cursor_pos as int,
        ),
        *final(state) == (EditorState { cursor_pos: final(state).cursor_pos, ..*old(state) }),
{
    let ghost s = rope_text(state.text);
    proof {
        crate::text::lemma_cursor_in_line(s, state.cursor_pos as int);
        crate::text::lemma_count_nl_le(s, state.cursor_pos as int, s.len() as int);
    }
    let line_idx = crate::text::rope_char_to_line(&state.text, state.cursor_pos);
    let total = crate::text::rope_len_lines(&state.text);
    if line_idx < total - 1 {
        proof {
            crate::text::lemma_line_start_bounds(s, line_idx + 1);
            crate::text::lemma_line_start_bounds(s, line_idx + 2);
        }
        let here = crate::text::rope_line_to_char(&state.text, line_idx);
        let current_col = state.cursor_pos - here;
        let next_begin = crate::text::rope_line_to_char(&state.text, line_idx + 1);
        let next_end = crate::text::rope_line_to_char(&state.text, line_idx + 2);
        let next_line_len = next_end - next_begin;
        let cap = if next_line_len > 0 {
            next_line_len - 1
        } else {
            0
        };
        let new_col = if current_col <= cap {
            current_col
        } else {
            cap
        };
        state.cursor_pos = next_begin + new_col;
    }
}

/// The first occurrence of `c` at or after `from`, if any.
pub open spec fn find_char_from(s: Seq<char>, from: int, c: char) -> int {
    scan_while(s, from, not_char_class(c))
}

/// Scan the buffer for the first occurrence of `c` at or after `from`.
fn rope_find_char(state: &EditorState, from: usize, c: char) -> (r: usize)
    requires
        from <= rope_text(state.text).len(),
    ensures
        r == find_char_from(rope_text(state.text), from as int, c),
        from <= r <= rope_text(state.text).len(),
        r < rope_text(state.text).len() ==> rope_text(state.text)[r as int] == c,
        forall|k: int| from <= k < r ==> rope_text(state.text)[k] != c,
{
    let ghost s = rope_text(state.text);
    let ghost cls = not_char_class(c);
    let len = crate::text::rope_len_chars(&state.text);
    let mut p = from;
    while p < len && crate::text::rope_char(&state.text, p) != c
        invariant
            from <= p <= len,
            len == s.len(),
            s == rope_text(state.text),
            cls == not_char_class(c),
            scan_while(s, from as int, cls) == scan_while(s, p as int, cls),
            forall|k: int| from <= k < p ==> s[k] != c,
        decreases len - p,
    {
        proof {
            assert(scan_while(s, p as int, cls) == scan_while(s, p + 1, cls));
        }
        p += 1;
    }
    proof {
        assert(scan_while(s, p as int, cls) == p as int);
    }
    p
}

/// The last occurrence of `c` strictly before `from`, if any.
pub open spec fn rfind_char_before(s: Seq<char>, from: int, c: char) -> Option<int>
    decreases from,
{
    if from <= 0 {
        None
    } else if 0 <= from - 1 < s.len() && s[from - 1] == c {
        Some(from - 1)
    } else {
        rfind_char_before(s, from - 1, c)
    }
}

/// Scan the buffer backward for the nearest occurrence of `c` strictly
/// before `from`.
fn rope_rfind_char(state: &EditorState, from: usize, c: char) -> (r: Option<usize>)
    requires
        from <= rope_text(state.text).len(),
    ensures
        match r {
            Some(p) => rfind_char_before(rope_text(state.text), from as int, c) == Some(p as int)
                && p < from,
            None => rfind_char_before(rope_text(state.text), from as int, c) is None,
        },
{
    let ghost s = rope_text(state.text);
    let mut p = from;
    while p > 0
        invariant
            p <= from <= s.len(),
            s == rope_text(state.text),
            rfind_char_before(s, from as int, c) == rfind_char_before(s, p as int, c),
        decreases p,
    {
        if crate::text::rope_char(&state.text, p - 1) == c {
            return Some(p - 1);
        }
        proof {
            assert(rfind_char_before(s, p as int, c) == rfind_char_before(s, p - 1, c));
        }
        p -= 1;
    }
    None
}

/// Where the next-measure motion puts the cursor: on the next bar, or at
/// the end of the current line (before its newline) when no bar follows.
pub open spec fn next_measure_spec(s: Seq<char>, cursor: int) -> (int, bool) {
    let p = find_char_from(s, cursor + 1, '|');
    if p < s.len() {
        (p, false)
    } else {
        let l = line_of(s, cursor);
        let start = line_start(s, l);
        let eol = line_start(s, l + 1);
        let target = if eol > start && s[eol - 1] == '\n' {
            eol - 1
        } else {
            eol
        };
        (target, true)
    }
}

/// Moves the cursor to the next measure bar; if none follows, to the end of
/// the current line, with a message.
pub fn move_to_next_measure(state: &mut EditorState)
    requires
        ed_wf(*old(state)),
        rope_text(old(state).text).len() < usize::MAX,
    ensures
        ed_wf(*final(state)),
        ({
            let (target, fell_back) = next_measure_spec(
                rope_text(old(state).text),
                old(state).cursor_pos as int,
            );
            &&& final(state).cursor_pos == target
            &&& (fell_back ==> final(state).message@ == "Moved to end of line"@)
            &&& (!fell_back ==> final(state).message == old(state).message)
        }),
        *final(state) == (EditorState {
            cursor_pos: final(state).cursor_pos,
            message: final(state).message,
            ..*old(state)
        }),
{
    let ghost s = rope_text(state.text);
    let len = crate::text::rope_len_chars(&state.text);
    let from = if state.cursor_pos < len {
        state.cursor_pos + 1
    } else {
        len
    };
    proof {
        if state.cursor_pos as int + 1 > s.len() {
            // scanning from one past the end finds nothing, like from the end
            assert(scan_while(s, state.cursor_pos + 1, not_char_class('|'))
                == state.cursor_pos + 1) by {
                crate::chars::lemma_scan_while(s, s.len() as int, not_char_class('|'));
            }
        }
    }
    let p = rope_find_char(state, from, '|');
    if p < len {
        proof {
            if state.cursor_pos as int + 1 <= s.len() {
            } else {
                assert(false);
            }
        }
        state.cursor_pos = p;
    } else {
        proof {
            crate::text::lemma_cursor_in_line(s, state.cursor_pos as int);
            crate::text::lemma_line_start_bounds(s, line_of(s, state.cursor_pos as int));
            crate::text::lemma_count_nl_le(s, state.cursor_pos as int, s.len() as int);
        }
        let line_idx = crate::text::rope_char_to_line(&state.text, state.cursor_pos);
        let line_begin = crate::text::rope_line_to_char(&state.text, line_idx);
        let eol = crate::text::rope_line_to_char(&state.text, line_idx + 1);
        let target = if eol > line_begin && crate::text::rope_char(&state.text, eol - 1) == '\n' {
            eol - 1
        } else {
            eol
        };
        state.cursor_pos = target;
        state.message = String::from_str("Moved to end of line");
    }
}

/// Where the previous-measure motion puts the cursor: on the nearest bar
/// before it, or at the start of the current line.
pub open spec fn prev_measure_spec(s: Seq<char>, cursor: int) -> (int, bool) {
    if cursor == 0 {
        (0, false)
    } else {
        match rfind_char_before(s, cursor, '|') {
            Some(p) => (p, false),
            None => (line_start(s, line_of(s, cursor)), true),
        }
    }
}

/// Moves the cursor to the previous measure bar; if none precedes, to the
/// start of the line, with a message.
pub fn move_to_prev_measure(state: &mut EditorState)
    requires
        ed_wf(*old(state)),
    ensures
        ed_wf(*final(state)),
        ({
            let (target, fell_back) = prev_measure_spec(
                rope_text(old(state).text),
                old(state).cursor_pos as int,
            );
            &&& final(state).cursor_pos == target
            &&& (fell_back ==> final(state).message@ == "Moved to start of line"@)
            &&& (!fell_back ==> final(state).message == old(state).message)
        }),
        *final(state) == (EditorState {
            cursor_pos: final(state).cursor_pos,
            message: final(state).message,
            ..*old(state)
        }),
{
    let ghost s = rope_text(state.text);
    if state.cursor_pos == 0 {
        return ;
    }
    match rope_rfind_char(state, state.cursor_pos, '|') {
        Some(p) => {
            state.cursor_pos = p;
        },
        None => {
            proof {
                crate::text::lemma_cursor_in_line(s, state.cursor_pos as int);
            }
            let line_idx = crate::text::rope_char_to_line(&state.text, state.cursor_pos);
            let line_begin = crate::text::rope_line_to_char(&state.text, line_idx);
            proof {
                crate::text::lemma_line_start_bounds(s, line_idx as int);
            }
            state.cursor_pos = line_begin;
            state.message = String::from_str("Moved to start of line");
        },
    }
}

/// Where the next-note motion puts the cursor, when a note opens after it.
pub open spec fn next_note_spec(s: Seq<char>, cursor: int) -> Option<int> {
    let p = find_char_from(s, cursor + 1, '(');
    if p < s.len() {
        Some(p)
    } else {
        None
    }
}

/// Moves the cursor to the start of the next note.
pub fn move_to_next_note(state: &mut EditorState)
    requires
        ed_wf(*old(state)),
        rope_text(old(state).text).len() < usize::MAX,
    ensures
        ed_wf(*final(state)),
        ({
            match next_note_spec(rope_text(old(state).text), old(state).cursor_pos as int) {
                Some(p) => final(state).cursor_pos == p && final(state).message
                    == old(state).message,
                None => final(state).cursor_pos == old(state).cursor_pos
                    && final(state).message@ == "No next note found"@,
            }
        }),
        *final(state) == (EditorState {
            cursor_pos: final(state).cursor_pos,
            message: final(state).message,
            ..*old(state)
        }),
{
    let ghost s = rope_text(state.text);
    let len = crate::text::rope_len_chars(&state.text);
    let from = if state.cursor_pos < len {
        state.cursor_pos + 1
    } else {
        len
    };
    proof {
        if state.cursor_pos as int + 1 > s.len() {
            assert(scan_while(s, state.cursor_pos + 1, not_char_class('(')) == state.cursor_pos
                + 1) by {
                crate::chars::lemma_scan_while(s, s.len() as int, not_char_class('('));
            }
        }
    }
    let p = rope_find_char(state, from, '(');
    if p < len {
        state.cursor_pos = p;
    } else {
        state.message = String::from_str("No next note found");
    }
}

/// Where the previous-note motion puts the cursor, when a note opens
/// before it.
pub open spec fn prev_note_spec(s: Seq<char>, cursor: int) -> Option<int> {
    rfind_char_before(s, cursor, '(')
}

/// Moves the cursor to the start of the previous note.
pub fn move_to_prev_note(state: &mut EditorState)
    requires
        ed_wf(*old(state)),
    ensures
        ed_wf(*final(state)),
        ({
            if old(state).cursor_pos == 0 {
                *final(state) == *old(state)
            } else {
                match prev_note_spec(rope_text(old(state).text), old(state).cursor_pos as int) {
                    Some(p) => final(state).cursor_pos == p && final(state).message
                        == old(state).message,
                    None => final(state).cursor_pos == old(state).cursor_pos
                        && final(state).message@ == "No previous note found"@,
                }
            }
        }),
        *final(state) == (EditorState {
            cursor_pos: final(state).cursor_pos,
            message: final(state).message,
            ..*old(state)
        }),
{
    if state.cursor_pos == 0 {
        return ;
    }
    match rope_rfind_char(state, state.cursor_pos, '(') {
        Some(p) => {
            state.cursor_pos = p;
        },
        None => {
            state.message = String::from_str("No previous note found");
        },
    }
}

} // verus!
