//! Structural addressing: classifying lines and locating the musical
//! element around the cursor by bounded character scanning, without a parse.
use crate::chars::blank_class;
use crate::chars::is_blank_char;
use crate::chars::not_blank_class;
use crate::chars::not_space_class;
use crate::chars::not_underscore_class;
use crate::chars::is_word_char;
use crate::chars::digit_class;
use crate::chars::plus_class;
use crate::chars::scan_back_while;
use crate::chars::scan_while;
use crate::chars::skip_blanks;
use crate::chars::skip_not_blank;
use crate::chars::skip_not_underscore;
use crate::chars::word_class;
use crate::chars::word_char;
use crate::hum_editor::editor_state::EditorState;
use crate::hum_editor::editor_state::ed_wf;
use crate::text::line_at;
use crate::text::line_count;
use crate::text::line_of;
use crate::text::rope_char;
use crate::text::rope_char_to_line;
use crate::text::rope_line_string;
use crate::text::rope_text;
use vstd::prelude::*;

verus! {

/// The character that opens a checkpoint line.
pub const CHECKPOINT_CHAR: char = '*';

/// The character that opens a comment.
pub const COMMENT_CHAR: char = '~';

/// The measure bar.
pub const MEASURE_CHAR: char = '|';

/// The reset character.
pub const RESET_CHAR: char = ';';

/// The character that opens a note.
pub const NOTE_START_CHAR: char = '(';

/// The character that closes a note.
pub const NOTE_END_CHAR: char = ')';

/// The duration dot.
pub const NOTE_DOT_CHAR: char = '+';

/// The separator between a pitch name and its octave.
pub const NOTE_OCTAVE_SEPARATOR: char = '_';

/// The width of a freshly inserted checkpoint line.
pub const DEFAULT_CHECKPOINT_LENGTH: usize = 71;

/// How far the structural scans look in either direction.
pub const PARSE_LOOKBACK_LIMIT: usize = 100;

/// The first index of a line that is not blank.  Blank here is the
/// notation's own trimming class - space, tab, carriage return, newline -
/// not the wider Unicode whitespace set; the two differ only on
/// characters outside the notation's whitespace.
pub open spec fn first_non_blank(s: Seq<char>) -> int {
    scan_while(s, 0, blank_class())
}

/// Whether the first non-blank character of the line is `c`.
pub open spec fn line_starts_with(s: Seq<char>, c: char) -> bool {
    first_non_blank(s) < s.len() && s[first_non_blank(s)] == c
}

/// Whether the line holds character `c` anywhere.
pub open spec fn has_char(s: Seq<char>, c: char) -> bool {
    exists|i: int| 0 <= i < s.len() && s[i] == c
}

/// Whether the line holds the tempo marker `_bpm` anywhere.
pub open spec fn has_bpm_marker(s: Seq<char>) -> bool {
    exists|i: int| 0 <= i && i + 4 <= s.len() && #[trigger] s.subrange(i, i + 4) == "_bpm"@
}

fn starts_with_char(line: &str, c: char) -> (r: bool)
    ensures
        r == line_starts_with(line@, c),
{
    let len = line.unicode_len();
    let j = skip_blanks(line, 0);
    j < len && line.get_char(j) == c
}

/// Checks if a line is a comment line: its first non-blank character is
/// `~`, with blanks being the notation's ASCII trimming class.
pub fn is_comment_line(line: &str) -> (r: bool)
    ensures
        r == line_starts_with(line@, '~'),
{
    starts_with_char(line, '~')
}

/// Checks if a line is a checkpoint line: its first non-blank character is
/// `*`, with blanks being the notation's ASCII trimming class.
pub fn is_checkpoint_line(line: &str) -> (r: bool)
    ensures
        r == line_starts_with(line@, '*'),
{
    starts_with_char(line, '*')
}

/// Checks if a line is a voice command (starts with `%`).
pub fn is_voice_line(line: &str) -> (r: bool)
    ensures
        r == line_starts_with(line@, '%'),
{
    starts_with_char(line, '%')
}

fn contains_char(line: &str, c: char) -> (r: bool)
    ensures
        r == has_char(line@, c),
{
    let len = line.unicode_len();
    let mut i: usize = 0;
    while i < len
        invariant
            i <= len,
            len == line@.len(),
            forall|j: int| 0 <= j < i ==> line@[j] != c,
        decreases len - i,
    {
        if line.get_char(i) == c {
            return true;
        }
        i += 1;
    }
    false
}

/// Checks if a line is a tempo command (contains `_bpm`).
pub fn is_tempo_line(line: &str) -> (r: bool)
    ensures
        r == has_bpm_marker(line@),
{
    proof {
        reveal_strlit("_bpm");
    }
    let len = line.unicode_len();
    if len < 4 {
        proof {
            assert forall|i: int| 0 <= i && i + 4 <= line@.len() implies #[trigger] line@.subrange(
                i,
                i + 4,
            ) != "_bpm"@ by {}
        }
        return false;
    }
    let mut i: usize = 0;
    while i <= len - 4
        invariant
            4 <= len == line@.len(),
            i <= len - 3,
            forall|j: int| 0 <= j < i ==> #[trigger] line@.subrange(j, j + 4) != "_bpm"@,
        decreases len - i,
    {
        if line.get_char(i) == '_' && line.get_char(i + 1) == 'b' && line.get_char(i + 2) == 'p'
            && line.get_char(i + 3) == 'm' {
            proof {
                reveal_strlit("_bpm");
                assert(line@.subrange(i as int, i + 4) =~= "_bpm"@);
            }
            return true;
        }
        proof {
            reveal_strlit("_bpm");
            let sub = line@.subrange(i as int, i + 4);
            assert(sub[0] == line@[i as int] && sub[1] == line@[i + 1] && sub[2] == line@[i + 2]
                && sub[3] == line@[i + 3]);
            assert(sub != "_bpm"@) by {
                if sub == "_bpm"@ {
                    assert(line@[i as int] == '_' && line@[i + 1] == 'b' && line@[i + 2] == 'p'
                        && line@[i + 3] == 'm');
                }
            }
        }
        i += 1;
    }
    proof {
        assert forall|j: int| 0 <= j && j + 4 <= line@.len() implies #[trigger] line@.subrange(
            j,
            j + 4,
        ) != "_bpm"@ by {}
    }
    false
}

/// Checks if a line is a time signature command (contains `[`, `/`, `]`).
pub fn is_time_signature_line(line: &str) -> (r: bool)
    ensures
        r == (has_char(line@, '[') && has_char(line@, '/') && has_char(line@, ']')),
{
    contains_char(line, '[') && contains_char(line, '/') && contains_char(line, ']')
}

/// Constructs a formatted note string `(Name_Octave Duration)Dots`.
pub fn construct_note_text(note_name: &str, octave: i32, duration: &str, dots: &str) -> (r: String)
    ensures
        r@ == seq!['('] + note_name@ + seq!['_'] + crate::chars::i64_dec(octave as int) + seq![' ']
            + duration@ + seq![')'] + dots@,
{
    let mut v: Vec<char> = Vec::new();
    v.push('(');
    crate::strings::push_str_chars(&mut v, note_name);
    v.push('_');
    crate::chars::push_i64_dec(octave as i64, &mut v);
    v.push(' ');
    crate::strings::push_str_chars(&mut v, duration);
    v.push(')');
    crate::strings::push_str_chars(&mut v, dots);
    proof {
        assert(v@ =~= seq!['('] + note_name@ + seq!['_'] + crate::chars::i64_dec(octave as int)
            + seq![' '] + duration@ + seq![')'] + dots@);
    }
    crate::strings::chars_to_string(v)
}

/// The backward scan for an opening parenthesis: from `pos` down, stopping
/// at a closing parenthesis not under the cursor, at the text's start, or
/// when the lookback budget runs out.
pub open spec fn open_scan(s: Seq<char>, pos: int, cursor: int, fuel: int) -> Option<int>
    decreases 100 - fuel,
{
    if fuel >= 100 {
        None
    } else if !(0 <= pos < s.len()) {
        None
    } else if s[pos] == '(' {
        Some(pos)
    } else if s[pos] == ')' && pos != cursor {
        None
    } else if pos == 0 {
        None
    } else {
        open_scan(s, pos - 1, cursor, fuel + 1)
    }
}

/// The forward scan for the closing parenthesis, with the same budget;
/// the result is the index one past it.
pub open spec fn close_scan(s: Seq<char>, pos: int, fuel: int) -> Option<int>
    decreases 100 - fuel,
{
    if fuel >= 100 {
        None
    } else if !(0 <= pos < s.len()) {
        None
    } else if s[pos] == ')' {
        Some(pos + 1)
    } else {
        close_scan(s, pos + 1, fuel + 1)
    }
}

/// The note span around the cursor: the enclosing parentheses found by the
/// bounded scans, extended over trailing dots, provided the cursor lies
/// inside the span.
pub open spec fn note_range_spec(s: Seq<char>, cursor: int) -> Option<(int, int)> {
    if cursor >= s.len() {
        None
    } else {
        match open_scan(s, cursor, cursor, 0) {
            None => None,
            Some(st) => match close_scan(s, st, 0) {
                None => None,
                Some(e1) => {
                    let e2 = scan_while(s, e1, plus_class());
                    if st <= cursor < e2 {
                        Some((st, e2))
                    } else {
                        None
                    }
                },
            },
        }
    }
}

/// What a successful scan pair gives: a parenthesised span in bounds.
pub proof fn lemma_open_scan(s: Seq<char>, pos: int, cursor: int, fuel: int)
    requires
        0 <= pos <= cursor < s.len(),
        open_scan(s, pos, cursor, fuel) is Some,
    ensures
        0 <= open_scan(s, pos, cursor, fuel)->Some_0 <= pos,
        s[open_scan(s, pos, cursor, fuel)->Some_0] == '(',
    decreases 100 - fuel,
{
    if !(fuel >= 100) && s[pos] != '(' && !(s[pos] == ')' && pos != cursor) && pos != 0 {
        lemma_open_scan(s, pos - 1, cursor, fuel + 1);
    }
}

pub proof fn lemma_close_scan(s: Seq<char>, pos: int, fuel: int)
    requires
        0 <= pos,
        close_scan(s, pos, fuel) is Some,
    ensures
        pos < close_scan(s, pos, fuel)->Some_0 <= s.len(),
        s[close_scan(s, pos, fuel)->Some_0 - 1] == ')',
    decreases 100 - fuel,
{
    if !(fuel >= 100) && pos < s.len() && s[pos] != ')' {
        lemma_close_scan(s, pos + 1, fuel + 1);
    }
}

/// Gets the range (start, end) of the note at the current cursor position.
///
/// A note is a sequence enclosed in parentheses, possibly followed by dots;
/// the scans are bounded, and the cursor must land inside the span.
pub fn get_note_range_at_cursor(state: &EditorState) -> (r: Option<(usize, usize)>)
    requires
        ed_wf(*state),
    ensures
        match r {
            Some((a, b)) => {
                &&& note_range_spec(rope_text(state.text), state.cursor_pos as int) == Some(
                    (a as int, b as int),
                )
                &&& a < b <= rope_text(state.text).len()
            },
            None => note_range_spec(rope_text(state.text), state.cursor_pos as int) is None,
        },
{
    let ghost s = rope_text(state.text);
    let len = crate::text::rope_len_chars(&state.text);
    let cursor = state.cursor_pos;
    if cursor >= len {
        return None;
    }
    // scan backwards for the opening parenthesis
    let mut start = cursor;
    let mut i: usize = 0;
    let mut found_open = false;
    loop
        invariant_except_break
            0 <= start <= cursor < len,
            len == s.len(),
            s == rope_text(state.text),
            i <= 100,
            !found_open,
            open_scan(s, cursor as int, cursor as int, 0) == open_scan(
                s,
                start as int,
                cursor as int,
                i as int,
            ),
        ensures
            len == s.len(),
            s == rope_text(state.text),
            found_open ==> 0 <= start <= cursor && open_scan(s, cursor as int, cursor as int, 0)
                == Some(start as int),
            !found_open ==> open_scan(s, cursor as int, cursor as int, 0) is None,
        decreases 100 - i,
    {
        if i >= 100 {
            proof {
                assert(open_scan(s, start as int, cursor as int, i as int) is None);
            }
            break ;
        }
        let c = rope_char(&state.text, start);
        if c == '(' {
            found_open = true;
            proof {
                assert(open_scan(s, start as int, cursor as int, i as int) == Some(start as int));
            }
            break ;
        }
        if c == ')' && start != cursor {
            break ;
        }
        if start == 0 {
            break ;
        }
        start -= 1;
        i += 1;
    }
    if !found_open {
        return None;
    }
    proof {
        lemma_open_scan(s, cursor as int, cursor as int, 0);
    }
    // scan forwards for the closing parenthesis
    let mut end = start;
    let mut found_close = false;
    i = 0;
    loop
        invariant_except_break
            start <= end,
            end <= len,
            len == s.len(),
            s == rope_text(state.text),
            i <= 100,
            !found_close,
            close_scan(s, start as int, 0) == close_scan(s, end as int, i as int),
        ensures
            len == s.len(),
            s == rope_text(state.text),
            start < end <= len || !found_close,
            found_close ==> close_scan(s, start as int, 0) == Some(end as int),
            !found_close ==> close_scan(s, start as int, 0) is None,
        decreases 100 - i,
    {
        if !(end < len && i < 100) {
            proof {
                assert(close_scan(s, end as int, i as int) is None);
            }
            break ;
        }
        let c = rope_char(&state.text, end);
        if c == ')' {
            found_close = true;
            proof {
                assert(close_scan(s, end as int, i as int) == Some(end + 1));
            }
            end += 1;
            break ;
        }
        end += 1;
        i += 1;
    }
    if !found_close {
        return None;
    }
    // extend over trailing dots
    while end < len && rope_char(&state.text, end) == '+'
        invariant
            len == s.len(),
            s == rope_text(state.text),
            end <= len,
            close_scan(s, start as int, 0) is Some,
            scan_while(s, close_scan(s, start as int, 0)->Some_0, plus_class()) == scan_while(
                s,
                end as int,
                plus_class(),
            ),
            close_scan(s, start as int, 0)->Some_0 <= end,
        decreases len - end,
    {
        proof {
            assert(scan_while(s, end as int, plus_class()) == scan_while(s, end + 1, plus_class()));
        }
        end += 1;
    }
    proof {
        assert(scan_while(s, end as int, plus_class()) == end as int);
    }
    if cursor >= start && cursor < end {
        Some((start, end))
    } else {
        None
    }
}

/// The word span around the cursor: the maximal run of alphanumeric and
/// underscore characters covering it.
pub open spec fn word_range_spec(s: Seq<char>, cursor: int) -> Option<(int, int)> {
    if 0 <= cursor < s.len() && is_word_char(s[cursor]) {
        Some((scan_back_while(s, cursor, word_class()), scan_while(s, cursor + 1, word_class())))
    } else {
        None
    }
}

/// Gets the range (start, end) of the word at the current cursor position.
pub fn get_word_range_at_cursor(state: &EditorState) -> (r: Option<(usize, usize)>)
    requires
        ed_wf(*state),
    ensures
        match r {
            Some((a, b)) => {
                &&& word_range_spec(rope_text(state.text), state.cursor_pos as int) == Some(
                    (a as int, b as int),
                )
                &&& a <= state.cursor_pos < b <= rope_text(state.text).len()
            },
            None => word_range_spec(rope_text(state.text), state.cursor_pos as int) is None,
        },
{
    let ghost s = rope_text(state.text);
    let len = crate::text::rope_len_chars(&state.text);
    let cursor = state.cursor_pos;
    if cursor >= len {
        return None;
    }
    if !word_char(rope_char(&state.text, cursor)) {
        return None;
    }
    let mut start = cursor;
    while start > 0 && word_char(rope_char(&state.text, start - 1))
        invariant
            start <= cursor < len,
            len == s.len(),
            s == rope_text(state.text),
            scan_back_while(s, cursor as int, word_class()) == scan_back_while(
                s,
                start as int,
                word_class(),
            ),
        decreases start,
    {
        proof {
            assert(scan_back_while(s, start as int, word_class()) == scan_back_while(
                s,
                start - 1,
                word_class(),
            ));
        }
        start -= 1;
    }
    proof {
        assert(scan_back_while(s, start as int, word_class()) == start as int);
    }
    let mut end = cursor + 1;
    while end < len && word_char(rope_char(&state.text, end))
        invariant
            cursor < end <= len,
            len == s.len(),
            s == rope_text(state.text),
            scan_while(s, cursor + 1, word_class()) == scan_while(s, end as int, word_class()),
        decreases len - end,
    {
        proof {
            assert(scan_while(s, end as int, word_class()) == scan_while(s, end + 1, word_class()));
        }
        end += 1;
    }
    proof {
        assert(scan_while(s, end as int, word_class()) == end as int);
    }
    Some((start, end))
}

/// The pitch span inside the note at the cursor: from just after the
/// opening parenthesis to the first space.
pub open spec fn pitch_range_spec(s: Seq<char>, cursor: int) -> Option<(int, int)> {
    match note_range_spec(s, cursor) {
        None => None,
        Some((st, en)) => {
            let sp = scan_while(s, st + 1, not_space_class());
            if sp < en {
                Some((st + 1, sp))
            } else {
                None
            }
        },
    }
}

/// Gets the range (start, end) of the pitch part of the note at the cursor:
/// the text between the opening parenthesis and the first space.
pub fn get_pitch_range_at_cursor(state: &EditorState) -> (r: Option<(usize, usize)>)
    requires
        ed_wf(*state),
    ensures
        match r {
            Some((a, b)) => {
                &&& pitch_range_spec(rope_text(state.text), state.cursor_pos as int) == Some(
                    (a as int, b as int),
                )
                &&& a <= b <= rope_text(state.text).len()
            },
            None => pitch_range_spec(rope_text(state.text), state.cursor_pos as int) is None,
        },
{
    let ghost s = rope_text(state.text);
    match get_note_range_at_cursor(state) {
        None => None,
        Some((st, en)) => {
            let mut sp = st + 1;
            while sp < en && rope_char(&state.text, sp) != ' '
                invariant
                    st + 1 <= sp <= en <= s.len(),
                    s == rope_text(state.text),
                    scan_while(s, st + 1, not_space_class()) == scan_while(
                        s,
                        sp as int,
                        not_space_class(),
                    ),
                decreases en - sp,
            {
                proof {
                    assert(scan_while(s, sp as int, not_space_class()) == scan_while(
                        s,
                        sp + 1,
                        not_space_class(),
                    ));
                }
                sp += 1;
            }
            if sp < en {
                proof {
                    assert(scan_while(s, sp as int, not_space_class()) == sp as int);
                }
                Some((st + 1, sp))
            } else {
                proof {
                    crate::chars::lemma_scan_while(s, sp as int, not_space_class());
                    if sp < s.len() && s[sp as int] != ' ' {
                        assert(scan_while(s, sp as int, not_space_class()) > sp as int);
                    }
                }
                None
            }
        },
    }
}

/// The numeric value of a signed decimal text, if it is one: an optional
/// sign, then at least one digit, with the value inside the given range.
pub open spec fn parse_i32_spec(s: Seq<char>) -> Option<int> {
    let (neg, body) = if s.len() > 0 && (s[0] == '-' || s[0] == '+') {
        (s[0] == '-', s.skip(1))
    } else {
        (false, s)
    };
    if body.len() > 0 && scan_while(body, 0, digit_class()) == body.len() {
        let v = if neg {
            -(crate::chars::digits_val(body) as int)
        } else {
            crate::chars::digits_val(body) as int
        };
        if i32::MIN <= v <= i32::MAX {
            Some(v)
        } else {
            None
        }
    } else {
        None
    }
}

/// Splits a note identifier such as `C_4` into its name and octave; the
/// text must hold exactly one underscore and a numeric octave.
pub fn split_note_name_and_octave<'a>(note: &'a str) -> (r: Option<(&'a str, i32)>)
    ensures
        match r {
            Some((name, octave)) => {
                let u = scan_while(note@, 0, not_underscore_class());
                &&& u < note@.len()
                &&& note@[u] == '_'
                &&& scan_while(note@, u + 1, not_underscore_class()) == note@.len()
                &&& name@ == note@.subrange(0, u)
                &&& parse_i32_spec(note@.subrange(u + 1, note@.len() as int)) == Some(octave as int)
            },
            None => {
                let u = scan_while(note@, 0, not_underscore_class());
                u >= note@.len() || scan_while(note@, u + 1, not_underscore_class())
                    != note@.len() || parse_i32_spec(
                    note@.subrange(u + 1, note@.len() as int),
                ) is None
            },
        },
{
    let len = note.unicode_len();
    let u = skip_not_underscore(note, 0);
    proof {
        crate::chars::lemma_scan_while(note@, 0, not_underscore_class());
    }
    if u >= len {
        return None;
    }
    let u2 = skip_not_underscore(note, u + 1);
    if u2 != len {
        proof {
            crate::chars::lemma_scan_while(note@, u as int, not_underscore_class());
        }
        return None;
    }
    proof {
        crate::chars::lemma_scan_while(note@, u as int, not_underscore_class());
    }
    let octave_part = note.substring_char(u + 1, len);
    let name_part = note.substring_char(0, u);
    match parse_i32(octave_part) {
        Some(o) => Some((name_part, o)),
        None => None,
    }
}

/// Parse a signed decimal `i32`, mirroring [`parse_i32_spec`].
pub fn parse_i32(s: &str) -> (r: Option<i32>)
    ensures
        match r {
            Some(v) => parse_i32_spec(s@) == Some(v as int),
            None => parse_i32_spec(s@) is None,
        },
{
    let len = s.unicode_len();
    let (neg, from) = if len > 0 && (s.get_char(0) == '-' || s.get_char(0) == '+') {
        (s.get_char(0) == '-', 1usize)
    } else {
        (false, 0usize)
    };
    let ghost body = s@.skip(from as int);
    let d = crate::chars::skip_digits(s, from);
    proof {
        crate::chars::lemma_scan_while_shift(s@.take(from as int), body, 0, digit_class());
        assert(s@.take(from as int) + body =~= s@);
        crate::chars::lemma_scan_while(s@, from as int, digit_class());
    }
    if from >= len || d != len {
        proof {
            if from < len {
                assert(scan_while(body, 0, digit_class()) == d - from);
            }
        }
        return None;
    }
    proof {
        assert(scan_while(body, 0, digit_class()) == d - from == body.len());
        assert(body =~= s@.subrange(from as int, len as int));
    }
    match crate::chars::parse_u64_digits(s, from, len) {
        Some(v) => {
            if neg {
                if v <= 0x8000_0000u64 {
                    let nv: i64 = -(v as i64);
                    Some(nv as i32)
                } else {
                    None
                }
            } else {
                if v <= 0x7fff_ffffu64 {
                    Some(v as i32)
                } else {
                    None
                }
            }
        },
        None => None,
    }
}

/// What a voice line yields: the second blank-separated token, when the
/// first non-blank character is `%` and a second token exists.
pub open spec fn line_voice(ls: Seq<char>) -> Option<Seq<char>> {
    let j = scan_while(ls, 0, blank_class());
    if j < ls.len() && ls[j] == '%' {
        let t1 = scan_while(ls, j, not_blank_class());
        let k = scan_while(ls, t1, blank_class());
        let t2 = scan_while(ls, k, not_blank_class());
        if t2 > k {
            Some(ls.subrange(k, t2))
        } else {
            None
        }
    } else {
        None
    }
}

/// The voice active at line `l`: the nearest voice line at or above it, or
/// the default sine voice.
pub open spec fn voice_from(s: Seq<char>, l: int) -> Seq<char>
    decreases l,
{
    match line_voice(line_at(s, l)) {
        Some(v) => v,
        None => if l <= 0 {
            "sine"@
        } else {
            voice_from(s, l - 1)
        },
    }
}

/// The voice a single line names, if any: mirrors [`line_voice`].
fn line_voice_exec(line: &str) -> (r: Option<String>)
    ensures
        match r {
            Some(v) => line_voice(line@) == Some(v@),
            None => line_voice(line@) is None,
        },
{
    let llen = line.unicode_len();
    let j = skip_blanks(line, 0);
    if j < llen && line.get_char(j) == '%' {
        let t1 = skip_not_blank(line, j);
        let k = skip_blanks(line, t1);
        let t2 = skip_not_blank(line, k);
        if t2 > k {
            Some(String::from_str(line.substring_char(k, t2)))
        } else {
            None
        }
    } else {
        None
    }
}

/// Gets the name of the active voice at the current cursor position,
/// scanning backwards for the nearest `% name` line; defaults to `sine`.
pub fn get_voice_at_cursor(state: &EditorState) -> (r: String)
    requires
        ed_wf(*state),
    ensures
        r@ == voice_from(
            rope_text(state.text),
            line_of(rope_text(state.text), state.cursor_pos as int),
        ),
{
    let ghost s = rope_text(state.text);
    proof {
        crate::text::lemma_cursor_in_line(s, state.cursor_pos as int);
    }
    let line_idx = rope_char_to_line(&state.text, state.cursor_pos);
    let mut li = line_idx;
    loop
        invariant
            0 <= li <= line_idx,
            s == rope_text(state.text),
            line_idx < line_count(s),
            line_idx == line_of(s, state.cursor_pos as int),
            voice_from(s, line_idx as int) == voice_from(s, li as int),
        decreases li,
    {
        let line = rope_line_string(&state.text, li);
        match line_voice_exec(line.as_str()) {
            Some(v) => {
                return v;
            },
            None => {
                if li == 0 {
                    proof {
                        reveal_strlit("sine");
                        assert(voice_from(s, 0) == "sine"@);
                    }
                    return String::from_str("sine");
                }
                li -= 1;
            },
        }
    }
}

} // verus!
