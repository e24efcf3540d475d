//! The editor's state: the text buffer, cursor, mode, settings and the
//! undo/redo history.
use crate::chars::not_underscore_class;
use crate::chars::scan_while;
use crate::hum_editor::editing::delete_target;
use crate::hum_editor::editing::lookup_note_idx;
use crate::hum_editor::editing::prepare_empty_line_spec;
use crate::hum_editor::editing::transpose_spec;
use crate::hum_editor::movement::next_note_spec;
use crate::hum_editor::movement::prev_note_spec;
use crate::hum_editor::utils::parse_i32_spec;
use crate::hum_editor::utils::pitch_range_spec;
use crate::text::line_count;
use crate::text::rope_text;
use ropey::Rope;
use vstd::prelude::*;

verus! {

/// The current editing mode.
#[derive(Debug, Clone, Copy, PartialEq, Eq, Structural)]
pub enum Mode {
    /// Normal mode for navigation and command execution.
    Normal,
    /// Insert mode for typing text.
    Insert,
}

/// The global state of the editor.
///
/// The audio-playback command and process handle live with the caller that
/// owns the audio device; everything the text logic reads or writes is
/// here.
pub struct EditorState {
    /// The text buffer being edited.
    pub text: Rope,
    /// The current editing mode.
    pub mode: Mode,
    /// The current cursor position (character index).
    pub cursor_pos: usize,
    /// The vertical scroll offset (line index).
    pub scroll_offset: usize,
    /// The horizontal scroll offset (column index).
    pub col_scroll_offset: usize,
    /// The name of the file being edited, if any.
    pub filename: Option<String>,
    /// A status message to display to the user.
    pub message: String,
    /// The current octave for note insertion.
    pub current_octave: u8,
    /// The current duration for note insertion.
    pub current_duration: String,
    /// The stack of undoable states: buffer snapshots with their cursors.
    pub undo_stack: Vec<(Rope, usize)>,
    /// The stack of redoable states.
    pub redo_stack: Vec<(Rope, usize)>,
    /// Whether to show the help screen.
    pub show_help: bool,
    /// Scroll offset for the help screen.
    pub help_scroll_offset: u16,
}

/// Well-formedness: the cursor and every snapshot cursor sit inside their
/// buffers.
pub open spec fn ed_wf(s: EditorState) -> bool {
    &&& s.cursor_pos <= rope_text(s.text).len()
    &&& forall|i: int|
        0 <= i < s.undo_stack@.len() ==> #[trigger] s.undo_stack@[i].1 <= rope_text(
            s.undo_stack@[i].0,
        ).len()
    &&& forall|i: int|
        0 <= i < s.redo_stack@.len() ==> #[trigger] s.redo_stack@[i].1 <= rope_text(
            s.redo_stack@[i].0,
        ).len()
}

impl Default for EditorState {
    /// A fresh editor: empty buffer, normal mode, cursor at the start, the
    /// fourth octave and a quarter-note duration.
    fn default() -> (s: EditorState)
        ensures
            ed_wf(s),
            rope_text(s.text) == Seq::<char>::empty(),
            s.mode is Normal,
            s.cursor_pos == 0,
            s.scroll_offset == 0,
            s.col_scroll_offset == 0,
            s.filename is None,
            s.message@ == Seq::<char>::empty(),
            s.current_octave == 4,
            s.current_duration@ == "1/4"@,
            s.undo_stack@.len() == 0,
            s.redo_stack@.len() == 0,
            !s.show_help,
            s.help_scroll_offset == 0,
    {
        EditorState {
            text: crate::text::rope_new(),
            mode: Mode::Normal,
            cursor_pos: 0,
            scroll_offset: 0,
            col_scroll_offset: 0,
            filename: None,
            message: String::new(),
            current_octave: 4,
            current_duration: String::from_str("1/4"),
            undo_stack: Vec::new(),
            redo_stack: Vec::new(),
            show_help: false,
            help_scroll_offset: 0,
        }
    }
}

/// A snapshot of the buffer and cursor was pushed for undo, and the redo
/// history was cleared; everything else is unchanged.
pub open spec fn snapshot_pushed(a: EditorState, b: EditorState) -> bool {
    &&& b.undo_stack@.len() == a.undo_stack@.len() + 1
    &&& forall|i: int| 0 <= i < a.undo_stack@.len() ==> b.undo_stack@[i] == a.undo_stack@[i]
    &&& rope_text(b.undo_stack@.last().0) == rope_text(a.text)
    &&& b.undo_stack@.last().1 == a.cursor_pos
    &&& b.redo_stack@.len() == 0
}

impl EditorState {
    /// Saves the current buffer and cursor to the undo stack; any new edit
    /// clears the redo history.
    pub fn save_snapshot(&mut self)
        requires
            ed_wf(*old(self)),
        ensures
            ed_wf(*final(self)),
            snapshot_pushed(*old(self), *final(self)),
            *final(self) == (EditorState {
                undo_stack: final(self).undo_stack,
                redo_stack: final(self).redo_stack,
                ..*old(self)
            }),
    {
        let snap = crate::text::rope_clone(&self.text);
        self.undo_stack.push((snap, self.cursor_pos));
        self.redo_stack = Vec::new();
    }

    /// Undoes the last action: the newest snapshot is restored and the
    /// displaced state moves to the redo stack; with no history, only the
    /// status message changes.
    pub fn undo(&mut self)
        requires
            ed_wf(*old(self)),
        ensures
            ed_wf(*final(self)),
            old(self).undo_stack@.len() == 0 ==> final(self).message@
                == "Already at oldest change"@ && *final(self) == (EditorState {
                message: final(self).message,
                ..*old(self)
            }),
            old(self).undo_stack@.len() > 0 ==> {
                &&& final(self).text == old(self).undo_stack@.last().0
                &&& final(self).cursor_pos == old(self).undo_stack@.last().1
                &&& final(self).undo_stack@ == old(self).undo_stack@.drop_last()
                &&& final(self).redo_stack@.len() == old(self).redo_stack@.len() + 1
                &&& forall|i: int|
                    0 <= i < old(self).redo_stack@.len() ==> final(self).redo_stack@[i] == old(
                        self,
                    ).redo_stack@[i]
                &&& rope_text(final(self).redo_stack@.last().0) == rope_text(old(self).text)
                &&& final(self).redo_stack@.last().1 == old(self).cursor_pos
                &&& final(self).message@ == "Undo"@
                &&& *final(self) == (EditorState {
                    text: final(self).text,
                    cursor_pos: final(self).cursor_pos,
                    undo_stack: final(self).undo_stack,
                    redo_stack: final(self).redo_stack,
                    message: final(self).message,
                    ..*old(self)
                })
            },
    {
        if self.undo_stack.len() == 0 {
            self.message = String::from_str("Already at oldest change");
            return ;
        }
        match self.undo_stack.pop() {
            Some((text, cursor_pos)) => {
                let snap = crate::text::rope_clone(&self.text);
                self.redo_stack.push((snap, self.cursor_pos));
                self.text = text;
                self.cursor_pos = cursor_pos;
                self.message = String::from_str("Undo");
            },
            None => {},
        }
    }

    /// Redoes the last undone action: the inverse of [`EditorState::undo`].
    pub fn redo(&mut self)
        requires
            ed_wf(*old(self)),
        ensures
            ed_wf(*final(self)),
            old(self).redo_stack@.len() == 0 ==> final(self).message@
                == "Already at newest change"@ && *final(self) == (EditorState {
                message: final(self).message,
                ..*old(self)
            }),
            old(self).redo_stack@.len() > 0 ==> {
                &&& final(self).text == old(self).redo_stack@.last().0
                &&& final(self).cursor_pos == old(self).redo_stack@.last().1
                &&& final(self).redo_stack@ == old(self).redo_stack@.drop_last()
                &&& final(self).undo_stack@.len() == old(self).undo_stack@.len() + 1
                &&& forall|i: int|
                    0 <= i < old(self).undo_stack@.len() ==> final(self).undo_stack@[i] == old(
                        self,
                    ).undo_stack@[i]
                &&& rope_text(final(self).undo_stack@.last().0) == rope_text(old(self).text)
                &&& final(self).undo_stack@.last().1 == old(self).cursor_pos
                &&& final(self).message@ == "Redo"@
                &&& *final(self) == (EditorState {
                    text: final(self).text,
                    cursor_pos: final(self).cursor_pos,
                    undo_stack: final(self).undo_stack,
                    redo_stack: final(self).redo_stack,
                    message: final(self).message,
                    ..*old(self)
                })
            },
    {
        if self.redo_stack.len() == 0 {
            self.message = String::from_str("Already at newest change");
            return ;
        }
        match self.redo_stack.pop() {
            Some((text, cursor_pos)) => {
                let snap = crate::text::rope_clone(&self.text);
                self.undo_stack.push((snap, self.cursor_pos));
                self.text = text;
                self.cursor_pos = cursor_pos;
                self.message = String::from_str("Redo");
            },
            None => {},
        }
    }

    /// Increments the current octave, clamping at the highest one.
    pub fn increment_octave(&mut self)
        requires
            ed_wf(*old(self)),
        ensures
            ed_wf(*final(self)),
            old(self).current_octave < 7 ==> final(self).current_octave == old(
                self,
            ).current_octave + 1 && final(self).message@ == "Octave: "@ + crate::chars::u64_dec(
                final(self).current_octave as nat,
            ),
            old(self).current_octave >= 7 ==> *final(self) == *old(self),
            *final(self) == (EditorState {
                current_octave: final(self).current_octave,
                message: final(self).message,
                ..*old(self)
            }),
    {
        if self.current_octave < crate::hum_process::hum_math::HIGHEST_OCTAVE {
            self.current_octave = self.current_octave + 1;
            let mut v: Vec<char> = Vec::new();
            crate::chars::push_u64_dec(self.current_octave as u64, &mut v);
            self.message = String::from_str("Octave: ").concat(
                crate::strings::chars_to_string(v).as_str(),
            );
        }
    }

    /// Decrements the current octave, clamping at the lowest one.
    pub fn decrement_octave(&mut self)
        requires
            ed_wf(*old(self)),
        ensures
            ed_wf(*final(self)),
            old(self).current_octave > 0 ==> final(self).current_octave == old(
                self,
            ).current_octave - 1 && final(self).message@ == "Octave: "@ + crate::chars::u64_dec(
                final(self).current_octave as nat,
            ),
            old(self).current_octave == 0 ==> *final(self) == *old(self),
            *final(self) == (EditorState {
                current_octave: final(self).current_octave,
                message: final(self).message,
                ..*old(self)
            }),
    {
        if self.current_octave > crate::hum_process::hum_math::LOWEST_OCTAVE {
            self.current_octave = self.current_octave - 1;
            let mut v: Vec<char> = Vec::new();
            crate::chars::push_u64_dec(self.current_octave as u64, &mut v);
            self.message = String::from_str("Octave: ").concat(
                crate::strings::chars_to_string(v).as_str(),
            );
        }
    }

    /// Sets the current duration for note insertion.
    pub fn set_duration(&mut self, duration: &str)
        requires
            ed_wf(*old(self)),
        ensures
            ed_wf(*final(self)),
            final(self).current_duration@ == duration@,
            final(self).message@ == "Duration: "@ + duration@,
            *final(self) == (EditorState {
                current_duration: final(self).current_duration,
                message: final(self).message,
                ..*old(self)
            }),
    {
        self.current_duration = String::from_str(duration);
        self.message = String::from_str("Duration: ").concat(duration);
    }

    /// Adjusts the scroll offsets so that the cursor stays visible inside a
    /// viewport of the given width and height.
    pub fn scroll_into_view(&mut self, width: usize, height: usize)
        requires
            ed_wf(*old(self)),
            rope_text(old(self).text).len() < usize::MAX,
        ensures
            ed_wf(*final(self)),
            ({
                let s = rope_text(old(self).text);
                let cl = crate::text::line_of(s, old(self).cursor_pos as int);
                let so = if cl < old(self).scroll_offset {
                    cl
                } else if cl >= old(self).scroll_offset + height {
                    cl - height + 1
                } else {
                    old(self).scroll_offset as int
                };
                let col = old(self).cursor_pos - crate::text::line_start(s, cl);
                let cso = if col < old(self).col_scroll_offset {
                    col
                } else if col >= old(self).col_scroll_offset + width {
                    col - width + 1
                } else {
                    old(self).col_scroll_offset as int
                };
                final(self).scroll_offset == so && final(self).col_scroll_offset == cso
            }),
            *final(self) == (EditorState {
                scroll_offset: final(self).scroll_offset,
                col_scroll_offset: final(self).col_scroll_offset,
                ..*old(self)
            }),
    {
        let ghost s = rope_text(self.text);
        proof {
            crate::text::lemma_cursor_in_line(s, self.cursor_pos as int);
            crate::text::lemma_count_nl_le(s, self.cursor_pos as int, s.len() as int);
        }
        let cursor_line = crate::text::rope_char_to_line(&self.text, self.cursor_pos);
        if cursor_line < self.scroll_offset {
            self.scroll_offset = cursor_line;
        } else if cursor_line - self.scroll_offset >= height {
            self.scroll_offset = cursor_line - height + 1;
        }
        let line_start_char = crate::text::rope_line_to_char(&self.text, cursor_line);
        let cursor_col = self.cursor_pos - line_start_char;
        if cursor_col < self.col_scroll_offset {
            self.col_scroll_offset = cursor_col;
        } else if cursor_col - self.col_scroll_offset >= width {
            self.col_scroll_offset = cursor_col - width + 1;
        }
    }
}


impl EditorState {
    /// Inserts a character at the cursor, with an undo snapshot first.
    pub fn insert_char(&mut self, c: char)
        requires
            ed_wf(*old(self)),
            rope_text(old(self).text).len() < usize::MAX,
        ensures
            ed_wf(*final(self)),
            snapshot_pushed(*old(self), *final(self)),
            rope_text(final(self).text) == rope_text(old(self).text).insert(
                old(self).cursor_pos as int,
                c,
            ),
            final(self).cursor_pos == old(self).cursor_pos + 1,
            *final(self) == (EditorState {
                text: final(self).text,
                cursor_pos: final(self).cursor_pos,
                undo_stack: final(self).undo_stack,
                redo_stack: final(self).redo_stack,
                ..*old(self)
            }),
    {
        self.save_snapshot();
        crate::hum_editor::editing::insert_char(self, c)
    }

    /// Inserts a new line below the current one, with an undo snapshot.
    pub fn insert_new_line_below(&mut self)
        requires
            ed_wf(*old(self)),
            rope_text(old(self).text).len() < usize::MAX,
        ensures
            ed_wf(*final(self)),
            snapshot_pushed(*old(self), *final(self)),
            (rope_text(final(self).text), final(self).cursor_pos as int)
                == crate::hum_editor::editing::new_line_below_spec(
                rope_text(old(self).text),
                old(self).cursor_pos as int,
            ),
            *final(self) == (EditorState {
                text: final(self).text,
                cursor_pos: final(self).cursor_pos,
                undo_stack: final(self).undo_stack,
                redo_stack: final(self).redo_stack,
                ..*old(self)
            }),
    {
        self.save_snapshot();
        crate::hum_editor::editing::insert_new_line_below(self)
    }

    /// Deletes the character before the cursor, with an undo snapshot.
    pub fn delete_char(&mut self)
        requires
            ed_wf(*old(self)),
        ensures
            ed_wf(*final(self)),
            snapshot_pushed(*old(self), *final(self)),
            old(self).cursor_pos > 0 ==> rope_text(final(self).text) == rope_text(
                old(self).text,
            ).take(old(self).cursor_pos - 1) + rope_text(old(self).text).skip(
                old(self).cursor_pos as int,
            ) && final(self).cursor_pos == old(self).cursor_pos - 1,
            old(self).cursor_pos == 0 ==> rope_text(final(self).text) == rope_text(
                old(self).text,
            ) && final(self).cursor_pos == 0,
            *final(self) == (EditorState {
                text: final(self).text,
                cursor_pos: final(self).cursor_pos,
                undo_stack: final(self).undo_stack,
                redo_stack: final(self).redo_stack,
                ..*old(self)
            }),
    {
        self.save_snapshot();
        crate::hum_editor::editing::delete_char(self)
    }

    /// Inserts a text snippet at the cursor, with an undo snapshot.
    pub fn insert_snippet(&mut self, snippet: &str)
        requires
            ed_wf(*old(self)),
            rope_text(old(self).text).len() + snippet@.len() <= usize::MAX,
        ensures
            ed_wf(*final(self)),
            snapshot_pushed(*old(self), *final(self)),
            rope_text(final(self).text) == rope_text(old(self).text).take(
                old(self).cursor_pos as int,
            ) + snippet@ + rope_text(old(self).text).skip(old(self).cursor_pos as int),
            final(self).cursor_pos == old(self).cursor_pos + snippet@.len(),
            *final(self) == (EditorState {
                text: final(self).text,
                cursor_pos: final(self).cursor_pos,
                message: final(self).message,
                undo_stack: final(self).undo_stack,
                redo_stack: final(self).redo_stack,
                ..*old(self)
            }),
    {
        self.save_snapshot();
        crate::hum_editor::editing::insert_snippet(self, snippet)
    }

    /// Inserts a note with the current octave and duration, with a snapshot.
    pub fn insert_note(&mut self, note_char: char)
        requires
            ed_wf(*old(self)),
            rope_text(old(self).text).len() + old(self).current_duration@.len() + 32
                <= usize::MAX,
        ensures
            ed_wf(*final(self)),
            snapshot_pushed(*old(self), *final(self)),
            ({
                let note = crate::hum_editor::editing::inserted_note_text(
                    note_char,
                    old(self).current_octave as int,
                    old(self).current_duration@,
                );
                rope_text(final(self).text) == rope_text(old(self).text).take(
                    old(self).cursor_pos as int,
                ) + note + rope_text(old(self).text).skip(old(self).cursor_pos as int)
            }),
    {
        self.save_snapshot();
        crate::hum_editor::editing::insert_note(self, note_char)
    }

    /// Inserts a rest with the current duration, with a snapshot.
    pub fn insert_rest(&mut self)
        requires
            ed_wf(*old(self)),
            rope_text(old(self).text).len() + old(self).current_duration@.len() + 32
                <= usize::MAX,
        ensures
            ed_wf(*final(self)),
            snapshot_pushed(*old(self), *final(self)),
            ({
                let note = crate::hum_editor::editing::inserted_rest_text(
                    old(self).current_duration@,
                );
                rope_text(final(self).text) == rope_text(old(self).text).take(
                    old(self).cursor_pos as int,
                ) + note + rope_text(old(self).text).skip(old(self).cursor_pos as int)
            }),
    {
        self.save_snapshot();
        crate::hum_editor::editing::insert_rest(self)
    }

    /// Transposes the note at the cursor by the given delta, with a
    /// snapshot; failures only set the status message.
    pub fn transpose_note(&mut self, delta: i32)
        requires
            ed_wf(*old(self)),
            rope_text(old(self).text).len() + 8 <= usize::MAX,
        ensures
            ed_wf(*final(self)),
            snapshot_pushed(*old(self), *final(self)),
            ({
                let s = rope_text(old(self).text);
                match pitch_range_spec(s, old(self).cursor_pos as int) {
                    None => rope_text(final(self).text) == s && final(self).cursor_pos == old(
                        self,
                    ).cursor_pos && final(self).message == old(self).message,
                    Some((a, b)) => {
                        let pitch = s.subrange(a, b);
                        let u = scan_while(pitch, 0, not_underscore_class());
                        let split_ok = u < pitch.len() && scan_while(
                            pitch,
                            u + 1,
                            not_underscore_class(),
                        ) == pitch.len() && parse_i32_spec(
                            pitch.subrange(u + 1, pitch.len() as int),
                        ) is Some;
                        if !split_ok {
                            &&& rope_text(final(self).text) == s
                            &&& final(self).message@
                                == "Failed to parse note for transposition"@
                        } else {
                            let name = pitch.subrange(0, u);
                            let oct = parse_i32_spec(
                                pitch.subrange(u + 1, pitch.len() as int),
                            )->Some_0;
                            match transpose_spec(name, oct, delta as int) {
                                Some((new_note, _)) => {
                                    &&& rope_text(final(self).text) == s.take(a) + new_note
                                        + s.skip(b)
                                    &&& final(self).message@ == "Transposed to "@ + new_note
                                },
                                None => {
                                    &&& rope_text(final(self).text) == s
                                    &&& (lookup_note_idx(name) is None ==> final(self).message@
                                        == "Invalid note name"@)
                                },
                            }
                        }
                    },
                }
            }),
            *final(self) == (EditorState {
                text: final(self).text,
                cursor_pos: final(self).cursor_pos,
                message: final(self).message,
                undo_stack: final(self).undo_stack,
                redo_stack: final(self).redo_stack,
                ..*old(self)
            }),
    {
        self.save_snapshot();
        crate::hum_editor::editing::transpose_note(self, delta)
    }

    /// Deletes the note (or word) at the cursor, with a snapshot: the
    /// target span and a following space go, and the cursor lands at its
    /// start; with no target under the cursor the text stays.
    pub fn delete_note(&mut self)
        requires
            ed_wf(*old(self)),
        ensures
            ed_wf(*final(self)),
            snapshot_pushed(*old(self), *final(self)),
            ({
                let s = rope_text(old(self).text);
                match delete_target(s, old(self).cursor_pos as int) {
                    Some((a, b)) => {
                        let s2 = s.take(a) + s.skip(b);
                        let dropped_space = a < s2.len() && s2[a] == ' ';
                        &&& rope_text(final(self).text) == if dropped_space {
                            s2.take(a) + s2.skip(a + 1)
                        } else {
                            s2
                        }
                        &&& final(self).cursor_pos == a
                        &&& final(self).message@ == "Deleted "@ + s.subrange(a, b)
                    },
                    None => rope_text(final(self).text) == s && final(self).cursor_pos == old(
                        self,
                    ).cursor_pos && final(self).message == old(self).message,
                }
            }),
            *final(self) == (EditorState {
                text: final(self).text,
                cursor_pos: final(self).cursor_pos,
                message: final(self).message,
                undo_stack: final(self).undo_stack,
                redo_stack: final(self).redo_stack,
                ..*old(self)
            }),
    {
        self.save_snapshot();
        crate::hum_editor::editing::delete_note(self)
    }

    /// Adds a dot to the current duration setting.
    pub fn add_dot_to_duration(&mut self)
        requires
            ed_wf(*old(self)),
        ensures
            ed_wf(*final(self)),
            final(self).current_duration@ == old(self).current_duration@ + "+"@,
            *final(self) == (EditorState {
                current_duration: final(self).current_duration,
                ..*old(self)
            }),
    {
        crate::hum_editor::editing::add_dot_to_duration(self)
    }

    /// Removes a trailing dot from the current duration setting.
    pub fn remove_dot_from_duration(&mut self)
        requires
            ed_wf(*old(self)),
        ensures
            ed_wf(*final(self)),
            ({
                let d = old(self).current_duration@;
                if d.len() > 0 && d.last() == '+' {
                    final(self).current_duration@ == d.drop_last()
                } else {
                    final(self).current_duration@ == d
                }
            }),
            *final(self) == (EditorState {
                current_duration: final(self).current_duration,
                ..*old(self)
            }),
    {
        crate::hum_editor::editing::remove_dot_from_duration(self)
    }

    /// Formats the entire file in place, with an undo snapshot; the cursor
    /// is clamped to the new text.
    pub fn format_file(&mut self)
        requires
            ed_wf(*old(self)),
            line_count(rope_text(old(self).text)) < usize::MAX,
        ensures
            ed_wf(*final(self)),
            snapshot_pushed(*old(self), *final(self)),
            rope_text(final(self).text) == crate::hum_editor::formatting::format_buffer_spec(
                rope_text(old(self).text),
            ),
            final(self).cursor_pos == if old(self).cursor_pos as int <= rope_text(
                final(self).text,
            ).len() {
                old(self).cursor_pos as int
            } else {
                rope_text(final(self).text).len() as int
            },
            final(self).message@ == "Formatted file"@,
    {
        self.save_snapshot();
        crate::hum_editor::formatting::format_buffer(&mut self.text);
        let len_chars = crate::text::rope_len_chars(&self.text);
        if self.cursor_pos > len_chars {
            self.cursor_pos = len_chars;
        }
        self.message = String::from_str("Formatted file");
    }

    /// Inserts a tab (four spaces), with its own snapshot before the
    /// snippet insertion's.
    pub fn insert_tab(&mut self)
        requires
            ed_wf(*old(self)),
            rope_text(old(self).text).len() + 4 <= usize::MAX,
        ensures
            ed_wf(*final(self)),
            rope_text(final(self).text) == rope_text(old(self).text).take(
                old(self).cursor_pos as int,
            ) + "    "@ + rope_text(old(self).text).skip(old(self).cursor_pos as int),
    {
        self.save_snapshot();
        proof {
            reveal_strlit("    ");
        }
        self.insert_snippet("    ");
    }

    /// Deletes the current line, with a snapshot; the cursor is clamped to
    /// the shortened text.
    pub fn delete_line(&mut self)
        requires
            ed_wf(*old(self)),
        ensures
            ed_wf(*final(self)),
            snapshot_pushed(*old(self), *final(self)),
            ({
                let s = rope_text(old(self).text);
                let l = crate::text::line_of(s, old(self).cursor_pos as int);
                let start = crate::text::line_start(s, l);
                let end = if l + 1 < line_count(s) {
                    crate::text::line_start(s, l + 1)
                } else {
                    s.len() as int
                };
                &&& rope_text(final(self).text) == s.take(start) + s.skip(end)
                &&& final(self).cursor_pos == if old(self).cursor_pos as int <= rope_text(
                    final(self).text,
                ).len() {
                    old(self).cursor_pos as int
                } else {
                    rope_text(final(self).text).len() as int
                }
            }),
            final(self).message@ == "Deleted line"@,
            *final(self) == (EditorState {
                text: final(self).text,
                cursor_pos: final(self).cursor_pos,
                message: final(self).message,
                undo_stack: final(self).undo_stack,
                redo_stack: final(self).redo_stack,
                ..*old(self)
            }),
    {
        self.save_snapshot();
        crate::hum_editor::editing::delete_line(self);
    }

    /// Inserts a checkpoint line of the given length, with a snapshot.
    pub fn insert_checkpoint_line(&mut self, length: usize)
        requires
            ed_wf(*old(self)),
            rope_text(old(self).text).len() + length + 8 <= usize::MAX,
        ensures
            ed_wf(*final(self)),
            snapshot_pushed(*old(self), *final(self)),
            (rope_text(final(self).text), final(self).cursor_pos as int)
                == crate::hum_editor::editing::checkpoint_line_spec(
                rope_text(old(self).text),
                old(self).cursor_pos as int,
                length as int,
            ),
            final(self).message@ == "Inserted checkpoint"@,
    {
        self.save_snapshot();
        crate::hum_editor::editing::insert_checkpoint_line(self, length);
    }

    /// Inserts a voice command prefix on a prepared empty line and enters
    /// insert mode, with a snapshot.
    pub fn insert_voice_command(&mut self)
        requires
            ed_wf(*old(self)),
            rope_text(old(self).text).len() + 4 <= usize::MAX,
        ensures
            ed_wf(*final(self)),
            snapshot_pushed(*old(self), *final(self)),
            ({
                let (s1, c1) = prepare_empty_line_spec(
                    rope_text(old(self).text),
                    old(self).cursor_pos as int,
                );
                &&& rope_text(final(self).text) == s1.take(c1) + "% "@ + s1.skip(c1)
                &&& final(self).cursor_pos == c1 + 2
            }),
            final(self).mode is Insert,
            final(self).message@ == "Enter voice name"@,
    {
        self.save_snapshot();
        crate::hum_editor::editing::insert_voice_command(self);
    }

    /// Appends a reset and opens a new line, with a snapshot.
    pub fn append_reset_and_newline(&mut self)
        requires
            ed_wf(*old(self)),
            rope_text(old(self).text).len() + 2 <= usize::MAX,
        ensures
            ed_wf(*final(self)),
            snapshot_pushed(*old(self), *final(self)),
            (rope_text(final(self).text), final(self).cursor_pos as int)
                == crate::hum_editor::editing::append_reset_spec(
                rope_text(old(self).text),
                old(self).cursor_pos as int,
            ),
            final(self).message@ == "Inserted reset and newline"@,
    {
        self.save_snapshot();
        crate::hum_editor::editing::append_reset_and_newline(self);
    }

    /// Moves the cursor left.
    pub fn move_cursor_left(&mut self)
        requires
            ed_wf(*old(self)),
        ensures
            ed_wf(*final(self)),
            final(self).cursor_pos == if old(self).cursor_pos > 0 {
                old(self).cursor_pos - 1
            } else {
                0int
            },
            *final(self) == (EditorState { cursor_pos: final(self).cursor_pos, ..*old(self) }),
    {
        crate::hum_editor::movement::move_cursor_left(self)
    }

    /// Moves the cursor right.
    pub fn move_cursor_right(&mut self)
        requires
            ed_wf(*old(self)),
        ensures
            ed_wf(*final(self)),
            final(self).cursor_pos == if (old(self).cursor_pos as int) < rope_text(
                old(self).text,
            ).len() {
                old(self).cursor_pos + 1
            } else {
                old(self).cursor_pos as int
            },
            *final(self) == (EditorState { cursor_pos: final(self).cursor_pos, ..*old(self) }),
    {
        crate::hum_editor::movement::move_cursor_right(self)
    }

    /// Moves the cursor up one line.
    pub fn move_cursor_up(&mut self)
        requires
            ed_wf(*old(self)),
        ensures
            ed_wf(*final(self)),
            final(self).cursor_pos == crate::hum_editor::movement::cursor_up_spec(
                rope_text(old(self).text),
                old(self).cursor_pos as int,
            ),
            *final(self) == (EditorState { cursor_pos: final(self).cursor_pos, ..*old(self) }),
    {
        crate::hum_editor::movement::move_cursor_up(self)
    }

    /// Moves the cursor down one line.
    pub fn move_cursor_down(&mut self)
        requires
            ed_wf(*old(self)),
            rope_text(old(self).text).len() < usize::MAX,
        ensures
            ed_wf(*final(self)),
            final(self).cursor_pos == crate::hum_editor::movement::cursor_down_spec(
                rope_text(old(self).text),
                old(self).cursor_pos as int,
            ),
            *final(self) == (EditorState { cursor_pos: final(self).cursor_pos, ..*old(self) }),
    {
        crate::hum_editor::movement::move_cursor_down(self)
    }

    /// Moves the cursor to the next measure bar.
    pub fn move_to_next_measure(&mut self)
        requires
            ed_wf(*old(self)),
            rope_text(old(self).text).len() < usize::MAX,
        ensures
            ed_wf(*final(self)),
            final(self).cursor_pos == crate::hum_editor::movement::next_measure_spec(
                rope_text(old(self).text),
                old(self).cursor_pos as int,
            ).0,
    {
        crate::hum_editor::movement::move_to_next_measure(self)
    }

    /// Moves the cursor to the previous measure bar.
    pub fn move_to_prev_measure(&mut self)
        requires
            ed_wf(*old(self)),
        ensures
            ed_wf(*final(self)),
            final(self).cursor_pos == crate::hum_editor::movement::prev_measure_spec(
                rope_text(old(self).text),
                old(self).cursor_pos as int,
            ).0,
    {
        crate::hum_editor::movement::move_to_prev_measure(self)
    }

    /// Moves the cursor to the start of the next note; with none ahead,
    /// only the status message changes.
    pub fn move_to_next_note(&mut self)
        requires
            ed_wf(*old(self)),
            rope_text(old(self).text).len() < usize::MAX,
        ensures
            ed_wf(*final(self)),
            ({
                match next_note_spec(rope_text(old(self).text), old(self).cursor_pos as int) {
                    Some(p) => final(self).cursor_pos == p && final(self).message
                        == old(self).message,
                    None => final(self).cursor_pos == old(self).cursor_pos
                        && final(self).message@ == "No next note found"@,
                }
            }),
            *final(self) == (EditorState {
                cursor_pos: final(self).cursor_pos,
                message: final(self).message,
                ..*old(self)
            }),
    {
        crate::hum_editor::movement::move_to_next_note(self)
    }

    /// Moves the cursor to the start of the previous note; with none
    /// behind, only the status message changes.
    pub fn move_to_prev_note(&mut self)
        requires
            ed_wf(*old(self)),
        ensures
            ed_wf(*final(self)),
            ({
                if old(self).cursor_pos == 0 {
                    *final(self) == *old(self)
                } else {
                    match prev_note_spec(rope_text(old(self).text), old(self).cursor_pos as int) {
                        Some(p) => final(self).cursor_pos == p && final(self).message
                            == old(self).message,
                        None => final(self).cursor_pos == old(self).cursor_pos
                            && final(self).message@ == "No previous note found"@,
                    }
                }
            }),
            *final(self) == (EditorState {
                cursor_pos: final(self).cursor_pos,
                message: final(self).message,
                ..*old(self)
            }),
    {
        crate::hum_editor::movement::move_to_prev_note(self)
    }
}

} // verus!
