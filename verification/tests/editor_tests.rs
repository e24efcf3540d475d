//! Editor tests: transposition, structural addressing, editing operations,
//! undo history, score extraction and the alignment formatter.
use hum::hum_editor::editing::calculate_transposition;
use hum::hum_editor::editor_state::EditorState;
use hum::hum_editor::formatting;
use hum::text::rope_from_str;
use hum::text::rope_to_string;
use ropey::Rope;

#[test]
fn test_calculate_transposition_sharps() {
    // C_4 + 1 semitone -> Cs_4
    let (note, octave) = calculate_transposition("Cn", 4, 1).unwrap();
    assert_eq!(note, "Cs_4");
    assert_eq!(octave, 4);

    // Cs_4 + 1 semitone -> Dn_4
    let (note, octave) = calculate_transposition("Cs", 4, 1).unwrap();
    assert_eq!(note, "Dn_4");
    assert_eq!(octave, 4);
}

#[test]
fn test_calculate_transposition_flats() {
    // Df_4 - 1 semitone -> Cn_4
    let (note, octave) = calculate_transposition("Df", 4, -1).unwrap();
    assert_eq!(note, "Cn_4");
    assert_eq!(octave, 4);
}

#[test]
fn test_calculate_transposition_octave_crossing() {
    // B_4 + 1 semitone -> C_5
    let (note, octave) = calculate_transposition("Bn", 4, 1).unwrap();
    assert_eq!(note, "Cn_5");
    assert_eq!(octave, 5);

    // C_4 - 1 semitone -> B_3
    let (note, octave) = calculate_transposition("Cn", 4, -1).unwrap();
    assert_eq!(note, "Bn_3");
    assert_eq!(octave, 3);
}

#[test]
fn test_calculate_transposition_limits() {
    // Test upper limit (assuming HIGHEST_OCTAVE is 7)
    // Bn_7 + 1 -> Error
    let result = calculate_transposition("Bn", 7, 1);
    assert!(result.is_err());

    // Test lower limit (assuming LOWEST_OCTAVE is 0)
    // Cn_0 - 1 -> Error
    let result = calculate_transposition("Cn", 0, -1);
    assert!(result.is_err());
}

#[test]
fn test_transposition_round_trip() {
    // +k then -k semitones returns the original pitch and octave
    for k in 1..=11 {
        let (up, up_oct) = calculate_transposition("Fn", 4, k).unwrap();
        let (name, oct) = hum::hum_editor::utils::split_note_name_and_octave(&up).unwrap();
        assert_eq!(oct, up_oct);
        let (back, back_oct) = calculate_transposition(name, oct, -k).unwrap();
        assert_eq!(back, "Fn_4");
        assert_eq!(back_oct, 4);
    }
}

#[test]
fn test_parse_duration() {
    // 1/4 = 1.0 quarter notes
    assert_eq!(formatting::parse_duration("1/4"), Some(hum::rat::Rat { n: 1, d: 1 }));

    // 1/4+ = 1.5 quarter notes
    assert_eq!(formatting::parse_duration("1/4+"), Some(hum::rat::Rat { n: 3, d: 2 }));

    // 1/4++ = 1.75 quarter notes
    assert_eq!(formatting::parse_duration("1/4++"), Some(hum::rat::Rat { n: 7, d: 4 }));

    // 1/4+++ = 1.875 quarter notes
    assert_eq!(formatting::parse_duration("1/4+++"), Some(hum::rat::Rat { n: 15, d: 8 }));
}

#[test]
fn test_parse_duration_rejects_junk() {
    assert_eq!(formatting::parse_duration("14"), None);
    assert_eq!(formatting::parse_duration("1/0"), None);
    assert_eq!(formatting::parse_duration("0/4"), None);
    assert_eq!(formatting::parse_duration("1/4/2"), None);
}

#[test]
fn test_format_note_token_moves_dots_outside() {
    let t = formatting::format_note_token("Cs_4", "1/8+");
    assert_eq!(t, "(Cs_4 1/8)+");
    assert_eq!(formatting::calculate_note_min_width("Cs_4", "1/8+"), 13);
}

#[test]
fn test_format_reserved_commands() {
    assert_eq!(formatting::format_reserved_command("measure", ""), "| ");
    assert_eq!(formatting::format_reserved_command("reset", ""), ";");
    assert_eq!(formatting::format_reserved_command("reset", "again"), "; again");
    assert_eq!(formatting::format_reserved_command("voice", "sine"), "% sine ");
    assert_eq!(formatting::format_reserved_command("tempo", "90"), "[ 90_bpm ] ");
    assert_eq!(formatting::format_reserved_command("time", "3/4"), "[ 3/4 ] ");
    assert_eq!(formatting::format_reserved_command("comment", "hi"), "~ hi");
    assert_eq!(formatting::format_reserved_command("checkpoint", ""), "*");
}

#[test]
fn test_apply_padding_dashes() {
    assert_eq!(formatting::apply_padding("(C_4 1/4)", 14, true), "(C_4 1/4) --- ");
    assert_eq!(formatting::apply_padding("(C_4 1/4)", 14, false), "(C_4 1/4)  ");
    assert_eq!(formatting::apply_padding("(C_4 1/4)", 4, true), "(C_4 1/4) ");
}

#[test]
fn test_is_reserved_command() {
    assert!(formatting::is_reserved_command("tempo"));
    assert!(formatting::is_reserved_command("reset"));
    assert!(!formatting::is_reserved_command("An_4"));
}

fn format_text(input: &str) -> String {
    let mut rope = Rope::from_str(input);
    formatting::format_buffer(&mut rope);
    rope.to_string()
}

const ALIGNED_SCORE: &str = "[ 120_bpm ] [ 4/4 ]\n% sine\n| (C_4 1/4) (D_4 1/4) (E_4 1/2)\n% square\n| (G_3 1/2)-----------(A_3 1/2)\n";

#[test]
fn test_formatting_idempotence() {
    // formatting an already-formatted document is a no-op
    let once = format_text(ALIGNED_SCORE);
    let twice = format_text(&once);
    assert_eq!(once, twice);

    let plain = "~ a comment\n| (C_4 1/4) |\n";
    let once = format_text(plain);
    assert_eq!(once, format_text(&once));
}

fn make_dirty(input: &str) -> String {
    let mut output = String::new();
    for line in input.lines() {
        let trimmed = line.trim();
        if trimmed.starts_with('~') {
            output.push_str(line);
        } else if trimmed.starts_with('*') {
            output.push_str("***");
        } else if trimmed.is_empty() {
            output.push_str(line);
        } else {
            let no_hyphens = line.replace('-', " ");
            let parts: Vec<&str> = no_hyphens.split_whitespace().collect();
            let dirty_line = parts.join(" ");
            output.push_str(&dirty_line);
        }
        output.push('\n');
    }
    output
}

#[test]
fn test_formatting_dirt_invariance() {
    // collapsing whitespace and dashes, then formatting, reproduces the
    // canonical formatted document
    let corpus = [
        ALIGNED_SCORE,
        "[ 60_bpm ]\n% sine\n| (C_4 1/4) (D_4 1/4) |\n% square\n| (E_3 1/2) |\n\n*\n\n% sine\n| (F_4 1/1) |\n",
        "| (A_4 1/8) (B_4 1/8) (C_5 1/4)\n| (A_3 1/2)\n",
    ];
    for score in corpus {
        let canonical = format_text(score);
        let dirty = make_dirty(&canonical);
        assert_eq!(format_text(&dirty), canonical, "dirt changed {:?}", score);
    }
}

#[test]
fn test_formatting_passes_through_comments_and_junk() {
    let text = "~ keep   me   spaced\nnot a (valid line\n";
    assert_eq!(format_text(text), text);
}

#[test]
fn test_checkpoint_lines_are_stamped() {
    let out = format_text("| (C_4 1/4) |\n***\n| (D_4 1/4) |\n");
    let lines: Vec<&str> = out.lines().collect();
    assert_eq!(lines[1], "*".repeat(79));
}

#[test]
fn test_checkpoint_width_follows_longest_line() {
    let long_line = format!("~ {}\n", "x".repeat(100));
    let out = format_text(&format!("{}***\n", long_line));
    let lines: Vec<&str> = out.lines().collect();
    assert_eq!(lines[1], "*".repeat(102));
}

#[test]
fn test_editor_insert_and_undo() {
    let mut ed = EditorState::default();
    ed.insert_char('h');
    ed.insert_char('i');
    assert_eq!(rope_to_string(&ed.text), "hi");
    assert_eq!(ed.cursor_pos, 2);
    ed.undo();
    assert_eq!(rope_to_string(&ed.text), "h");
    ed.redo();
    assert_eq!(rope_to_string(&ed.text), "hi");
    ed.undo();
    ed.undo();
    assert_eq!(rope_to_string(&ed.text), "");
    ed.undo();
    assert_eq!(ed.message, "Already at oldest change");
}

#[test]
fn test_editor_insert_note_uses_settings() {
    let mut ed = EditorState::default();
    ed.insert_note('c');
    assert_eq!(rope_to_string(&ed.text), "(Cn_4 1/4)  ");
    let mut ed2 = EditorState::default();
    ed2.add_dot_to_duration();
    ed2.increment_octave();
    ed2.insert_rest();
    assert_eq!(rope_to_string(&ed2.text), "(Rest 1/4)+  ");
    assert_eq!(ed2.current_octave, 5);
}

#[test]
fn test_note_range_and_pitch_range() {
    let mut ed = EditorState::default();
    ed.insert_snippet("| (C_4 1/4)++ |");
    ed.cursor_pos = 4;
    let (a, b) = hum::hum_editor::utils::get_note_range_at_cursor(&ed).unwrap();
    assert_eq!((a, b), (2, 13));
    let (p, q) = hum::hum_editor::utils::get_pitch_range_at_cursor(&ed).unwrap();
    assert_eq!((p, q), (3, 6));
    ed.cursor_pos = 0;
    assert!(hum::hum_editor::utils::get_note_range_at_cursor(&ed).is_none());
}

#[test]
fn test_word_range_at_cursor() {
    let mut ed = EditorState::default();
    ed.insert_snippet("ab cd_3 ef");
    ed.cursor_pos = 4;
    let (a, b) = hum::hum_editor::utils::get_word_range_at_cursor(&ed).unwrap();
    assert_eq!((a, b), (3, 7));
}

#[test]
fn test_transpose_note_in_buffer() {
    let mut ed = EditorState::default();
    ed.insert_snippet("(Cn_4 1/4)");
    ed.cursor_pos = 2;
    ed.transpose_note(1);
    assert_eq!(rope_to_string(&ed.text), "(Cs_4 1/4)");
    assert_eq!(ed.message, "Transposed to Cs_4");
}

#[test]
fn test_delete_note_cleans_following_space() {
    let mut ed = EditorState::default();
    ed.insert_snippet("(C_4 1/4) (D_4 1/4)");
    ed.cursor_pos = 1;
    ed.delete_note();
    assert_eq!(rope_to_string(&ed.text), "(D_4 1/4)");
    assert_eq!(ed.cursor_pos, 0);
}

#[test]
fn test_delete_line_and_clamp() {
    let mut ed = EditorState::default();
    ed.insert_snippet("one\ntwo\nthree");
    ed.cursor_pos = 5;
    ed.delete_line();
    assert_eq!(rope_to_string(&ed.text), "one\nthree");
    assert_eq!(ed.message, "Deleted line");
    ed.cursor_pos = 9;
    ed.delete_line();
    assert_eq!(rope_to_string(&ed.text), "one\n");
    assert_eq!(ed.cursor_pos, 4);
}

#[test]
fn test_insert_voice_command_enters_insert_mode() {
    let mut ed = EditorState::default();
    ed.insert_voice_command();
    assert_eq!(rope_to_string(&ed.text), "% ");
    assert_eq!(ed.cursor_pos, 2);
    assert_eq!(ed.mode, hum::hum_editor::editor_state::Mode::Insert);
    assert_eq!(ed.message, "Enter voice name");
}

#[test]
fn test_line_predicates() {
    assert!(hum::hum_editor::utils::is_comment_line("  ~ hi"));
    assert!(hum::hum_editor::utils::is_checkpoint_line("***"));
    assert!(hum::hum_editor::utils::is_voice_line(" % sine"));
    assert!(hum::hum_editor::utils::is_tempo_line("[ 90_bpm ]"));
    assert!(!hum::hum_editor::utils::is_tempo_line("[ 9/4 ]"));
    assert!(hum::hum_editor::utils::is_time_signature_line("[ 9/4 ]"));
}

#[test]
fn test_construct_note_text() {
    let t = hum::hum_editor::utils::construct_note_text("Cn", 4, "1/8", "++");
    assert_eq!(t, "(Cn_4 1/8)++");
}

#[test]
fn test_voice_at_cursor_scans_upward() {
    let mut ed = EditorState::default();
    ed.insert_snippet("% square\n| (C_4 1/4)\n");
    ed.cursor_pos = 12;
    assert_eq!(hum::hum_editor::utils::get_voice_at_cursor(&ed), "square");
    ed.cursor_pos = 0;
    assert_eq!(hum::hum_editor::utils::get_voice_at_cursor(&ed), "square");
    let ed2 = EditorState::default();
    assert_eq!(hum::hum_editor::utils::get_voice_at_cursor(&ed2), "sine");
}

#[test]
fn test_note_preview_score() {
    let mut ed = EditorState::default();
    ed.insert_snippet("% square\n");
    let s = hum::hum_editor::playback::note_preview_score(&ed, "(Cn_4 1/4)");
    assert_eq!(s, "[ 120_bpm ][ 4/4 ] % square | (Cn_4 1/4) ;");
    // the preview parses and renders exactly one note
    let events = hum::parse_score_contents(s).unwrap();
    assert_eq!(events.len(), 1);
}

#[test]
fn test_section_extraction() {
    let mut ed = EditorState::default();
    ed.insert_snippet("[ 90_bpm ]\n% square\n| (C_4 1/4)\n***\n| (D_4 1/4)\n");
    ed.cursor_pos = crate_len(&ed) - 1;
    let s = hum::hum_editor::playback::section_score(&ed);
    assert_eq!(s, "[ 90_bpm ]\n% square\n***\n| (D_4 1/4)\n");
}

fn crate_len(ed: &EditorState) -> usize {
    hum::text::rope_len_chars(&ed.text)
}

#[test]
fn test_movement() {
    let mut ed = EditorState::default();
    ed.insert_snippet("| (C_4 1/4)\n| (D_4 1/4)\n");
    ed.cursor_pos = 0;
    ed.move_to_next_measure();
    assert_eq!(ed.cursor_pos, 12);
    ed.move_to_next_note();
    assert_eq!(ed.cursor_pos, 14);
    ed.move_to_prev_note();
    assert_eq!(ed.cursor_pos, 2);
    ed.move_cursor_down();
    ed.move_cursor_up();
    ed.move_cursor_left();
    ed.move_cursor_right();
    assert_eq!(ed.cursor_pos, 2);
}

#[test]
fn test_split_note_name_and_octave() {
    assert_eq!(
        hum::hum_editor::utils::split_note_name_and_octave("Cs_4"),
        Some(("Cs", 4))
    );
    assert_eq!(hum::hum_editor::utils::split_note_name_and_octave("Cs4"), None);
    assert_eq!(hum::hum_editor::utils::split_note_name_and_octave("C_4_5"), None);
}

#[test]
fn test_rope_round_trip() {
    let r = rope_from_str("ab\ncd");
    assert_eq!(rope_to_string(&r), "ab\ncd");
}
