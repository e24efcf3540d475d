//! Interpreter tests: durations with dots, checkpoint/reset timing,
//! enharmonic agreement, generation errors and additive mixing.
use hum::hum_parse::hum_grammar;
use hum::hum_process;
use hum::hum_process::SAMPLE_RATE;

#[test]
fn test_dotted_note_duration() {
    // 1/4 note at 60 BPM (1 beat per second) -> 1 second duration
    // 44100 samples
    let score_base = "[ 60_bpm ] (An_4 1/4)";
    let commands_base = hum_grammar::score(score_base).unwrap();
    let audio_base = hum_process::run_commands(commands_base).unwrap();
    let base_len = hum_process::track_len(&audio_base);

    // 1/4+ note -> 1.5 seconds
    let score_dot1 = "[ 60_bpm ] (An_4 1/4)+";
    let commands_dot1 = hum_grammar::score(score_dot1).unwrap();
    let audio_dot1 = hum_process::run_commands(commands_dot1).unwrap();
    let dot1_len = hum_process::track_len(&audio_dot1);

    // 1/4++ note -> 1.75 seconds
    let score_dot2 = "[ 60_bpm ] (An_4 1/4)++";
    let commands_dot2 = hum_grammar::score(score_dot2).unwrap();
    let audio_dot2 = hum_process::run_commands(commands_dot2).unwrap();
    let dot2_len = hum_process::track_len(&audio_dot2);

    assert_eq!(
        base_len, SAMPLE_RATE as usize,
        "Base note duration incorrect"
    );
    assert_eq!(
        dot1_len,
        (SAMPLE_RATE as f32 * 1.5) as usize,
        "Single dot duration incorrect"
    );
    assert_eq!(
        dot2_len,
        (SAMPLE_RATE as f32 * 1.75) as usize,
        "Double dot duration incorrect"
    );
}

#[test]
fn test_triple_dot_duration() {
    // 1/4+++ note -> 1.875 seconds at 60 BPM
    let commands = hum_grammar::score("[ 60_bpm ] (An_4 1/4)+++").unwrap();
    let events = hum_process::run_commands(commands).unwrap();
    assert_eq!(
        hum_process::track_len(&events),
        (SAMPLE_RATE as f32 * 1.875) as usize
    );
}

#[test]
fn test_checkpoint_reset_timing() {
    // After a reset, the next measure lands exactly on the measure that
    // followed the checkpoint, so both notes start at the same sample.
    let score = "| | * | (An_4 1/4) ;\n| (An_4 1/4)";
    let commands = hum_grammar::score(score).unwrap();
    let events = hum_process::run_commands(commands).unwrap();
    assert_eq!(events.len(), 2);
    assert_eq!(events[0].start, events[1].start);
    assert_eq!(events[0].samples, events[1].samples);
}

#[test]
fn test_enharmonic_semitones_agree() {
    let pairs = [
        ("Cs_4", "Df_4"),
        ("Ds_2", "Ef_2"),
        ("Fs_7", "Gf_7"),
        ("Gs_0", "Af_0"),
        ("As_5", "Bf_5"),
    ];
    for (a, b) in pairs {
        let sa = hum::hum_process::hum_math::semitone_of(a);
        let sb = hum::hum_process::hum_math::semitone_of(b);
        assert!(sa.is_some());
        assert_eq!(sa, sb, "{} and {} disagree", a, b);
    }
    assert_eq!(hum::hum_process::hum_math::semitone_of("An_4"), Some(57));
}

#[test]
fn test_rest_advances_but_is_silent() {
    let commands = hum_grammar::score("[ 60_bpm ] (Rest 1/4) (An_4 1/4)").unwrap();
    let events = hum_process::run_commands(commands).unwrap();
    assert_eq!(events.len(), 2);
    assert_eq!(events[0].semitone, None);
    assert_eq!(events[1].semitone, Some(57));
    assert_eq!(events[1].start, SAMPLE_RATE as usize);
}

#[test]
fn test_unknown_note_is_fatal() {
    let commands = hum_grammar::score("(Qq_4 1/4)").unwrap();
    let err = hum_process::run_commands(commands).unwrap_err();
    assert!(err.message.contains("Qq_4"));
}

#[test]
fn test_zero_tempo_is_fatal() {
    let commands = hum_grammar::score("[ 0_bpm ] (An_4 1/4)").unwrap();
    assert!(hum_process::run_commands(commands).is_err());
}

#[test]
fn test_malformed_time_signature_is_fatal() {
    let commands = vec![("time".to_string(), "44".to_string())];
    assert!(hum_process::run_commands(commands).is_err());
}

#[test]
fn test_voice_carries_into_events() {
    let commands = hum_grammar::score("% square | (An_4 1/4)").unwrap();
    let events = hum_process::run_commands(commands).unwrap();
    assert_eq!(events[0].voice, "square".to_string());
}

#[test]
fn test_time_signature_numerator_sets_beats() {
    // with [ 3/4 ] at 60 BPM a measure lasts three seconds, and a 1/4 note
    // spans a third of it: 1/4 divided by the signature 3/4 gives 1/3 of
    // the three-second measure
    let commands = hum_grammar::score("[ 60_bpm ] [ 3/4 ] | (An_4 1/4)").unwrap();
    let events = hum_process::run_commands(commands).unwrap();
    assert_eq!(events[0].samples, SAMPLE_RATE as usize);
}

#[test]
fn test_additive_mixing() {
    // mixing two notes over a silent track equals the sample-wise sum of
    // the two tracks each note would produce alone
    let a: Vec<i64> = vec![10, -20, 30];
    let b: Vec<i64> = vec![5, 5];
    let mut both: Vec<i64> = vec![0; 4];
    hum::hum_process::mix_into(&mut both, 0, &a);
    hum::hum_process::mix_into(&mut both, 2, &b);

    let mut only_a: Vec<i64> = vec![0; 4];
    hum::hum_process::mix_into(&mut only_a, 0, &a);
    let mut only_b: Vec<i64> = vec![0; 4];
    hum::hum_process::mix_into(&mut only_b, 2, &b);

    let summed: Vec<i64> = only_a.iter().zip(only_b.iter()).map(|(x, y)| x + y).collect();
    assert_eq!(both, summed);
    assert_eq!(both, vec![10, -20, 35, 5]);
}

#[test]
fn test_mixing_grows_track_with_silence() {
    let mut track: Vec<i64> = Vec::new();
    hum::hum_process::mix_into(&mut track, 2, &vec![7]);
    assert_eq!(track, vec![0, 0, 7]);
}

#[test]
fn test_pipeline_reports_parse_position() {
    match hum::parse_score_contents("| (".to_string()) {
        Err(hum::hum_error::HumError::HumParseError(e)) => assert_eq!(e.position, 2),
        _ => panic!("expected a parse error"),
    }
}

#[test]
fn test_pipeline_generates_events() {
    let events = hum::parse_score_contents("[ 60_bpm ] | (An_4 1/4)".to_string()).unwrap();
    assert_eq!(events.len(), 1);
    assert_eq!(events[0].start, 0);
    assert_eq!(events[0].samples, SAMPLE_RATE as usize);
}
