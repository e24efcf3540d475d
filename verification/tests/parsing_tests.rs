//! Grammar tests: the individual rules, whole scores, and the
//! concatenation property on concrete commands.
use hum::hum_parse::hum_grammar;

#[test]
fn test_parse_note() {
    assert_eq!(
        hum_grammar::note("(A_4 1/4)"),
        Ok(("A_4".to_string(), "1/4".to_string()))
    );
    assert_eq!(
        hum_grammar::note("(Cs_4 1/8)+"),
        Ok(("Cs_4".to_string(), "1/8+".to_string()))
    );
    assert_eq!(
        hum_grammar::note("(Bf_3 1/2)++"),
        Ok(("Bf_3".to_string(), "1/2++".to_string()))
    );
}

#[test]
fn test_parse_tempo() {
    assert_eq!(
        hum_grammar::tempo("[ 120_bpm ]"),
        Ok(("tempo".to_string(), "120".to_string()))
    );
}

#[test]
fn test_parse_time() {
    assert_eq!(
        hum_grammar::time("[ 4/4 ]"),
        Ok(("time".to_string(), "4/4".to_string()))
    );
}

#[test]
fn test_parse_voice() {
    assert_eq!(
        hum_grammar::voice("% piano"),
        Ok(("voice".to_string(), "piano".to_string()))
    );
}

#[test]
fn test_parse_comment() {
    assert_eq!(
        hum_grammar::comment("~ This is a comment\n"),
        Ok(("comment".to_string(), "This is a comment".to_string()))
    );
}

#[test]
fn test_parse_score() {
    let input = r#"
            [ 120_bpm ]
            [ 4/4 ]
            % sine
            |
            (C_4 1/4) (D_4 1/4) (E_4 1/4) (F_4 1/4)
            |
            *
        "#;
    let result = hum_grammar::score(input);
    assert!(result.is_ok());
    let commands = result.unwrap();
    assert_eq!(commands.len(), 10); // tempo, time, voice, measure, 4 notes, measure, checkpoint
}

#[test]
fn test_parse_dots_inside_and_outside() {
    assert_eq!(
        hum_grammar::note("(A_4 1/4+)++"),
        Ok(("A_4".to_string(), "1/4+++".to_string()))
    );
}

#[test]
fn test_parse_dash_is_whitespace() {
    let r = hum_grammar::score("| --- (C_4 1/4) -- |").unwrap();
    assert_eq!(r.len(), 3);
    assert_eq!(r[1], ("C_4".to_string(), "1/4".to_string()));
}

#[test]
fn test_parse_error_is_position_tagged() {
    let e = hum_grammar::score("| (C_4").unwrap_err();
    assert_eq!(e.position, 2);
}

#[test]
fn test_parse_trailing_garbage_fails() {
    assert!(hum_grammar::score("| )").is_err());
    assert!(hum_grammar::score("   ").is_err());
    assert!(hum_grammar::score("").is_ok());
}

#[test]
fn test_concatenation_of_valid_commands() {
    // parsing "A B" equals parsing A and B separately, concatenated
    let cases = [
        ("[ 120_bpm ]", "(C_4 1/4)"),
        ("(A_4 1/2)+", "| (B_4 1/8)"),
        ("*", "*"),
        ("% piano |", "[ 3/4 ] (Rest 1/4)"),
        ("~ a note\n", "|"),
    ];
    for (a, b) in cases {
        let ca = hum_grammar::score(a).unwrap();
        let cb = hum_grammar::score(b).unwrap();
        let joined = format!("{} {}", a, b);
        let cab = hum_grammar::score(&joined).unwrap();
        let mut expected = ca.clone();
        expected.extend(cb);
        assert_eq!(cab, expected, "concatenation failed for {:?}", joined);
    }
}
