//! The grammar of the notation.
//!
//! A score is a sequence of commands; each command is an ordered pair of a
//! verb and a noun, both plain text.  The forms, tried in order at each
//! position: comment (`~` to end of line), tempo (`[ digits_bpm ]`), time
//! signature (`[ fraction ]`), checkpoint (one or more `*`), voice
//! (`% name`), measure (`|`), reset (`;` then free text to end of line) and
//! note (`( name fraction[+*] )[+*]`).  Whitespace is space, tab, carriage
//! return, newline and the dash.
//!
//! The function [`score_from`] is the specification of the whole grammar;
//! every executable rule is proved to return exactly what it says.
use crate::chars::blank_class;
use crate::chars::digit_class;
use crate::chars::frac_class;
use crate::chars::is_ws_char;
use crate::chars::name_class;
use crate::chars::not_nl_class;
use crate::chars::plus_class;
use crate::chars::scan_while;
use crate::chars::skip_digits;
use crate::chars::skip_frac;
use crate::chars::skip_name;
use crate::chars::skip_plus;
use crate::chars::skip_stars;
use crate::chars::skip_to_eol;
use crate::chars::skip_ws;
use crate::chars::skip_ws_not_nl;
use crate::chars::star_class;
use crate::chars::trim_blanks;
use crate::chars::trim_substring;
use crate::chars::ws_char;
use crate::chars::ws_class;
use crate::chars::ws_not_nl_class;
use crate::chars::lemma_scan_while;
use crate::hum_error::ParseError;
use vstd::prelude::*;

verus! {

/// A command at specification level: verb and noun as character sequences.
pub type SpecCmd = (Seq<char>, Seq<char>);

/// The views of a parsed command list.
pub open spec fn cmds_view(v: Seq<(String, String)>) -> Seq<SpecCmd> {
    v.map_values(|p: (String, String)| (p.0@, p.1@))
}

/// The comment rule at position `j` (which holds `~`): the free text up to
/// the end of the line, trimmed, becomes the noun; the newline is consumed.
pub open spec fn comment_at(s: Seq<char>, j: int) -> Result<(SpecCmd, int), int> {
    let e = scan_while(s, j + 1, not_nl_class());
    let noun = trim_blanks(s.subrange(j + 1, e));
    let next = if e < s.len() {
        e + 1
    } else {
        e
    };
    Ok((("comment"@, noun), next))
}

/// The reset rule at position `j` (which holds `;`): non-newline whitespace
/// is skipped, then the free text up to the end of the line, trimmed,
/// becomes the noun; the newline is consumed.
pub open spec fn reset_at(s: Seq<char>, j: int) -> Result<(SpecCmd, int), int> {
    let k = scan_while(s, j + 1, ws_not_nl_class());
    let e = scan_while(s, k, not_nl_class());
    let noun = trim_blanks(s.subrange(k, e));
    let next = if e < s.len() {
        e + 1
    } else {
        e
    };
    Ok((("reset"@, noun), next))
}

/// The checkpoint rule at position `j` (which holds `*`): one or more stars.
/// The noun is decorative and never inspected downstream; it is left empty.
pub open spec fn checkpoint_at(s: Seq<char>, j: int) -> Result<(SpecCmd, int), int> {
    let e = scan_while(s, j, star_class());
    Ok((("checkpoint"@, Seq::<char>::empty()), scan_while(s, e, ws_class())))
}

/// The voice rule at position `j` (which holds `%`): a nonempty name.
pub open spec fn voice_at(s: Seq<char>, j: int) -> Result<(SpecCmd, int), int> {
    let k = scan_while(s, j + 1, ws_class());
    let e = scan_while(s, k, name_class());
    if e == k {
        Err(j)
    } else {
        Ok((("voice"@, s.subrange(k, e)), scan_while(s, e, ws_class())))
    }
}

/// Whether a closing bracket, possibly after whitespace, stands at `p`.
pub open spec fn bracket_close_at(s: Seq<char>, p: int) -> bool {
    let m = scan_while(s, p, ws_class());
    m < s.len() && s[m] == ']'
}

/// The position after the closing bracket at `p` and its trailing whitespace.
pub open spec fn after_bracket(s: Seq<char>, p: int) -> int {
    let m = scan_while(s, p, ws_class());
    scan_while(s, m + 1, ws_class())
}

/// The tempo and time rules at position `j` (which holds `[`), tried in that
/// order: digits followed by `_bpm` make a tempo; otherwise a nonempty run
/// of digits and slashes makes a time signature.
pub open spec fn bracket_at(s: Seq<char>, j: int) -> Result<(SpecCmd, int), int> {
    let k = scan_while(s, j + 1, ws_class());
    let d = scan_while(s, k, digit_class());
    if d > k && d + 4 <= s.len() && s[d] == '_' && s[d + 1] == 'b' && s[d + 2] == 'p' && s[d + 3]
        == 'm' && bracket_close_at(s, d + 4) {
        Ok((("tempo"@, s.subrange(k, d)), after_bracket(s, d + 4)))
    } else {
        let f = scan_while(s, k, frac_class());
        if f > k && bracket_close_at(s, f) {
            Ok((("time"@, s.subrange(k, f)), after_bracket(s, f)))
        } else {
            Err(j)
        }
    }
}

/// The note rule at position `j` (which holds `(`): a name, at least one
/// whitespace character, a fraction, dots inside and outside the closing
/// parenthesis.  The noun is the fraction with all dots appended in order.
pub open spec fn note_at(s: Seq<char>, j: int) -> Result<(SpecCmd, int), int> {
    let k = scan_while(s, j + 1, ws_class());
    let n = scan_while(s, k, name_class());
    if n == k {
        Err(j)
    } else if n >= s.len() || !is_ws_char(s[n]) {
        Err(j)
    } else {
        let w = scan_while(s, n, ws_class());
        let f = scan_while(s, w, frac_class());
        if f == w {
            Err(j)
        } else {
            let di = scan_while(s, f, plus_class());
            let m = scan_while(s, di, ws_class());
            if m >= s.len() || s[m] != ')' {
                Err(j)
            } else {
                let d2 = scan_while(s, m + 1, plus_class());
                Ok(
                    (
                        (s.subrange(k, n), s.subrange(w, di) + s.subrange(m + 1, d2)),
                        scan_while(s, d2, ws_class()),
                    ),
                )
            }
        }
    }
}

/// One command at position `i`: leading whitespace is skipped, then the form
/// is chosen by the first character.  `Err` carries the position at which no
/// command could start.
pub open spec fn command_at(s: Seq<char>, i: int) -> Result<(SpecCmd, int), int> {
    let j = scan_while(s, i, ws_class());
    if j >= s.len() {
        Err(j)
    } else {
        let c = s[j];
        if c == '~' {
            comment_at(s, j)
        } else if c == '[' {
            bracket_at(s, j)
        } else if c == '*' {
            checkpoint_at(s, j)
        } else if c == '%' {
            voice_at(s, j)
        } else if c == '|' {
            Ok((("measure"@, Seq::<char>::empty()), scan_while(s, j + 1, ws_class())))
        } else if c == ';' {
            reset_at(s, j)
        } else if c == '(' {
            note_at(s, j)
        } else {
            Err(j)
        }
    }
}

/// A parsed command consumes at least one character and stays in bounds.
pub proof fn lemma_command_at_progress(s: Seq<char>, i: int)
    requires
        0 <= i <= s.len(),
        command_at(s, i) is Ok,
    ensures
        i < command_at(s, i)->Ok_0.1 <= s.len(),
{
    let j = scan_while(s, i, ws_class());
    lemma_scan_while(s, i, ws_class());
    let c = s[j];
    if c == '~' {
        lemma_scan_while(s, j + 1, not_nl_class());
    } else if c == '[' {
        let k = scan_while(s, j + 1, ws_class());
        lemma_scan_while(s, j + 1, ws_class());
        let d = scan_while(s, k, digit_class());
        lemma_scan_while(s, k, digit_class());
        if d > k && d + 4 <= s.len() && s[d] == '_' && s[d + 1] == 'b' && s[d + 2] == 'p' && s[d
            + 3] == 'm' && bracket_close_at(s, d + 4) {
            lemma_scan_while(s, d + 4, ws_class());
            let m = scan_while(s, d + 4, ws_class());
            lemma_scan_while(s, m + 1, ws_class());
        } else {
            let f = scan_while(s, k, frac_class());
            lemma_scan_while(s, k, frac_class());
            let m = scan_while(s, f, ws_class());
            lemma_scan_while(s, f, ws_class());
            lemma_scan_while(s, m + 1, ws_class());
        }
    } else if c == '*' {
        let e = scan_while(s, j, star_class());
        assert(e == scan_while(s, j + 1, star_class()));
        lemma_scan_while(s, j + 1, star_class());
        lemma_scan_while(s, e, ws_class());
    } else if c == '%' {
        let k = scan_while(s, j + 1, ws_class());
        lemma_scan_while(s, j + 1, ws_class());
        let e = scan_while(s, k, name_class());
        lemma_scan_while(s, k, name_class());
        lemma_scan_while(s, e, ws_class());
    } else if c == '|' {
        lemma_scan_while(s, j + 1, ws_class());
    } else if c == ';' {
        let k = scan_while(s, j + 1, ws_not_nl_class());
        lemma_scan_while(s, j + 1, ws_not_nl_class());
        lemma_scan_while(s, k, not_nl_class());
    } else if c == '(' {
        let k = scan_while(s, j + 1, ws_class());
        lemma_scan_while(s, j + 1, ws_class());
        let n = scan_while(s, k, name_class());
        lemma_scan_while(s, k, name_class());
        let w = scan_while(s, n, ws_class());
        lemma_scan_while(s, n, ws_class());
        let f = scan_while(s, w, frac_class());
        lemma_scan_while(s, w, frac_class());
        let di = scan_while(s, f, plus_class());
        lemma_scan_while(s, f, plus_class());
        let m = scan_while(s, di, ws_class());
        lemma_scan_while(s, di, ws_class());
        lemma_scan_while(s, m + 1, plus_class());
        let d2 = scan_while(s, m + 1, plus_class());
        lemma_scan_while(s, d2, ws_class());
    }
}

/// Parse one command starting at `i`, mirroring [`command_at`].
pub fn parse_command(s: &str, i: usize) -> (r: Result<((String, String), usize), ParseError>)
    requires
        i <= s@.len(),
    ensures
        match r {
            Ok(((v, n), k)) => {
                &&& command_at(s@, i as int) == Ok::<(SpecCmd, int), int>(((v@, n@), k as int))
                &&& i < k <= s@.len()
            },
            Err(e) => command_at(s@, i as int) == Err::<(SpecCmd, int), int>(e.position as int),
        },
{
    let len = s.unicode_len();
    let j = skip_ws(s, i);
    if j >= len {
        return Err(ParseError { position: j });
    }
    let c = s.get_char(j);
    proof {
        lemma_command_at_progress_pre(s@, i as int);
    }
    let r: Result<((String, String), usize), ParseError> = if c == '~' {
        let e = skip_to_eol(s, j + 1);
        let noun = trim_substring(s, j + 1, e);
        let next = if e < len {
            e + 1
        } else {
            e
        };
        Ok(((String::from_str("comment"), noun), next))
    } else if c == '[' {
        let k = skip_ws(s, j + 1);
        let d = skip_digits(s, k);
        let tempo_ok = d > k && len - d >= 4 && s.get_char(d) == '_' && s.get_char(d + 1) == 'b'
            && s.get_char(d + 2) == 'p' && s.get_char(d + 3) == 'm' && {
            let m = skip_ws(s, d + 4);
            m < len && s.get_char(m) == ']'
        };
        if tempo_ok {
            let m = skip_ws(s, d + 4);
            let next = skip_ws(s, m + 1);
            Ok(((String::from_str("tempo"), String::from_str(s.substring_char(k, d))), next))
        } else {
            let f = skip_frac(s, k);
            let m = skip_ws(s, f);
            if f > k && m < len && s.get_char(m) == ']' {
                let next = skip_ws(s, m + 1);
                Ok(((String::from_str("time"), String::from_str(s.substring_char(k, f))), next))
            } else {
                Err(ParseError { position: j })
            }
        }
    } else if c == '*' {
        let e = skip_stars(s, j);
        assert(e == scan_while(s@, j as int, star_class()));
        let next = skip_ws(s, e);
        Ok(((String::from_str("checkpoint"), String::new()), next))
    } else if c == '%' {
        let k = skip_ws(s, j + 1);
        let e = skip_name(s, k);
        if e == k {
            Err(ParseError { position: j })
        } else {
            let next = skip_ws(s, e);
            Ok(((String::from_str("voice"), String::from_str(s.substring_char(k, e))), next))
        }
    } else if c == '|' {
        let next = skip_ws(s, j + 1);
        Ok(((String::from_str("measure"), String::new()), next))
    } else if c == ';' {
        let k = skip_ws_not_nl(s, j + 1);
        let e = skip_to_eol(s, k);
        let noun = trim_substring(s, k, e);
        let next = if e < len {
            e + 1
        } else {
            e
        };
        Ok(((String::from_str("reset"), noun), next))
    } else if c == '(' {
        let k = skip_ws(s, j + 1);
        let n = skip_name(s, k);
        if n == k {
            Err(ParseError { position: j })
        } else if n >= len || !ws_char(s.get_char(n)) {
            Err(ParseError { position: j })
        } else {
            let w = skip_ws(s, n);
            let f = skip_frac(s, w);
            if f == w {
                Err(ParseError { position: j })
            } else {
                let di = skip_plus(s, f);
                let m = skip_ws(s, di);
                if m >= len || s.get_char(m) != ')' {
                    Err(ParseError { position: j })
                } else {
                    let d2 = skip_plus(s, m + 1);
                    let verb = String::from_str(s.substring_char(k, n));
                    let noun = String::from_str(s.substring_char(w, di)).concat(
                        s.substring_char(m + 1, d2),
                    );
                    let next = skip_ws(s, d2);
                    Ok(((verb, noun), next))
                }
            }
        }
    } else {
        Err(ParseError { position: j })
    };
    proof {
        if r is Ok {
            lemma_command_at_progress(s@, i as int);
        }
    }
    r
}

/// Bounds of every scan that `command_at` can make, packaged so that the
/// executable parser can index safely.
proof fn lemma_command_at_progress_pre(s: Seq<char>, i: int)
    requires
        0 <= i <= s.len(),
    ensures
        i <= scan_while(s, i, ws_class()) <= s.len(),
{
    lemma_scan_while(s, i, ws_class());
}

/// The score rule from position `i`: commands until the end of the input.
/// Text that no command can start (even pure trailing whitespace after a
/// final newline-terminated comment) is a position-tagged error.
pub open spec fn score_from(s: Seq<char>, i: int) -> Result<Seq<SpecCmd>, int>
    decreases s.len() - i,
{
    if i >= s.len() {
        Ok(Seq::empty())
    } else {
        match command_at(s, i) {
            Err(p) => Err(p),
            Ok((c, k)) => if i < k <= s.len() {
                match score_from(s, k) {
                    Ok(rest) => Ok(seq![c] + rest),
                    Err(p) => Err(p),
                }
            } else {
                Err(i)
            },
        }
    }
}

/// Whether the command at `i` is a comment or reset whose free text runs to
/// the very end of the input (rather than to a newline): only such a
/// command would swallow appended text.
pub open spec fn command_ends_at_eof_eol(s: Seq<char>, i: int) -> bool {
    let j = scan_while(s, i, ws_class());
    j < s.len() && (s[j] == '~' || s[j] == ';') && scan_while(s, j + 1, not_nl_class()) == s.len()
}

/// Whether the command at `i` is a comment or reset.
pub open spec fn is_eol_command_at(s: Seq<char>, i: int) -> bool {
    let j = scan_while(s, i, ws_class());
    j < s.len() && (s[j] == '~' || s[j] == ';')
}

/// No command of the parse from `i` on is a comment or reset cut off by the
/// end of the input.
pub open spec fn no_eof_eol_from(s: Seq<char>, i: int) -> bool
    decreases s.len() - i,
{
    if i >= s.len() {
        true
    } else {
        match command_at(s, i) {
            Err(_) => true,
            Ok((c, k)) => if i < k <= s.len() {
                !command_ends_at_eof_eol(s, i) && no_eof_eol_from(s, k)
            } else {
                true
            },
        }
    }
}

/// Parsing is translation-invariant: a command parsed inside the suffix of
/// a concatenation is the command of the suffix, shifted.
#[verifier::rlimit(80)]
pub proof fn lemma_command_at_shift(pre: Seq<char>, s: Seq<char>, i: int)
    requires
        0 <= i <= s.len(),
    ensures
        match command_at(s, i) {
            Ok((c, k)) => command_at(pre + s, pre.len() + i) == Ok::<(SpecCmd, int), int>(
                (c, pre.len() + k),
            ),
            Err(p) => command_at(pre + s, pre.len() + i) == Err::<(SpecCmd, int), int>(
                pre.len() + p,
            ),
        },
{
    let t = pre + s;
    let n = pre.len() as int;
    crate::chars::lemma_scan_while_shift(pre, s, i, ws_class());
    let j = scan_while(s, i, ws_class());
    crate::chars::lemma_scan_while(s, i, ws_class());
    if j >= s.len() {
    } else {
        assert(t[n + j] == s[j]);
        let c = s[j];
        if c == '~' {
            crate::chars::lemma_scan_while_shift(pre, s, j + 1, not_nl_class());
            let e = scan_while(s, j + 1, not_nl_class());
            crate::chars::lemma_scan_while(s, j + 1, not_nl_class());
            assert(t.subrange(n + j + 1, n + e) =~= s.subrange(j + 1, e));
        } else if c == '[' {
            crate::chars::lemma_scan_while_shift(pre, s, j + 1, ws_class());
            let k = scan_while(s, j + 1, ws_class());
            crate::chars::lemma_scan_while(s, j + 1, ws_class());
            crate::chars::lemma_scan_while_shift(pre, s, k, digit_class());
            let d = scan_while(s, k, digit_class());
            crate::chars::lemma_scan_while(s, k, digit_class());
            if d > k && d + 4 <= s.len() {
                assert(t[n + d] == s[d] && t[n + d + 1] == s[d + 1] && t[n + d + 2] == s[d + 2]
                    && t[n + d + 3] == s[d + 3]);
            }
            if d > k && d + 4 <= s.len() && s[d] == '_' && s[d + 1] == 'b' && s[d + 2] == 'p' && s[d
                + 3] == 'm' {
                crate::chars::lemma_scan_while_shift(pre, s, d + 4, ws_class());
                let m = scan_while(s, d + 4, ws_class());
                crate::chars::lemma_scan_while(s, d + 4, ws_class());
                if m < s.len() {
                    assert(t[n + m] == s[m]);
                    if s[m] == ']' {
                        crate::chars::lemma_scan_while_shift(pre, s, m + 1, ws_class());
                        assert(t.subrange(n + k, n + d) =~= s.subrange(k, d));
                        return ;
                    }
                }
            }
            crate::chars::lemma_scan_while_shift(pre, s, k, frac_class());
            let f = scan_while(s, k, frac_class());
            crate::chars::lemma_scan_while(s, k, frac_class());
            if f > k {
                crate::chars::lemma_scan_while_shift(pre, s, f, ws_class());
                let m2 = scan_while(s, f, ws_class());
                crate::chars::lemma_scan_while(s, f, ws_class());
                if m2 < s.len() {
                    assert(t[n + m2] == s[m2]);
                    if s[m2] == ']' {
                        crate::chars::lemma_scan_while_shift(pre, s, m2 + 1, ws_class());
                        assert(t.subrange(n + k, n + f) =~= s.subrange(k, f));
                    }
                }
            }
        } else if c == '*' {
            crate::chars::lemma_scan_while_shift(pre, s, j, star_class());
            let e = scan_while(s, j, star_class());
            crate::chars::lemma_scan_while(s, j, star_class());
            crate::chars::lemma_scan_while_shift(pre, s, e, ws_class());
        } else if c == '%' {
            crate::chars::lemma_scan_while_shift(pre, s, j + 1, ws_class());
            let k = scan_while(s, j + 1, ws_class());
            crate::chars::lemma_scan_while(s, j + 1, ws_class());
            crate::chars::lemma_scan_while_shift(pre, s, k, name_class());
            let e = scan_while(s, k, name_class());
            crate::chars::lemma_scan_while(s, k, name_class());
            if e != k {
                crate::chars::lemma_scan_while_shift(pre, s, e, ws_class());
                assert(t.subrange(n + k, n + e) =~= s.subrange(k, e));
            }
        } else if c == '|' {
            crate::chars::lemma_scan_while_shift(pre, s, j + 1, ws_class());
        } else if c == ';' {
            crate::chars::lemma_scan_while_shift(pre, s, j + 1, ws_not_nl_class());
            let k = scan_while(s, j + 1, ws_not_nl_class());
            crate::chars::lemma_scan_while(s, j + 1, ws_not_nl_class());
            crate::chars::lemma_scan_while_shift(pre, s, k, not_nl_class());
            let e = scan_while(s, k, not_nl_class());
            crate::chars::lemma_scan_while(s, k, not_nl_class());
            assert(t.subrange(n + k, n + e) =~= s.subrange(k, e));
        } else if c == '(' {
            crate::chars::lemma_scan_while_shift(pre, s, j + 1, ws_class());
            let k = scan_while(s, j + 1, ws_class());
            crate::chars::lemma_scan_while(s, j + 1, ws_class());
            crate::chars::lemma_scan_while_shift(pre, s, k, name_class());
            let nn = scan_while(s, k, name_class());
            crate::chars::lemma_scan_while(s, k, name_class());
            if nn != k {
                if nn < s.len() {
                    assert(t[n + nn] == s[nn]);
                }
                if nn < s.len() && is_ws_char(s[nn]) {
                    crate::chars::lemma_scan_while_shift(pre, s, nn, ws_class());
                    let w = scan_while(s, nn, ws_class());
                    crate::chars::lemma_scan_while(s, nn, ws_class());
                    crate::chars::lemma_scan_while_shift(pre, s, w, frac_class());
                    let f = scan_while(s, w, frac_class());
                    crate::chars::lemma_scan_while(s, w, frac_class());
                    if f != w {
                        crate::chars::lemma_scan_while_shift(pre, s, f, plus_class());
                        let di = scan_while(s, f, plus_class());
                        crate::chars::lemma_scan_while(s, f, plus_class());
                        crate::chars::lemma_scan_while_shift(pre, s, di, ws_class());
                        let m = scan_while(s, di, ws_class());
                        crate::chars::lemma_scan_while(s, di, ws_class());
                        if m < s.len() {
                            assert(t[n + m] == s[m]);
                        }
                        if m < s.len() && s[m] == ')' {
                            crate::chars::lemma_scan_while_shift(pre, s, m + 1, plus_class());
                            let d2 = scan_while(s, m + 1, plus_class());
                            crate::chars::lemma_scan_while(s, m + 1, plus_class());
                            crate::chars::lemma_scan_while_shift(pre, s, d2, ws_class());
                            assert(t.subrange(n + k, n + nn) =~= s.subrange(k, nn));
                            assert(t.subrange(n + w, n + di) =~= s.subrange(w, di));
                            assert(t.subrange(n + m + 1, n + d2) =~= s.subrange(m + 1, d2));
                        }
                    }
                }
            }
        }
    }
}

/// A successful parse inside the suffix of a concatenation yields the
/// suffix's own commands.
pub proof fn lemma_score_shift(pre: Seq<char>, s: Seq<char>, i: int)
    requires
        0 <= i <= s.len(),
        score_from(s, i) is Ok,
    ensures
        score_from(pre + s, pre.len() + i) == score_from(s, i),
    decreases s.len() - i,
{
    if i >= s.len() {
        assert((pre + s).len() == pre.len() + s.len());
    } else {
        lemma_command_at_shift(pre, s, i);
        match command_at(s, i) {
            Ok((c, k)) => {
                lemma_command_at_progress(s, i);
                lemma_command_at_progress(pre + s, pre.len() + i);
                lemma_score_shift(pre, s, k);
            },
            Err(_) => {},
        }
    }
}

/// Appending text that opens with a space does not disturb a command that
/// is not an end-of-input comment or reset; only its trailing whitespace
/// run can grow.
pub proof fn lemma_command_at_append(a: Seq<char>, t: Seq<char>, i: int)
    requires
        0 <= i <= a.len(),
        t.len() > 0,
        t[0] == ' ',
        command_at(a, i) is Ok,
        !command_ends_at_eof_eol(a, i),
    ensures
        ({
            let (c, k) = command_at(a, i)->Ok_0;
            if is_eol_command_at(a, i) {
                command_at(a + t, i) == Ok::<(SpecCmd, int), int>((c, k))
            } else {
                command_at(a + t, i) == Ok::<(SpecCmd, int), int>(
                    (c, scan_while(a + t, k, ws_class())),
                )
            }
        }),
{
    let u = a + t;
    crate::chars::lemma_scan_while(a, i, ws_class());
    let j = scan_while(a, i, ws_class());
    assert(j < a.len());
    crate::chars::lemma_scan_while_append(a, t, i, ws_class());
    assert(u[j] == a[j]);
    let c0 = a[j];
    if c0 == '~' {
        let e = scan_while(a, j + 1, not_nl_class());
        crate::chars::lemma_scan_while(a, j + 1, not_nl_class());
        assert(e < a.len());
        crate::chars::lemma_scan_while_append(a, t, j + 1, not_nl_class());
        assert(u.subrange(j + 1, e) =~= a.subrange(j + 1, e));
    } else if c0 == '[' {
        let k1 = scan_while(a, j + 1, ws_class());
        crate::chars::lemma_scan_while(a, j + 1, ws_class());
        lemma_scan_append_or_extend(a, t, j + 1, ws_class());
        let d = scan_while(a, k1, digit_class());
        crate::chars::lemma_scan_while(a, k1, digit_class());
        if d > k1 && d + 4 <= a.len() && a[d] == '_' && a[d + 1] == 'b' && a[d + 2] == 'p' && a[d
            + 3] == 'm' && bracket_close_at(a, d + 4) {
            // a tempo: every scan stops at a real character before the end
            assert(k1 < a.len());
            crate::chars::lemma_scan_while_append(a, t, j + 1, ws_class());
            crate::chars::lemma_scan_while_append(a, t, k1, digit_class());
            assert(u[d] == a[d] && u[d + 1] == a[d + 1] && u[d + 2] == a[d + 2] && u[d + 3] == a[d
                + 3]);
            let m = scan_while(a, d + 4, ws_class());
            crate::chars::lemma_scan_while(a, d + 4, ws_class());
            crate::chars::lemma_scan_while_append(a, t, d + 4, ws_class());
            assert(u[m] == a[m]);
            assert(u.subrange(k1, d) =~= a.subrange(k1, d));
            crate::chars::lemma_scan_while(a, m + 1, ws_class());
            lemma_scan_append_or_extend(a, t, m + 1, ws_class());
            lemma_ws_scan_merge(a, t, m + 1);
        } else {
            let f = scan_while(a, k1, frac_class());
            crate::chars::lemma_scan_while(a, k1, frac_class());
            assert(f > k1 && bracket_close_at(a, f));
            assert(k1 < a.len());
            crate::chars::lemma_scan_while_append(a, t, j + 1, ws_class());
            crate::chars::lemma_scan_while_append(a, t, k1, frac_class());
            let m = scan_while(a, f, ws_class());
            crate::chars::lemma_scan_while(a, f, ws_class());
            crate::chars::lemma_scan_while_append(a, t, f, ws_class());
            assert(u[m] == a[m]);
            // the tempo attempt fails in `u` exactly as it does in `a`
            let d2 = scan_while(a, k1, digit_class());
            crate::chars::lemma_scan_while(a, k1, digit_class());
            crate::chars::lemma_scan_while_append(a, t, k1, digit_class());
            if d2 > k1 && d2 + 4 <= u.len() {
                assert(u[d2] == if d2 < a.len() {
                    a[d2]
                } else {
                    t[d2 - a.len()]
                });
            }
            assert(u.subrange(k1, f) =~= a.subrange(k1, f));
            crate::chars::lemma_scan_while(a, m + 1, ws_class());
            lemma_scan_append_or_extend(a, t, m + 1, ws_class());
            lemma_ws_scan_merge(a, t, m + 1);
        }
    } else if c0 == '*' {
        let e = scan_while(a, j, star_class());
        crate::chars::lemma_scan_while(a, j, star_class());
        lemma_scan_append_or_extend_nonmatching(a, t, j, star_class());
        let e2 = scan_while(u, j, star_class());
        assert(e2 == e);
        crate::chars::lemma_scan_while(a, e, ws_class());
        lemma_scan_append_or_extend(a, t, e, ws_class());
        lemma_ws_scan_merge(a, t, e);
    } else if c0 == '%' {
        let k1 = scan_while(a, j + 1, ws_class());
        crate::chars::lemma_scan_while(a, j + 1, ws_class());
        lemma_scan_append_or_extend(a, t, j + 1, ws_class());
        let e = scan_while(a, k1, name_class());
        crate::chars::lemma_scan_while(a, k1, name_class());
        assert(e != k1);
        assert(k1 < a.len());
        crate::chars::lemma_scan_while_append(a, t, j + 1, ws_class());
        lemma_scan_append_or_extend_nonmatching(a, t, k1, name_class());
        assert(u.subrange(k1, e) =~= a.subrange(k1, e));
        crate::chars::lemma_scan_while(a, e, ws_class());
        lemma_scan_append_or_extend(a, t, e, ws_class());
        lemma_ws_scan_merge(a, t, e);
    } else if c0 == '|' {
        crate::chars::lemma_scan_while(a, j + 1, ws_class());
        lemma_scan_append_or_extend(a, t, j + 1, ws_class());
        lemma_ws_scan_merge(a, t, j + 1);
    } else if c0 == ';' {
        let k1 = scan_while(a, j + 1, ws_not_nl_class());
        crate::chars::lemma_scan_while(a, j + 1, ws_not_nl_class());
        let e = scan_while(a, k1, not_nl_class());
        crate::chars::lemma_scan_while(a, k1, not_nl_class());
        assert(e < a.len()) by {
            crate::chars::lemma_scan_while_through(a, j + 1, k1, not_nl_class());
        }
        crate::chars::lemma_scan_while_append(a, t, k1, not_nl_class());
        assert(k1 <= e < a.len());
        if k1 < a.len() {
            crate::chars::lemma_scan_while_append(a, t, j + 1, ws_not_nl_class());
        } else {
            assert(false);
        }
        assert(u.subrange(k1, e) =~= a.subrange(k1, e));
    } else if c0 == '(' {
        let k1 = scan_while(a, j + 1, ws_class());
        crate::chars::lemma_scan_while(a, j + 1, ws_class());
        let nn = scan_while(a, k1, name_class());
        crate::chars::lemma_scan_while(a, k1, name_class());
        assert(nn != k1 && nn < a.len() && is_ws_char(a[nn]));
        assert(k1 < a.len());
        crate::chars::lemma_scan_while_append(a, t, j + 1, ws_class());
        crate::chars::lemma_scan_while_append(a, t, k1, name_class());
        assert(u[nn] == a[nn]);
        let w = scan_while(a, nn, ws_class());
        crate::chars::lemma_scan_while(a, nn, ws_class());
        let f = scan_while(a, w, frac_class());
        crate::chars::lemma_scan_while(a, w, frac_class());
        assert(f != w);
        assert(w < a.len());
        crate::chars::lemma_scan_while_append(a, t, nn, ws_class());
        crate::chars::lemma_scan_while_append(a, t, w, frac_class());
        let di = scan_while(a, f, plus_class());
        crate::chars::lemma_scan_while(a, f, plus_class());
        let m = scan_while(a, di, ws_class());
        crate::chars::lemma_scan_while(a, di, ws_class());
        assert(m < a.len() && a[m] == ')');
        assert(di < a.len()) by {
            crate::chars::lemma_scan_while_through(a, di, m, ws_class());
        }
        crate::chars::lemma_scan_while_append(a, t, f, plus_class());
        crate::chars::lemma_scan_while_append(a, t, di, ws_class());
        assert(u[m] == a[m]);
        let d2 = scan_while(a, m + 1, plus_class());
        crate::chars::lemma_scan_while(a, m + 1, plus_class());
        lemma_scan_append_or_extend_nonmatching(a, t, m + 1, plus_class());
        assert(u.subrange(k1, nn) =~= a.subrange(k1, nn));
        assert(u.subrange(w, di) =~= a.subrange(w, di));
        assert(u.subrange(m + 1, d2) =~= a.subrange(m + 1, d2));
        crate::chars::lemma_scan_while(a, d2, ws_class());
        lemma_scan_append_or_extend(a, t, d2, ws_class());
        lemma_ws_scan_merge(a, t, d2);
    }
}

/// A scan in the concatenation either matches the scan in the prefix (when
/// that one stopped early) or continues from the prefix's end.
proof fn lemma_scan_append_or_extend(a: Seq<char>, t: Seq<char>, i: int, p: spec_fn(char) -> bool)
    requires
        0 <= i <= a.len(),
    ensures
        scan_while(a, i, p) < a.len() ==> scan_while(a + t, i, p) == scan_while(a, i, p),
        scan_while(a, i, p) == a.len() ==> scan_while(a + t, i, p) == scan_while(
            a + t,
            a.len() as int,
            p,
        ),
{
    crate::chars::lemma_scan_while(a, i, p);
    if scan_while(a, i, p) < a.len() {
        crate::chars::lemma_scan_while_append(a, t, i, p);
    } else {
        assert forall|k: int| i <= k < a.len() implies p((a + t)[k]) by {
            assert((a + t)[k] == a[k]);
        }
        crate::chars::lemma_scan_while_through(a + t, i, a.len() as int, p);
    }
}

/// Like [`lemma_scan_append_or_extend`], for classes the appended text's
/// first character does not match: the scan never crosses into the suffix.
proof fn lemma_scan_append_or_extend_nonmatching(
    a: Seq<char>,
    t: Seq<char>,
    i: int,
    p: spec_fn(char) -> bool,
)
    requires
        0 <= i <= a.len(),
        t.len() > 0,
        !p(t[0]),
    ensures
        scan_while(a + t, i, p) == scan_while(a, i, p),
{
    crate::chars::lemma_scan_while(a, i, p);
    if scan_while(a, i, p) < a.len() {
        crate::chars::lemma_scan_while_append(a, t, i, p);
    } else {
        assert forall|k: int| i <= k < a.len() implies p((a + t)[k]) by {
            assert((a + t)[k] == a[k]);
        }
        crate::chars::lemma_scan_while_through(a + t, i, a.len() as int, p);
        assert((a + t)[a.len() as int] == t[0]);
    }
}

/// Skipping whitespace from a position inside the prefix reaches the same
/// place as first stopping at the prefix's own whitespace end.
proof fn lemma_ws_scan_merge(a: Seq<char>, t: Seq<char>, x: int)
    requires
        0 <= x <= a.len(),
    ensures
        scan_while(a + t, x, ws_class()) == scan_while(a + t, scan_while(a, x, ws_class()), ws_class()),
{
    crate::chars::lemma_scan_while(a, x, ws_class());
    let k = scan_while(a, x, ws_class());
    assert forall|w: int| x <= w < k implies (ws_class())((a + t)[w]) by {
        assert((a + t)[w] == a[w]);
    }
    crate::chars::lemma_scan_while_through(a + t, x, k, ws_class());
}

/// A leading whitespace character changes nothing about the parse, as long
/// as real text still follows.
proof fn lemma_score_ws_step(t: Seq<char>, p: int)
    requires
        0 <= p,
        p + 1 < t.len(),
        is_ws_char(t[p]),
    ensures
        score_from(t, p) == score_from(t, p + 1),
{
    assert(scan_while(t, p, ws_class()) == scan_while(t, p + 1, ws_class()));
    assert(command_at(t, p) == command_at(t, p + 1));
    match command_at(t, p) {
        Ok((c, k)) => {
            lemma_command_at_progress(t, p + 1);
        },
        Err(_) => {},
    }
}

/// Leading whitespace of any length changes nothing about the parse, as
/// long as real text still follows.
proof fn lemma_score_ws_skip(t: Seq<char>, p: int, q: int)
    requires
        0 <= p <= q,
        q < t.len() || p == q,
        q <= t.len(),
        forall|k: int| p <= k < q ==> is_ws_char(t[k]),
    ensures
        score_from(t, p) == score_from(t, q),
    decreases q - p,
{
    if p < q {
        lemma_score_ws_step(t, p);
        lemma_score_ws_skip(t, p + 1, q);
    }
}

/// In the concatenation, a scan for the next command from anywhere inside
/// the first score stops before the end: the second score's first command
/// is there to stop it.
proof fn lemma_concat_scan_stops(a: Seq<char>, b: Seq<char>, k: int)
    requires
        0 <= k <= a.len(),
        score_from(b, 0) is Ok,
        score_from(b, 0)->Ok_0.len() > 0,
    ensures
        scan_while(a + seq![' '] + b, k, ws_class()) < (a + seq![' '] + b).len(),
{
    let u = a + seq![' '] + b;
    let j0 = scan_while(b, 0, ws_class());
    crate::chars::lemma_scan_while(b, 0, ws_class());
    assert(j0 < b.len()) by {
        if j0 >= b.len() {
            assert(command_at(b, 0) is Err);
            assert(score_from(b, 0)->Ok_0.len() == 0);
        }
    }
    let pos = a.len() + 1 + j0;
    assert(u[pos] == b[j0]);
    assert(!is_ws_char(u[pos]));
    crate::chars::lemma_scan_while(u, k, ws_class());
    if scan_while(u, k, ws_class()) >= u.len() {
        assert(is_ws_char(u[pos]));
    }
}

/// Concatenation, generalized over a starting position in the first score.
proof fn lemma_score_concat_from(a: Seq<char>, b: Seq<char>, i: int)
    requires
        0 <= i <= a.len(),
        score_from(a, i) is Ok,
        score_from(b, 0) is Ok,
        score_from(b, 0)->Ok_0.len() > 0,
        no_eof_eol_from(a, i),
    ensures
        score_from(a + seq![' '] + b, i) == Ok::<Seq<SpecCmd>, int>(
            score_from(a, i)->Ok_0 + score_from(b, 0)->Ok_0,
        ),
    decreases a.len() - i,
{
    let t: Seq<char> = seq![' '] + b;
    let u = a + seq![' '] + b;
    assert(u =~= a + t);
    if i >= a.len() {
        // only the separator and the second score remain
        assert(score_from(a, i) == Ok::<Seq<SpecCmd>, int>(Seq::empty()));
        lemma_score_shift(a + seq![' '], b, 0);
        assert((a + seq![' ']) + b =~= u);
        assert(score_from(u, a.len() as int + 1) == score_from(b, 0));
        assert(u[a.len() as int] == ' ');
        assert(b.len() > 0) by {
            if b.len() == 0 {
                assert(score_from(b, 0)->Ok_0.len() == 0);
            }
        }
        lemma_score_ws_skip(u, a.len() as int, a.len() as int + 1);
        assert(score_from(u, i) == score_from(u, a.len() as int)) by {
            assert(i == a.len());
        }
        assert(Seq::<SpecCmd>::empty() + score_from(b, 0)->Ok_0 =~= score_from(b, 0)->Ok_0);
    } else {
        match command_at(a, i) {
            Err(_) => {
                assert(score_from(a, i) is Err);
            },
            Ok((c, k)) => {
                lemma_command_at_progress(a, i);
                lemma_command_at_append(a, t, i);
                assert(t[0] == ' ');
                lemma_score_concat_from(a, b, k);
                let ca_rest = score_from(a, k)->Ok_0;
                let cb = score_from(b, 0)->Ok_0;
                if is_eol_command_at(a, i) {
                    assert(command_at(u, i) == Ok::<(SpecCmd, int), int>((c, k)));
                    lemma_command_at_progress(u, i);
                    assert(score_from(u, i) == Ok::<Seq<SpecCmd>, int>(
                        seq![c] + (ca_rest + cb),
                    ));
                } else {
                    let k2 = scan_while(u, k, ws_class());
                    assert(command_at(u, i) == Ok::<(SpecCmd, int), int>((c, k2)));
                    lemma_command_at_progress(u, i);
                    crate::chars::lemma_scan_while(u, k, ws_class());
                    lemma_concat_scan_stops(a, b, k);
                    lemma_score_ws_skip(u, k, k2);
                    assert(score_from(u, i) == Ok::<Seq<SpecCmd>, int>(
                        seq![c] + (ca_rest + cb),
                    ));
                }
                assert(seq![c] + (ca_rest + cb) =~= (seq![c] + ca_rest) + cb);
                assert(score_from(a, i)->Ok_0 == seq![c] + ca_rest);
            },
        }
    }
}

/// Concatenation law: parsing two syntactically valid scores joined by a
/// single space yields the concatenation of their command sequences.  Two
/// families of inputs are left out: a first score whose final command is a
/// comment or reset cut off by the end of the input rather than a newline,
/// which would swallow the appended text; and a second score with no
/// command at all, whose trailing whitespace no command would consume.
pub proof fn lemma_score_concatenation(a: Seq<char>, b: Seq<char>, ca: Seq<SpecCmd>, cb: Seq<
    SpecCmd,
>)
    requires
        score_from(a, 0) == Ok::<Seq<SpecCmd>, int>(ca),
        score_from(b, 0) == Ok::<Seq<SpecCmd>, int>(cb),
        cb.len() > 0,
        no_eof_eol_from(a, 0),
    ensures
        score_from(a + seq![' '] + b, 0) == Ok::<Seq<SpecCmd>, int>(ca + cb),
{
    lemma_score_concat_from(a, b, 0);
}

/// Prefix commands attached to the outcome of the remaining input.
pub open spec fn prepend_cmds(pre: Seq<SpecCmd>, r: Result<Seq<SpecCmd>, int>) -> Result<
    Seq<SpecCmd>,
    int,
> {
    match r {
        Ok(cs) => Ok(pre + cs),
        Err(p) => Err(p),
    }
}

/// Parse a whole score: the command sequence of the input, or the position
/// at which no further command could start.
pub fn score(s: &str) -> (r: Result<Vec<(String, String)>, ParseError>)
    ensures
        match r {
            Ok(cmds) => score_from(s@, 0) == Ok::<Seq<SpecCmd>, int>(cmds_view(cmds@)),
            Err(e) => score_from(s@, 0) == Err::<Seq<SpecCmd>, int>(e.position as int),
        },
{
    let len = s.unicode_len();
    let mut acc: Vec<(String, String)> = Vec::new();
    let mut i: usize = 0;
    proof {
        assert(cmds_view(acc@) =~= Seq::<SpecCmd>::empty());
    }
    loop
        invariant
            i <= len,
            len == s@.len(),
            score_from(s@, 0) == prepend_cmds(cmds_view(acc@), score_from(s@, i as int)),
        decreases len - i,
    {
        if i >= len {
            proof {
                assert(cmds_view(acc@) + Seq::<SpecCmd>::empty() =~= cmds_view(acc@));
            }
            return Ok(acc);
        }
        match parse_command(s, i) {
            Err(e) => {
                return Err(e);
            },
            Ok(((v, n), k)) => {
                let ghost old_acc = acc@;
                let ghost cmd: SpecCmd = (v@, n@);
                acc.push((v, n));
                proof {
                    assert(cmds_view(acc@) =~= cmds_view(old_acc).push(cmd));
                    match score_from(s@, k as int) {
                        Ok(rest) => {
                            assert(score_from(s@, i as int) == Ok::<Seq<SpecCmd>, int>(
                                seq![cmd] + rest,
                            ));
                            assert(cmds_view(old_acc) + (seq![cmd] + rest) =~= cmds_view(
                                old_acc,
                            ).push(cmd) + rest);
                        },
                        Err(p) => {
                            assert(score_from(s@, i as int) == Err::<Seq<SpecCmd>, int>(p));
                        },
                    }
                }
                i = k;
            },
        }
    }
}

/// Whether the input's first non-whitespace character is `c`.
pub open spec fn rule_starts(s: Seq<char>, c: char) -> bool {
    let j = scan_while(s, 0, ws_class());
    j < s.len() && s[j] == c
}

/// Whether a single command starting with `c` covers the whole input.
pub open spec fn rule_accepts(s: Seq<char>, c: char) -> bool {
    rule_starts(s, c) && match command_at(s, 0) {
        Ok((cmd, k)) => k == s.len(),
        Err(_) => false,
    }
}

/// The verb of the command parsed at the start of the input.
pub open spec fn parsed_verb(s: Seq<char>) -> Seq<char> {
    command_at(s, 0)->Ok_0.0.0
}

/// Parse a single command that must start with `c` and span the whole input.
fn parse_single(s: &str, c: char) -> (r: Result<(String, String), ParseError>)
    ensures
        match r {
            Ok((v, n)) => rule_accepts(s@, c) && command_at(s@, 0) == Ok::<(SpecCmd, int), int>(
                ((v@, n@), s@.len() as int),
            ),
            Err(_) => !rule_accepts(s@, c),
        },
{
    let len = s.unicode_len();
    let j = skip_ws(s, 0);
    if j >= len || s.get_char(j) != c {
        return Err(ParseError { position: j });
    }
    match parse_command(s, 0) {
        Ok(((v, n), k)) => {
            if k == len {
                Ok((v, n))
            } else {
                Err(ParseError { position: k })
            }
        },
        Err(e) => Err(e),
    }
}

/// Parse exactly one comment.
pub fn comment(s: &str) -> (r: Result<(String, String), ParseError>)
    ensures
        match r {
            Ok((v, n)) => rule_accepts(s@, '~') && command_at(s@, 0) == Ok::<(SpecCmd, int), int>(
                ((v@, n@), s@.len() as int),
            ),
            Err(_) => !rule_accepts(s@, '~'),
        },
{
    parse_single(s, '~')
}

/// Parse exactly one checkpoint.
pub fn checkpoint(s: &str) -> (r: Result<(String, String), ParseError>)
    ensures
        match r {
            Ok((v, n)) => rule_accepts(s@, '*') && command_at(s@, 0) == Ok::<(SpecCmd, int), int>(
                ((v@, n@), s@.len() as int),
            ),
            Err(_) => !rule_accepts(s@, '*'),
        },
{
    parse_single(s, '*')
}

/// Parse exactly one voice command.
pub fn voice(s: &str) -> (r: Result<(String, String), ParseError>)
    ensures
        match r {
            Ok((v, n)) => rule_accepts(s@, '%') && command_at(s@, 0) == Ok::<(SpecCmd, int), int>(
                ((v@, n@), s@.len() as int),
            ),
            Err(_) => !rule_accepts(s@, '%'),
        },
{
    parse_single(s, '%')
}

/// Parse exactly one measure bar.
pub fn measure(s: &str) -> (r: Result<(String, String), ParseError>)
    ensures
        match r {
            Ok((v, n)) => rule_accepts(s@, '|') && command_at(s@, 0) == Ok::<(SpecCmd, int), int>(
                ((v@, n@), s@.len() as int),
            ),
            Err(_) => !rule_accepts(s@, '|'),
        },
{
    parse_single(s, '|')
}

/// Parse exactly one reset.
pub fn reset(s: &str) -> (r: Result<(String, String), ParseError>)
    ensures
        match r {
            Ok((v, n)) => rule_accepts(s@, ';') && command_at(s@, 0) == Ok::<(SpecCmd, int), int>(
                ((v@, n@), s@.len() as int),
            ),
            Err(_) => !rule_accepts(s@, ';'),
        },
{
    parse_single(s, ';')
}

/// Parse exactly one note.
pub fn note(s: &str) -> (r: Result<(String, String), ParseError>)
    ensures
        match r {
            Ok((v, n)) => rule_accepts(s@, '(') && command_at(s@, 0) == Ok::<(SpecCmd, int), int>(
                ((v@, n@), s@.len() as int),
            ),
            Err(_) => !rule_accepts(s@, '('),
        },
{
    parse_single(s, '(')
}

/// Parse exactly one tempo command.
pub fn tempo(s: &str) -> (r: Result<(String, String), ParseError>)
    ensures
        match r {
            Ok((v, n)) => {
                &&& rule_accepts(s@, '[')
                &&& v@ == "tempo"@
                &&& command_at(s@, 0) == Ok::<(SpecCmd, int), int>(((v@, n@), s@.len() as int))
            },
            Err(_) => !(rule_accepts(s@, '[') && parsed_verb(s@) == "tempo"@),
        },
{
    match parse_single(s, '[') {
        Ok((v, n)) => {
            proof {
                reveal_strlit("tempo");
            }
            if crate::chars::str_eq(v.as_str(), "tempo") {
                Ok((v, n))
            } else {
                Err(ParseError { position: 0 })
            }
        },
        Err(e) => Err(e),
    }
}

/// Parse exactly one time-signature command.
pub fn time(s: &str) -> (r: Result<(String, String), ParseError>)
    ensures
        match r {
            Ok((v, n)) => {
                &&& rule_accepts(s@, '[')
                &&& v@ == "time"@
                &&& command_at(s@, 0) == Ok::<(SpecCmd, int), int>(((v@, n@), s@.len() as int))
            },
            Err(_) => !(rule_accepts(s@, '[') && parsed_verb(s@) == "time"@),
        },
{
    match parse_single(s, '[') {
        Ok((v, n)) => {
            proof {
                reveal_strlit("time");
            }
            if crate::chars::str_eq(v.as_str(), "time") {
                Ok((v, n))
            } else {
                Err(ParseError { position: 0 })
            }
        },
        Err(e) => Err(e),
    }
}

} // verus!
