//! The alignment formatter: each line is re-parsed with the score grammar,
//! per-note timing is recomputed in exact quarter-note arithmetic, and a
//! segment-based width distribution keeps simultaneous notes of stacked
//! voices vertically aligned.  Blocks are delimited by checkpoint lines,
//! which are stamped to one file-wide width at the end.
use crate::chars::blank_class;
use crate::chars::digit_class;
use crate::chars::is_blank_char;
use crate::chars::not_char_class;
use crate::chars::scan_back_while;
use crate::chars::scan_while;
use crate::chars::str_eq;
use crate::hum_editor::utils::line_starts_with;
use crate::hum_parse::hum_grammar::SpecCmd;
use crate::hum_parse::hum_grammar::cmds_view;
use crate::hum_parse::hum_grammar::score_from;
use crate::rat::Rat;
use crate::rat::mk_rat;
use crate::rat::rat_eq;
use crate::rat::rat_le;
use crate::rat::rat_lt;
use crate::rat::rat_wf;
use crate::rat::spec_add;
use crate::rat::spec_div;
use crate::rat::spec_mul;
use crate::rat::spec_sub;
use crate::text::line_at;
use crate::text::line_count;
use crate::text::rope_text;
use ropey::Rope;
use vstd::arithmetic::power2::pow2;
use vstd::prelude::*;

verus! {

/// The noun with every duration dot removed.
pub open spec fn strip_plus(n: Seq<char>) -> Seq<char>
    decreases n.len(),
{
    if n.len() == 0 {
        Seq::empty()
    } else {
        let rest = strip_plus(n.drop_last());
        if n.last() == '+' {
            rest
        } else {
            rest.push(n.last())
        }
    }
}

/// The number of duration dots in the noun.
pub open spec fn plus_count(n: Seq<char>) -> int {
    n.len() - strip_plus(n).len()
}

/// Stripping never lengthens the text.
pub proof fn lemma_strip_plus_len(n: Seq<char>)
    ensures
        strip_plus(n).len() <= n.len(),
    decreases n.len(),
{
    if n.len() > 0 {
        lemma_strip_plus_len(n.drop_last());
    }
}

/// Split a noun into its dot-free text and its dot count.
pub fn split_pluses(s: &str) -> (r: (Vec<char>, usize))
    ensures
        r.0@ == strip_plus(s@),
        r.1 == plus_count(s@),
{
    let n = s.unicode_len();
    let mut clean: Vec<char> = Vec::new();
    let mut pluses: usize = 0;
    let mut i: usize = 0;
    proof {
        assert(strip_plus(s@.subrange(0, 0)) =~= Seq::<char>::empty());
    }
    while i < n
        invariant
            i <= n,
            n == s@.len(),
            clean@ == strip_plus(s@.subrange(0, i as int)),
            pluses == i - clean@.len(),
        decreases n - i,
    {
        let c = s.get_char(i);
        proof {
            assert(s@.subrange(0, i + 1).drop_last() =~= s@.subrange(0, i as int));
            assert(s@.subrange(0, i + 1).last() == s@[i as int]);
            lemma_strip_plus_len(s@.subrange(0, i as int));
        }
        if c == '+' {
            pluses += 1;
        } else {
            clean.push(c);
        }
        i += 1;
    }
    proof {
        assert(s@.subrange(0, n as int) =~= s@);
        lemma_strip_plus_len(s@);
    }
    (clean, pluses)
}

/// The quarter-note value of a duration noun, if it has one: the noun with
/// dots removed must be exactly one fraction `N/D` (a numeric numerator, a
/// numeric denominator defaulting to one when non-numeric, neither zero),
/// and each dot multiplies by the dot-duration law; four quarters make a
/// whole note.  `None` stands for the original's zero sentinel, and also
/// covers values the exact arithmetic cannot represent.
pub open spec fn parse_duration_spec(nn: Seq<char>) -> Option<Rat> {
    let clean = strip_plus(nn);
    let p = plus_count(nn);
    let s1 = scan_while(clean, 0, not_char_class('/'));
    if !(s1 < clean.len() && scan_while(clean, s1 + 1, not_char_class('/')) == clean.len()) {
        None
    } else {
        let p0 = clean.subrange(0, s1);
        let p1 = clean.subrange(s1 + 1, clean.len() as int);
        let num: nat = if p0.len() > 0 && scan_while(p0, 0, digit_class()) == p0.len() {
            crate::chars::digits_val(p0)
        } else {
            0
        };
        let den: nat = if p1.len() > 0 && scan_while(p1, 0, digit_class()) == p1.len() {
            crate::chars::digits_val(p1)
        } else {
            1
        };
        if num == 0 || den == 0 || num > i64::MAX as nat || den > i64::MAX as nat || p >= 63 {
            None
        } else {
            match mk_rat(num * (2 * pow2(p as nat) - 1) as int, (den * pow2(p as nat)) as int) {
                None => None,
                Some(r1) => spec_mul(r1, Rat { n: 4, d: 1 }),
            }
        }
    }
}

/// Parses a duration noun into quarter notes, exactly.
pub fn parse_duration(duration_str: &str) -> (r: Option<Rat>)
    ensures
        r == parse_duration_spec(duration_str@),
        r is Some ==> rat_wf(r->Some_0),
{
    let (clean, pluses) = split_pluses(duration_str);
    let ghost cl = clean@;
    let cn = clean.len();
    // find the single slash
    let mut s1: usize = 0;
    while s1 < cn && clean[s1] != '/'
        invariant
            s1 <= cn,
            cn == cl.len(),
            cl == clean@,
            scan_while(cl, 0, not_char_class('/')) == scan_while(cl, s1 as int, not_char_class('/')),
        decreases cn - s1,
    {
        proof {
            assert(scan_while(cl, s1 as int, not_char_class('/')) == scan_while(
                cl,
                s1 + 1,
                not_char_class('/'),
            ));
        }
        s1 += 1;
    }
    proof {
        assert(scan_while(cl, s1 as int, not_char_class('/')) == s1 as int);
    }
    if s1 >= cn {
        return None;
    }
    let mut s2: usize = s1 + 1;
    while s2 < cn && clean[s2] != '/'
        invariant
            s1 + 1 <= s2 <= cn,
            cn == cl.len(),
            cl == clean@,
            scan_while(cl, s1 + 1, not_char_class('/')) == scan_while(
                cl,
                s2 as int,
                not_char_class('/'),
            ),
        decreases cn - s2,
    {
        proof {
            assert(scan_while(cl, s2 as int, not_char_class('/')) == scan_while(
                cl,
                s2 + 1,
                not_char_class('/'),
            ));
        }
        s2 += 1;
    }
    proof {
        assert(scan_while(cl, s2 as int, not_char_class('/')) == s2 as int);
    }
    if s2 != cn {
        return None;
    }
    let numv = match parse_part_u64(&clean, 0, s1) {
        Some(Some(v)) => v,
        Some(None) => {
            return None;
        },
        None => {
            return None;
        },
    };
    let denv = match parse_part_u64(&clean, s1 + 1, cn) {
        Some(Some(v)) => v,
        Some(None) => {
            return None;
        },
        None => 1u64,
    };
    if numv == 0 || denv == 0 || numv > i64::MAX as u64 || denv > i64::MAX as u64 || pluses >= 63 {
        return None;
    }
    let p2 = pow2_i128_fmt(pluses as u64);
    proof {
        crate::rat::lemma_scale_bounds(numv as int, denv as int, p2 as int);
        assert((numv as i128) * (2 * p2 - 1) == (numv as int) * (2 * (p2 as int) - 1));
    }
    let r1 = match crate::rat::reduce((numv as i128) * (2 * p2 - 1), (denv as i128) * p2) {
        Some(r) => r,
        None => {
            return None;
        },
    };
    proof {
        crate::rat::lemma_mk_rat(
            (numv as int) * (2 * (p2 as int) - 1),
            (denv as int) * (p2 as int),
        );
    }
    let r = r1.mul(Rat { n: 4, d: 1 });
    r
}

/// The numeric value of a digit run inside a character vector: the outer
/// level says whether the run is a nonempty all-digit text, the inner one
/// whether its value fits.
fn parse_part_u64(v: &Vec<char>, from: usize, to: usize) -> (r: Option<Option<u64>>)
    requires
        from <= to <= v@.len(),
    ensures
        ({
            let part = v@.subrange(from as int, to as int);
            match r {
                Some(Some(x)) => part.len() > 0 && scan_while(part, 0, digit_class()) == part.len()
                    && x == crate::chars::digits_val(part),
                Some(None) => part.len() > 0 && scan_while(part, 0, digit_class()) == part.len()
                    && crate::chars::digits_val(part) > u64::MAX,
                None => !(part.len() > 0 && scan_while(part, 0, digit_class()) == part.len()),
            }
        }),
{
    let ghost part = v@.subrange(from as int, to as int);
    if from == to {
        return None;
    }
    let mut acc: u64 = 0;
    let mut j = from;
    while j < to
        invariant
            from <= j <= to <= v@.len(),
            part == v@.subrange(from as int, to as int),
            forall|k: int| from <= k < j ==> crate::chars::is_digit_char(v@[k]),
            acc == crate::chars::digits_val(v@.subrange(from as int, j as int)),
        decreases to - j,
    {
        let c = v[j];
        if !crate::chars::digit_char(c) {
            proof {
                crate::chars::lemma_scan_while(part, 0, digit_class());
                assert(part[j - from] == v@[j as int]);
                if scan_while(part, 0, digit_class()) == part.len() {
                    assert(crate::chars::is_digit_char(part[j - from]));
                }
            }
            return None;
        }
        proof {
            assert(part[j - from] == v@[j as int]);
        }
        let d = (c as u32 - 48) as u64;
        let ghost prefix = v@.subrange(from as int, j as int);
        let ghost next = v@.subrange(from as int, j + 1 as int);
        proof {
            assert(next.drop_last() =~= prefix);
            assert(next.last() == v@[j as int]);
        }
        if acc > (u64::MAX - d) / 10 {
            proof {
                assert(crate::chars::digits_val(next) == acc * 10 + d > u64::MAX)
                    by (nonlinear_arith)
                    requires
                        acc > (u64::MAX - d) / 10,
                        d <= 9,
                        crate::chars::digits_val(next) == crate::chars::digits_val(prefix) * 10
                            + d,
                        acc == crate::chars::digits_val(prefix),
                ;
                assert(forall|k: int| 0 <= k < part.len() ==> part[k] == v@[k + from]);
                if forall|k: int| 0 <= k < part.len() ==> #[trigger] crate::chars::is_digit_char(
                    part[k],
                ) {
                    crate::chars::lemma_digits_val_take_le(part, j + 1 - from, to - from as int);
                    assert(part.subrange(0, j + 1 - from) =~= next);
                    assert(part.subrange(0, (to - from) as int) =~= part);
                } else {
                    let bad = choose|k: int|
                        0 <= k < part.len() && !crate::chars::is_digit_char(part[k]);
                    crate::chars::lemma_scan_while(part, 0, digit_class());
                    assert(!(scan_while(part, 0, digit_class()) == part.len()));
                }
            }
            if all_digits_from(v, j + 1, to) {
                proof {
                    crate::chars::lemma_scan_while_unique(part, 0, part.len() as int, digit_class());
                }
                return Some(None);
            } else {
                proof {
                    let bad = choose|k: int|
                        j + 1 <= k < to && !crate::chars::is_digit_char(v@[k]);
                    crate::chars::lemma_scan_while(part, 0, digit_class());
                    assert(part[bad - from] == v@[bad]);
                    if scan_while(part, 0, digit_class()) == part.len() {
                        assert(crate::chars::is_digit_char(part[bad - from]));
                    }
                }
                return None;
            }
        }
        proof {
            assert(acc * 10 + d <= u64::MAX) by (nonlinear_arith)
                requires
                    acc <= (u64::MAX - d) / 10,
                    d <= 9,
            ;
        }
        acc = acc * 10 + d;
        j += 1;
    }
    proof {
        assert(v@.subrange(from as int, j as int) =~= part);
        assert(forall|k: int| 0 <= k < part.len() ==> part[k] == v@[k + from]);
        crate::chars::lemma_scan_while_unique(part, 0, part.len() as int, digit_class());
    }
    Some(Some(acc))
}

/// Whether every character in `[from, to)` is a digit.
fn all_digits_from(v: &Vec<char>, from: usize, to: usize) -> (r: bool)
    requires
        from <= to <= v@.len(),
    ensures
        r == forall|k: int| from <= k < to ==> #[trigger] crate::chars::is_digit_char(v@[k]),
{
    let mut j = from;
    while j < to
        invariant
            from <= j <= to <= v@.len(),
            forall|k: int| from <= k < j ==> #[trigger] crate::chars::is_digit_char(v@[k]),
        decreases to - j,
    {
        if !crate::chars::digit_char(v[j]) {
            return false;
        }
        j += 1;
    }
    true
}

/// Two to the power `dots`, exactly (duplicated small helper for layout).
fn pow2_i128_fmt(dots: u64) -> (p: i128)
    requires
        dots < 63,
    ensures
        p == pow2(dots as nat),
        1 <= p <= 0x4000_0000_0000_0000i128,
{
    let mut p: i128 = 1;
    let mut k: u64 = 0;
    proof {
        vstd::arithmetic::power2::lemma2_to64();
        vstd::arithmetic::power2::lemma2_to64_rest();
        reveal(pow2);
    }
    while k < dots
        invariant
            k <= dots < 63,
            p == pow2(k as nat),
            1 <= p <= 0x4000_0000_0000_0000i128,
        decreases dots - k,
    {
        proof {
            vstd::arithmetic::power2::lemma_pow2_unfold((k + 1) as nat);
            if k + 1 < 62 {
                vstd::arithmetic::power2::lemma_pow2_strictly_increases((k + 1) as nat, 62);
            }
            vstd::arithmetic::power2::lemma2_to64_rest();
        }
        p = p * 2;
        k += 1;
    }
    p
}

/// The printed form of a note token: verb and dot-free noun inside
/// parentheses, dots outside.
pub open spec fn note_token_spec(verb: Seq<char>, noun: Seq<char>) -> Seq<char> {
    seq!['('] + verb + seq![' '] + strip_plus(noun) + seq![')'] + Seq::<char>::new(
        plus_count(noun) as nat,
        |i: int| '+',
    )
}

/// Formats a note token string `(Verb Noun)` with dots moved outside.
pub fn format_note_token(verb: &str, noun: &str) -> (r: String)
    ensures
        r@ == note_token_spec(verb@, noun@),
{
    let (clean, pluses) = split_pluses(noun);
    let mut v: Vec<char> = Vec::new();
    v.push('(');
    crate::strings::push_str_chars(&mut v, verb);
    v.push(' ');
    let mut i: usize = 0;
    let ghost mid = v@;
    while i < clean.len()
        invariant
            i <= clean@.len(),
            v@ == mid + clean@.subrange(0, i as int),
        decreases clean@.len() - i,
    {
        let ghost prev = v@;
        v.push(clean[i]);
        proof {
            assert(prev.push(clean@[i as int]) =~= mid + clean@.subrange(0, i + 1));
        }
        i += 1;
    }
    proof {
        assert(clean@.subrange(0, clean@.len() as int) =~= clean@);
    }
    v.push(')');
    let mut k: usize = 0;
    let ghost mid2 = v@;
    while k < pluses
        invariant
            k <= pluses,
            v@ == mid2 + Seq::<char>::new(k as nat, |i: int| '+'),
        decreases pluses - k,
    {
        let ghost prev = v@;
        v.push('+');
        proof {
            assert(prev.push('+') =~= mid2 + Seq::<char>::new((k + 1) as nat, |i: int| '+'));
        }
        k += 1;
    }
    proof {
        assert(v@ =~= note_token_spec(verb@, noun@));
    }
    crate::strings::chars_to_string(v)
}

/// The minimum display width a note token demands: its printed length plus
/// a fixed padding of two.
pub open spec fn note_min_width_spec(verb: Seq<char>, noun: Seq<char>) -> int {
    note_token_spec(verb, noun).len() as int + 2
}

/// Calculates the minimum display width for a note token.
pub fn calculate_note_min_width(verb: &str, noun: &str) -> (r: usize)
    requires
        verb@.len() + noun@.len() + 5 <= usize::MAX,
    ensures
        r == note_min_width_spec(verb@, noun@),
{
    let (clean, pluses) = split_pluses(noun);
    proof {
        crate::chars::lemma_scan_while(noun@, 0, crate::chars::plus_class());
        lemma_strip_plus_len(noun@);
    }
    verb.unicode_len() + clean.len() + pluses + 5
}

/// The reserved verbs of the grammar, as a spec-level predicate.
pub open spec fn is_reserved_verb(v: Seq<char>) -> bool {
    ||| v == "comment"@
    ||| v == "tempo"@
    ||| v == "time"@
    ||| v == "checkpoint"@
    ||| v == "voice"@
    ||| v == "measure"@
    ||| v == "reset"@
}

/// Checks if a command verb is a reserved keyword (not a note).
pub fn is_reserved_command(verb: &str) -> (r: bool)
    ensures
        r == is_reserved_verb(verb@),
{
    proof {
        reveal_strlit("comment");
        reveal_strlit("tempo");
        reveal_strlit("time");
        reveal_strlit("checkpoint");
        reveal_strlit("voice");
        reveal_strlit("measure");
        reveal_strlit("reset");
    }
    str_eq(verb, "comment") || str_eq(verb, "tempo") || str_eq(verb, "time") || str_eq(
        verb,
        "checkpoint",
    ) || str_eq(verb, "voice") || str_eq(verb, "measure") || str_eq(verb, "reset")
}

/// The fixed textual form of a reserved command.
pub open spec fn reserved_command_spec(verb: Seq<char>, noun: Seq<char>) -> Seq<char> {
    if verb == "measure"@ {
        "| "@
    } else if verb == "reset"@ {
        if noun.len() == 0 {
            ";"@
        } else {
            "; "@ + noun
        }
    } else if verb == "voice"@ {
        "% "@ + noun + " "@
    } else if verb == "tempo"@ {
        "[ "@ + noun + "_bpm ] "@
    } else if verb == "time"@ {
        "[ "@ + noun + " ] "@
    } else if verb == "comment"@ {
        "~ "@ + noun
    } else if verb == "checkpoint"@ {
        "*"@
    } else {
        Seq::empty()
    }
}

/// Formats a reserved (non-note) command into its fixed textual form.
pub fn format_reserved_command(verb: &str, noun: &str) -> (r: String)
    ensures
        r@ == reserved_command_spec(verb@, noun@),
{
    proof {
        reveal_strlit("comment");
        reveal_strlit("tempo");
        reveal_strlit("time");
        reveal_strlit("checkpoint");
        reveal_strlit("voice");
        reveal_strlit("measure");
        reveal_strlit("reset");
    }
    if str_eq(verb, "measure") {
        String::from_str("| ")
    } else if str_eq(verb, "reset") {
        if noun.unicode_len() == 0 {
            let r = String::from_str(";");
            proof {
                assert(noun@ =~= Seq::<char>::empty()) by {
                    assert(noun@.len() == 0);
                }
            }
            r
        } else {
            String::from_str("; ").concat(noun)
        }
    } else if str_eq(verb, "voice") {
        String::from_str("% ").concat(noun).concat(" ")
    } else if str_eq(verb, "tempo") {
        String::from_str("[ ").concat(noun).concat("_bpm ] ")
    } else if str_eq(verb, "time") {
        String::from_str("[ ").concat(noun).concat(" ] ")
    } else if str_eq(verb, "comment") {
        String::from_str("~ ").concat(noun)
    } else if str_eq(verb, "checkpoint") {
        String::from_str("*")
    } else {
        String::new()
    }
}

/// The padded form of a note token: a space, then filler dashes when the
/// slack leaves room for them and another token follows, then a closing
/// space; a token with no slack gets a single space.
pub open spec fn padded_spec(ns: Seq<char>, target: int, has_next: bool) -> Seq<char> {
    if target > ns.len() {
        let pad = target - ns.len();
        if pad >= 2 {
            ns + seq![' '] + (if pad - 2 > 0 && has_next {
                Seq::<char>::new((pad - 2) as nat, |i: int| '-')
            } else {
                Seq::empty()
            }) + seq![' ']
        } else {
            ns + seq![' ']
        }
    } else {
        ns + seq![' ']
    }
}

/// Applies padding (spaces and dashes) to a note string to reach the
/// target length.
pub fn apply_padding(note_str: &str, target_len: usize, has_next_command: bool) -> (r: String)
    ensures
        r@ == padded_spec(note_str@, target_len as int, has_next_command),
{
    let n = note_str.unicode_len();
    let mut v: Vec<char> = Vec::new();
    crate::strings::push_str_chars(&mut v, note_str);
    if target_len > n {
        let padding_space = target_len - n;
        v.push(' ');
        if padding_space >= 2 {
            let dash_count = padding_space - 2;
            if dash_count > 0 && has_next_command {
                let mut k: usize = 0;
                let ghost mid = v@;
                while k < dash_count
                    invariant
                        k <= dash_count,
                        v@ == mid + Seq::<char>::new(k as nat, |i: int| '-'),
                    decreases dash_count - k,
                {
                    let ghost prev = v@;
                    v.push('-');
                    proof {
                        assert(prev.push('-') =~= mid + Seq::<char>::new(
                            (k + 1) as nat,
                            |i: int| '-',
                        ));
                    }
                    k += 1;
                }
            }
            v.push(' ');
        }
    } else {
        v.push(' ');
    }
    proof {
        assert(v@ =~= padded_spec(note_str@, target_len as int, has_next_command));
    }
    crate::strings::chars_to_string(v)
}

/// A time interval within one measure carrying its accumulated required
/// display width; the midpoint decides which notes cover it.
#[derive(Clone, Copy, Debug, PartialEq, Eq, Structural)]
pub struct Segment {
    pub start: Rat,
    pub end: Rat,
    pub mid: Rat,
    pub width: Rat,
}

/// A note's demand on a measure: its start, duration and end in quarter
/// notes, and its minimum display width.
#[derive(Clone, Copy, Debug, PartialEq, Eq, Structural)]
pub struct LayoutEvent {
    pub start: Rat,
    pub dur: Rat,
    pub end: Rat,
    pub min_width: Rat,
}

/// The layout of one measure: its disjoint segments in time order.
#[derive(Debug)]
pub struct MeasureLayout {
    pub segments: Vec<Segment>,
}

/// Every rational in a sequence of events is well formed.
pub open spec fn events_wf(evs: Seq<LayoutEvent>) -> bool {
    forall|i: int|
        0 <= i < evs.len() ==> rat_wf(#[trigger] evs[i].start) && rat_wf(evs[i].dur) && rat_wf(
            evs[i].end,
        ) && rat_wf(evs[i].min_width)
}

/// Every rational in a sequence of segments is well formed.
pub open spec fn segs_wf(segs: Seq<Segment>) -> bool {
    forall|i: int|
        0 <= i < segs.len() ==> rat_wf(#[trigger] segs[i].start) && rat_wf(segs[i].end) && rat_wf(
            segs[i].mid,
        ) && rat_wf(segs[i].width)
}

/// Every rational in a list of cut points is well formed.
pub open spec fn cuts_wf(cs: Seq<Rat>) -> bool {
    forall|i: int| 0 <= i < cs.len() ==> rat_wf(#[trigger] cs[i])
}

/// The view of bucketed events: indexes widened to mathematical integers.
pub open spec fn evs_view(v: Seq<(usize, LayoutEvent)>) -> Seq<(int, LayoutEvent)> {
    v.map_values(|p: (usize, LayoutEvent)| (p.0 as int, p.1))
}

/// A parsed duration is a well-formed positive rational.
pub proof fn lemma_parse_duration_wf(nn: Seq<char>)
    ensures
        parse_duration_spec(nn) matches Some(q) ==> rat_wf(q) && q.n > 0,
{
    if parse_duration_spec(nn) is Some {
        let clean = strip_plus(nn);
        let p = plus_count(nn);
        let s1 = scan_while(clean, 0, not_char_class('/'));
        let p0 = clean.subrange(0, s1);
        let p1 = clean.subrange(s1 + 1, clean.len() as int);
        let num: nat = if p0.len() > 0 && scan_while(p0, 0, digit_class()) == p0.len() {
            crate::chars::digits_val(p0)
        } else {
            0
        };
        let den: nat = if p1.len() > 0 && scan_while(p1, 0, digit_class()) == p1.len() {
            crate::chars::digits_val(p1)
        } else {
            1
        };
        vstd::arithmetic::power2::lemma_pow2_pos(p as nat);
        let pp = pow2(p as nat) as int;
        assert(num * (2 * pow2(p as nat) - 1) as int > 0) by (nonlinear_arith)
            requires
                num > 0,
                pp >= 1,
                num * (2 * pow2(p as nat) - 1) as int == num * (2 * pp - 1),
        ;
        assert((den * pow2(p as nat)) as int > 0) by (nonlinear_arith)
            requires
                den > 0,
                pp >= 1,
                (den * pow2(p as nat)) as int == den * pp,
        ;
        crate::rat::lemma_mk_rat(
            num * (2 * pow2(p as nat) - 1) as int,
            (den * pow2(p as nat)) as int,
        );
        let r1 = mk_rat(num * (2 * pow2(p as nat) - 1) as int, (den * pow2(p as nat)) as int)->Some_0;
        crate::rat::lemma_spec_mul(r1, Rat { n: 4, d: 1 });
        let q = spec_mul(r1, Rat { n: 4, d: 1 })->Some_0;
        assert(q.n * ((r1.d as int) * 1) == (r1.n as int) * 4 * q.d);
        assert(q.n > 0) by (nonlinear_arith)
            requires
                q.n * ((r1.d as int) * 1) == (r1.n as int) * 4 * (q.d as int),
                r1.n > 0,
                r1.d > 0,
                q.d > 0,
        ;
    }
}

/// The events a line yields are well formed with bucket indexes in range.
pub proof fn lemma_line_events_wf(cmds: Seq<SpecCmd>, i: int, midx: int, t: Rat)
    requires
        rat_wf(t),
        0 <= i,
        -1 <= midx <= i,
    ensures
        line_events_spec(cmds, i, midx, t) matches Some(evs) ==> bucketed_wf_spec(
            evs,
            cmds.len() as int,
        ),
    decreases cmds.len() - i,
{
    if i < cmds.len() {
        let (v, n) = cmds[i];
        if v == "measure"@ {
            lemma_line_events_wf(cmds, i + 1, midx + 1, Rat { n: 0, d: 1 });
        } else if is_reserved_verb(v) {
            lemma_line_events_wf(cmds, i + 1, midx, t);
        } else {
            lemma_parse_duration_wf(n);
            match parse_duration_spec(n) {
                None => {
                    lemma_line_events_wf(cmds, i + 1, midx, t);
                },
                Some(q) => {
                    let w = note_min_width_spec(v, n);
                    if w <= i64::MAX as int {
                        match spec_add(t, q) {
                            None => {},
                            Some(end) => {
                                crate::rat::lemma_spec_add(t, q);
                                lemma_line_events_wf(cmds, i + 1, midx, end);
                                match line_events_spec(cmds, i + 1, midx, end) {
                                    None => {},
                                    Some(rest) => {
                                        let b = if midx < 0 {
                                            0int
                                        } else {
                                            midx
                                        };
                                        let ev = LayoutEvent {
                                            start: t,
                                            dur: q,
                                            end,
                                            min_width: Rat { n: w as i64, d: 1 },
                                        };
                                        let evs = seq![(b, ev)] + rest;
                                        assert forall|k: int| 0 <= k < evs.len() implies rat_wf(
                                            #[trigger] evs[k].1.start,
                                        ) && rat_wf(evs[k].1.dur) && rat_wf(evs[k].1.end)
                                            && rat_wf(evs[k].1.min_width) && 0 <= evs[k].0
                                            <= cmds.len() by {
                                            if k > 0 {
                                                assert(evs[k] == rest[k - 1]);
                                                assert(rat_wf(rest[k - 1].1.start));
                                            }
                                        }
                                    },
                                }
                            },
                        }
                    }
                },
            }
        }
    }
}

/// Bucketed events with well-formed rationals and bucket indexes in range.
pub open spec fn bucketed_wf_spec(evs: Seq<(int, LayoutEvent)>, bound: int) -> bool {
    forall|k: int|
        0 <= k < evs.len() ==> rat_wf(#[trigger] evs[k].1.start) && rat_wf(evs[k].1.dur) && rat_wf(
            evs[k].1.end,
        ) && rat_wf(evs[k].1.min_width) && 0 <= evs[k].0 <= bound
}

/// The note events of one parsed line, bucketed by measure index (notes
/// before the first bar land in measure zero): a walk over the commands
/// carrying the measure counter and the running in-measure time; `None`
/// when a value escapes the exact arithmetic, in which case the line is
/// left out of the layout and later passed through unchanged.
pub open spec fn line_events_spec(cmds: Seq<SpecCmd>, i: int, midx: int, t: Rat) -> Option<
    Seq<(int, LayoutEvent)>,
>
    decreases cmds.len() - i,
{
    if i >= cmds.len() {
        Some(Seq::empty())
    } else {
        let (v, n) = cmds[i];
        if v == "measure"@ {
            line_events_spec(cmds, i + 1, midx + 1, Rat { n: 0, d: 1 })
        } else if is_reserved_verb(v) {
            line_events_spec(cmds, i + 1, midx, t)
        } else {
            match parse_duration_spec(n) {
                None => line_events_spec(cmds, i + 1, midx, t),
                Some(q) => {
                    let w = note_min_width_spec(v, n);
                    if w > i64::MAX as int {
                        None
                    } else {
                        match spec_add(t, q) {
                            None => None,
                            Some(end) => {
                                let ev = LayoutEvent {
                                    start: t,
                                    dur: q,
                                    end,
                                    min_width: Rat { n: w as i64, d: 1 },
                                };
                                let b = if midx < 0 {
                                    0int
                                } else {
                                    midx
                                };
                                match line_events_spec(cmds, i + 1, midx, end) {
                                    None => None,
                                    Some(rest) => Some(seq![(b, ev)] + rest),
                                }
                            },
                        }
                    }
                },
            }
        }
    }
}

/// Collect the note events of one parsed line, mirroring
/// [`line_events_spec`].
#[verifier::rlimit(60)]
fn line_events(cmds: &Vec<(String, String)>, i: usize, midx: i128, t: Rat) -> (r: Option<
    Vec<(usize, LayoutEvent)>,
>)
    requires
        i <= cmds@.len(),
        -1 <= midx <= i as int,
        rat_wf(t),
    ensures
        r is Some ==> line_events_spec(cmds_view(cmds@), i as int, midx as int, t) == Some(
            evs_view(r->Some_0@),
        ),

        r is None ==> line_events_spec(cmds_view(cmds@), i as int, midx as int, t) is None,
    decreases cmds@.len() - i,
{
    proof {
        reveal_strlit("measure");
    }
    if i >= cmds.len() {
        proof {
            assert(evs_view(Seq::<(usize, LayoutEvent)>::empty()) =~= Seq::<(
                int,
                LayoutEvent,
            )>::empty());
        }
        return Some(Vec::new());
    }
    let verb = &cmds[i].0;
    let noun = &cmds[i].1;
    proof {
        assert(cmds_view(cmds@)[i as int] == (verb@, noun@));
    }
    if str_eq(verb.as_str(), "measure") {
        line_events(cmds, i + 1, midx + 1, Rat { n: 0, d: 1 })
    } else if is_reserved_command(verb.as_str()) {
        line_events(cmds, i + 1, midx, t)
    } else {
        match parse_duration(noun.as_str()) {
            None => line_events(cmds, i + 1, midx, t),
            Some(q) => {
                let w = calculate_note_min_width_checked(verb.as_str(), noun.as_str());
                match w {
                    None => None,
                    Some(wv) => {
                        match t.add(q) {
                            None => None,
                            Some(end) => {
                                let ev = LayoutEvent {
                                    start: t,
                                    dur: q,
                                    end,
                                    min_width: Rat { n: wv, d: 1 },
                                };
                                let b: usize = if midx < 0 {
                                    0
                                } else {
                                    midx as usize
                                };
                                match line_events(cmds, i + 1, midx, end) {
                                    None => None,
                                    Some(rest) => {
                                        let mut out: Vec<(usize, LayoutEvent)> = Vec::new();
                                        out.push((b, ev));
                                        let mut k: usize = 0;
                                        while k < rest.len()
                                            invariant
                                                k <= rest@.len(),
                                                out@ == seq![(b, ev)] + rest@.subrange(
                                                    0,
                                                    k as int,
                                                ),
                                            decreases rest@.len() - k,
                                        {
                                            let ghost prev = out@;
                                            out.push(rest[k]);
                                            proof {
                                                assert(prev.push(rest@[k as int]) =~= seq![
                                                    (b, ev),
                                                ] + rest@.subrange(0, k + 1));
                                            }
                                            k += 1;
                                        }
                                        proof {
                                            assert(rest@.subrange(0, rest@.len() as int)
                                                =~= rest@);
                                            assert(evs_view(out@) =~= seq![(b as int, ev)]
                                                + evs_view(rest@));

                                        }
                                        Some(out)
                                    },
                                }
                            },
                        }
                    },
                }
            },
        }
    }
}

/// The minimum width of a note token, when it fits the arithmetic.
fn calculate_note_min_width_checked(verb: &str, noun: &str) -> (r: Option<i64>)
    ensures
        match r {
            Some(w) => note_min_width_spec(verb@, noun@) == w as int && note_min_width_spec(
                verb@,
                noun@,
            ) <= i64::MAX as int,
            None => note_min_width_spec(verb@, noun@) > i64::MAX as int,
        },
{
    let (clean, pluses) = split_pluses(noun);
    let vl = verb.unicode_len() as u128;
    let cl = clean.len() as u128;
    let pl = pluses as u128;
    proof {
        lemma_strip_plus_len(noun@);
    }
    let total: u128 = vl + cl + pl + 5;
    if total <= i64::MAX as u128 {
        Some(total as i64)
    } else {
        None
    }
}

/// Stable insertion by duration: an event goes after every event of equal
/// or shorter duration, so equal durations keep their original order.
pub open spec fn insert_by_dur(sorted: Seq<LayoutEvent>, e: LayoutEvent) -> Seq<LayoutEvent>
    decreases sorted.len(),
{
    if sorted.len() == 0 {
        seq![e]
    } else if rat_le(sorted[0].dur, e.dur) {
        seq![sorted[0]] + insert_by_dur(sorted.drop_first(), e)
    } else {
        seq![e] + sorted
    }
}

/// The events sorted by duration, shortest first, stably.
pub open spec fn sort_by_dur(evs: Seq<LayoutEvent>, i: int, acc: Seq<LayoutEvent>) -> Seq<
    LayoutEvent,
>
    decreases evs.len() - i,
{
    if i < 0 || i >= evs.len() {
        acc
    } else {
        sort_by_dur(evs, i + 1, insert_by_dur(acc, evs[i]))
    }
}

proof fn lemma_insert_by_dur_wf(sorted: Seq<LayoutEvent>, e: LayoutEvent)
    requires
        events_wf(sorted),
        rat_wf(e.start) && rat_wf(e.dur) && rat_wf(e.end) && rat_wf(e.min_width),
    ensures
        events_wf(insert_by_dur(sorted, e)),
        insert_by_dur(sorted, e).len() == sorted.len() + 1,
    decreases sorted.len(),
{
    if sorted.len() == 0 {
        assert(events_wf(seq![e])) by {
            assert(seq![e][0] == e);
        }
    } else if rat_le(sorted[0].dur, e.dur) {
        assert(events_wf(sorted.drop_first()));
        lemma_insert_by_dur_wf(sorted.drop_first(), e);
        let r = seq![sorted[0]] + insert_by_dur(sorted.drop_first(), e);
        assert forall|i: int| 0 <= i < r.len() implies rat_wf(#[trigger] r[i].start) && rat_wf(
            r[i].dur,
        ) && rat_wf(r[i].end) && rat_wf(r[i].min_width) by {
            if i == 0 {
                assert(r[0] == sorted[0]);
                assert(rat_wf(sorted[0].start));
            } else {
                assert(r[i] == insert_by_dur(sorted.drop_first(), e)[i - 1]);
                assert(rat_wf(insert_by_dur(sorted.drop_first(), e)[i - 1].start));
            }
        }
    } else {
        let r = seq![e] + sorted;
        assert forall|i: int| 0 <= i < r.len() implies rat_wf(#[trigger] r[i].start) && rat_wf(
            r[i].dur,
        ) && rat_wf(r[i].end) && rat_wf(r[i].min_width) by {
            if i > 0 {
                assert(r[i] == sorted[i - 1]);
                assert(rat_wf(sorted[i - 1].start));
            }
        }
    }
}

/// Insert one event into a sorted vector, mirroring [`insert_by_dur`].
fn insert_by_dur_exec(sorted: &Vec<LayoutEvent>, from: usize, e: LayoutEvent) -> (r: Vec<
    LayoutEvent,
>)
    requires
        from <= sorted@.len(),
        events_wf(sorted@),
        rat_wf(e.start) && rat_wf(e.dur) && rat_wf(e.end) && rat_wf(e.min_width),
    ensures
        r@ == insert_by_dur(sorted@.skip(from as int), e),
    decreases sorted@.len() - from,
{
    if from >= sorted.len() {
        let mut out: Vec<LayoutEvent> = Vec::new();
        out.push(e);
        proof {
            assert(sorted@.skip(from as int) =~= Seq::<LayoutEvent>::empty());
            assert(out@ =~= seq![e]);
        }
        out
    } else {
        let head = sorted[from];
        proof {
            assert(sorted@.skip(from as int)[0] == sorted@[from as int]);
            assert(events_wf(sorted@.skip(from as int)));
            assert(rat_wf(sorted@[from as int].start));
        }
        if head.dur.le(e.dur) {
            let rest = insert_by_dur_exec(sorted, from + 1, e);
            let mut out: Vec<LayoutEvent> = Vec::new();
            out.push(head);
            let mut k: usize = 0;
            while k < rest.len()
                invariant
                    k <= rest@.len(),
                    out@ == seq![head] + rest@.subrange(0, k as int),
                decreases rest@.len() - k,
            {
                let ghost prev = out@;
                out.push(rest[k]);
                proof {
                    assert(prev.push(rest@[k as int]) =~= seq![head] + rest@.subrange(0, k + 1));
                }
                k += 1;
            }
            proof {
                assert(rest@.subrange(0, rest@.len() as int) =~= rest@);
                assert(sorted@.skip(from as int).drop_first() =~= sorted@.skip(from + 1));
            }
            out
        } else {
            let mut out: Vec<LayoutEvent> = Vec::new();
            out.push(e);
            let mut k: usize = from;
            while k < sorted.len()
                invariant
                    from <= k <= sorted@.len(),
                    out@ == seq![e] + sorted@.subrange(from as int, k as int),
                decreases sorted@.len() - k,
            {
                let ghost prev = out@;
                out.push(sorted[k]);
                proof {
                    assert(prev.push(sorted@[k as int]) =~= seq![e] + sorted@.subrange(
                        from as int,
                        k + 1,
                    ));
                }
                k += 1;
            }
            proof {
                assert(sorted@.subrange(from as int, sorted@.len() as int) =~= sorted@.skip(
                    from as int,
                ));
            }
            out
        }
    }
}

/// A cut point goes into its place in the ordered list of distinct time
/// boundaries; a value already present (by exact equality of rationals)
/// changes nothing.  Deduplication is exact: musical time here is exact
/// rational arithmetic, so the small tolerance that floating-point
/// boundary comparison would need has no residue to absorb, and the
/// resulting segments are disjoint exactly.
pub open spec fn insert_cut(cs: Seq<Rat>, x: Rat) -> Seq<Rat>
    decreases cs.len(),
{
    if cs.len() == 0 {
        seq![x]
    } else if rat_eq(x, cs[0]) {
        cs
    } else if rat_lt(x, cs[0]) {
        seq![x] + cs
    } else {
        seq![cs[0]] + insert_cut(cs.drop_first(), x)
    }
}

/// The ordered distinct time boundaries of a measure's events, starting
/// from zero; distinctness is exact equality of the rational boundaries.
pub open spec fn cuts_of(evs: Seq<LayoutEvent>, i: int, acc: Seq<Rat>) -> Seq<Rat>
    decreases evs.len() - i,
{
    if i < 0 || i >= evs.len() {
        acc
    } else {
        cuts_of(evs, i + 1, insert_cut(insert_cut(acc, evs[i].start), evs[i].end))
    }
}

proof fn lemma_insert_cut_wf(cs: Seq<Rat>, x: Rat)
    requires
        cuts_wf(cs),
        rat_wf(x),
    ensures
        cuts_wf(insert_cut(cs, x)),
    decreases cs.len(),
{
    if cs.len() > 0 && !rat_eq(x, cs[0]) && !rat_lt(x, cs[0]) {
        assert(cuts_wf(cs.drop_first()));
        lemma_insert_cut_wf(cs.drop_first(), x);
    }
}

/// Insert one cut point, mirroring [`insert_cut`].
fn insert_cut_exec(cs: &Vec<Rat>, from: usize, x: Rat) -> (r: Vec<Rat>)
    requires
        from <= cs@.len(),
        cuts_wf(cs@),
        rat_wf(x),
    ensures
        r@ == insert_cut(cs@.skip(from as int), x),
    decreases cs@.len() - from,
{
    if from >= cs.len() {
        let mut out: Vec<Rat> = Vec::new();
        out.push(x);
        proof {
            assert(cs@.skip(from as int) =~= Seq::<Rat>::empty());
            assert(out@ =~= seq![x]);
        }
        out
    } else {
        let head = cs[from];
        proof {
            assert(cs@.skip(from as int)[0] == cs@[from as int]);
            assert(cuts_wf(cs@.skip(from as int)));
        }
        if x.eq_val(head) {
            let mut out: Vec<Rat> = Vec::new();
            let mut k: usize = from;
            while k < cs.len()
                invariant
                    from <= k <= cs@.len(),
                    out@ == cs@.subrange(from as int, k as int),
                decreases cs@.len() - k,
            {
                let ghost prev = out@;
                out.push(cs[k]);
                proof {
                    assert(prev.push(cs@[k as int]) =~= cs@.subrange(from as int, k + 1));
                }
                k += 1;
            }
            proof {
                assert(cs@.subrange(from as int, cs@.len() as int) =~= cs@.skip(from as int));
            }
            out
        } else if x.lt(head) {
            let mut out: Vec<Rat> = Vec::new();
            out.push(x);
            let mut k: usize = from;
            while k < cs.len()
                invariant
                    from <= k <= cs@.len(),
                    out@ == seq![x] + cs@.subrange(from as int, k as int),
                decreases cs@.len() - k,
            {
                let ghost prev = out@;
                out.push(cs[k]);
                proof {
                    assert(prev.push(cs@[k as int]) =~= seq![x] + cs@.subrange(from as int, k + 1));
                }
                k += 1;
            }
            proof {
                assert(cs@.subrange(from as int, cs@.len() as int) =~= cs@.skip(from as int));
            }
            out
        } else {
            let rest = insert_cut_exec(cs, from + 1, x);
            let mut out: Vec<Rat> = Vec::new();
            out.push(head);
            let mut k: usize = 0;
            while k < rest.len()
                invariant
                    k <= rest@.len(),
                    out@ == seq![head] + rest@.subrange(0, k as int),
                decreases rest@.len() - k,
            {
                let ghost prev = out@;
                out.push(rest[k]);
                proof {
                    assert(prev.push(rest@[k as int]) =~= seq![head] + rest@.subrange(0, k + 1));
                }
                k += 1;
            }
            proof {
                assert(rest@.subrange(0, rest@.len() as int) =~= rest@);
                assert(cs@.skip(from as int).drop_first() =~= cs@.skip(from + 1));
            }
            out
        }
    }
}

/// The zero-width segments between consecutive cut points, with their
/// midpoints precomputed; `None` when a midpoint escapes the arithmetic.
pub open spec fn segments_of(cuts: Seq<Rat>, i: int) -> Option<Seq<Segment>>
    decreases cuts.len() - i,
{
    if i < 0 || i + 1 >= cuts.len() {
        Some(Seq::empty())
    } else {
        let m0 = spec_add(cuts[i], cuts[i + 1]);
        match m0 {
            None => None,
            Some(s2) => match spec_div(s2, Rat { n: 2, d: 1 }) {
                None => None,
                Some(mid) => match segments_of(cuts, i + 1) {
                    None => None,
                    Some(rest) => Some(
                        seq![
                            Segment {
                                start: cuts[i],
                                end: cuts[i + 1],
                                mid,
                                width: Rat { n: 0, d: 1 },
                            },
                        ] + rest,
                    ),
                },
            },
        }
    }
}

/// Create the initial segments, mirroring [`segments_of`].
fn segments_exec(cuts: &Vec<Rat>, i: usize) -> (r: Option<Vec<Segment>>)
    requires
        i <= cuts@.len(),
        cuts_wf(cuts@),
    ensures
        match r {
            Some(segs) => segments_of(cuts@, i as int) == Some(segs@) && segs_wf(segs@),
            None => segments_of(cuts@, i as int) is None,
        },
    decreases cuts@.len() - i,
{
    if i >= cuts.len() || i + 1 >= cuts.len() {
        proof {
            assert(segments_of(cuts@, i as int) == Some(Seq::<Segment>::empty()));
        }
        return Some(Vec::new());
    }
    let s2 = match cuts[i].add(cuts[i + 1]) {
        Some(v) => v,
        None => {
            return None;
        },
    };
    let mid = match s2.div(Rat { n: 2, d: 1 }) {
        Some(v) => v,
        None => {
            return None;
        },
    };
    let rest = match segments_exec(cuts, i + 1) {
        Some(v) => v,
        None => {
            return None;
        },
    };
    let seg = Segment { start: cuts[i], end: cuts[i + 1], mid, width: Rat { n: 0, d: 1 } };
    let mut out: Vec<Segment> = Vec::new();
    out.push(seg);
    let mut k: usize = 0;
    while k < rest.len()
        invariant
            k <= rest@.len(),
            out@ == seq![seg] + rest@.subrange(0, k as int),
        decreases rest@.len() - k,
    {
        let ghost prev = out@;
        out.push(rest[k]);
        proof {
            assert(prev.push(rest@[k as int]) =~= seq![seg] + rest@.subrange(0, k + 1));
        }
        k += 1;
    }
    proof {
        assert(rest@.subrange(0, rest@.len() as int) =~= rest@);
    }
    Some(out)
}

/// Whether a segment's midpoint falls inside the event's span.
pub open spec fn covers(seg: Segment, e: LayoutEvent) -> bool {
    rat_le(e.start, seg.mid) && rat_lt(seg.mid, e.end)
}

/// The total current width and total duration of the segments the event
/// covers, accumulated in segment order; `None` on arithmetic escape.
pub open spec fn covered_sums(segs: Seq<Segment>, e: LayoutEvent, i: int, cw: Rat, td: Rat) -> Option<
    (Rat, Rat),
>
    decreases segs.len() - i,
{
    if i < 0 || i >= segs.len() {
        Some((cw, td))
    } else if covers(segs[i], e) {
        match spec_add(cw, segs[i].width) {
            None => None,
            Some(cw2) => match spec_sub(segs[i].end, segs[i].start) {
                None => None,
                Some(d) => match spec_add(td, d) {
                    None => None,
                    Some(td2) => covered_sums(segs, e, i + 1, cw2, td2),
                },
            },
        }
    } else {
        covered_sums(segs, e, i + 1, cw, td)
    }
}

/// The segments after the event's width deficit is spread over the ones it
/// covers, proportionally to their share of its span.
pub open spec fn spread_deficit(
    segs: Seq<Segment>,
    e: LayoutEvent,
    deficit: Rat,
    td: Rat,
    i: int,
) -> Option<Seq<Segment>>
    decreases segs.len() - i,
{
    if i < 0 || i >= segs.len() {
        Some(segs)
    } else if covers(segs[i], e) {
        match spec_sub(segs[i].end, segs[i].start) {
            None => None,
            Some(d) => match spec_div(d, td) {
                None => None,
                Some(weight) => match spec_mul(deficit, weight) {
                    None => None,
                    Some(add) => match spec_add(segs[i].width, add) {
                        None => None,
                        Some(w2) => spread_deficit(
                            segs.update(i, Segment { width: w2, ..segs[i] }),
                            e,
                            deficit,
                            td,
                            i + 1,
                        ),
                    },
                },
            },
        }
    } else {
        spread_deficit(segs, e, deficit, td, i + 1)
    }
}

/// One event applied to the segments: its covered width is topped up to
/// its minimum width when short; widths only ever rise.
pub open spec fn apply_event(segs: Seq<Segment>, e: LayoutEvent) -> Option<Seq<Segment>> {
    match covered_sums(segs, e, 0, Rat { n: 0, d: 1 }, Rat { n: 0, d: 1 }) {
        None => None,
        Some((cw, td)) => if rat_lt(cw, e.min_width) {
            match spec_sub(e.min_width, cw) {
                None => None,
                Some(deficit) => if td.n > 0 {
                    spread_deficit(segs, e, deficit, td, 0)
                } else {
                    Some(segs)
                },
            }
        } else {
            Some(segs)
        },
    }
}

/// All events applied in order, shortest durations first.
pub open spec fn distribute_spec(segs: Seq<Segment>, evs: Seq<LayoutEvent>, i: int) -> Option<
    Seq<Segment>,
>
    decreases evs.len() - i,
{
    if i < 0 || i >= evs.len() {
        Some(segs)
    } else {
        match apply_event(segs, evs[i]) {
            None => None,
            Some(segs2) => distribute_spec(segs2, evs, i + 1),
        }
    }
}

/// Apply one event, mirroring [`apply_event`].
fn apply_event_exec(segs: Vec<Segment>, e: LayoutEvent) -> (r: Option<Vec<Segment>>)
    requires
        segs_wf(segs@),
        rat_wf(e.start) && rat_wf(e.dur) && rat_wf(e.end) && rat_wf(e.min_width),
    ensures
        match r {
            Some(s2) => apply_event(segs@, e) == Some(s2@) && segs_wf(s2@),
            None => apply_event(segs@, e) is None,
        },
{
    let ghost orig = segs@;
    let n = segs.len();
    let mut cw = Rat { n: 0, d: 1 };
    let mut td = Rat { n: 0, d: 1 };
    let mut i: usize = 0;
    while i < n
        invariant
            i <= n,
            n == segs@.len(),
            segs@ == orig,
            segs_wf(segs@),
            rat_wf(e.start) && rat_wf(e.dur) && rat_wf(e.end) && rat_wf(e.min_width),
            rat_wf(cw),
            rat_wf(td),
            covered_sums(orig, e, 0, Rat { n: 0, d: 1 }, Rat { n: 0, d: 1 }) == covered_sums(
                orig,
                e,
                i as int,
                cw,
                td,
            ),
        decreases n - i,
    {
        let seg = segs[i];
        proof {
            assert(rat_wf(orig[i as int].start));
        }
        if e.start.le(seg.mid) && seg.mid.lt(e.end) {
            let cw2 = match cw.add(seg.width) {
                Some(v) => v,
                None => {
                    return None;
                },
            };
            let d = match seg.end.sub(seg.start) {
                Some(v) => v,
                None => {
                    return None;
                },
            };
            let td2 = match td.add(d) {
                Some(v) => v,
                None => {
                    return None;
                },
            };
            cw = cw2;
            td = td2;
        }
        i += 1;
    }
    if !cw.lt(e.min_width) {
        return Some(segs);
    }
    let deficit = match e.min_width.sub(cw) {
        Some(v) => v,
        None => {
            return None;
        },
    };
    if !(td.n > 0) {
        return Some(segs);
    }
    // spread the deficit over the covered segments
    let mut cur = segs;
    let mut j: usize = 0;
    while j < n
        invariant
            j <= n,
            n == cur@.len(),
            segs_wf(cur@),
            rat_wf(e.start) && rat_wf(e.dur) && rat_wf(e.end) && rat_wf(e.min_width),
            rat_wf(deficit),
            rat_wf(td),
            orig == segs@,
            apply_event(orig, e) == spread_deficit(orig, e, deficit, td, 0),
            spread_deficit(orig, e, deficit, td, 0) == spread_deficit(
                cur@,
                e,
                deficit,
                td,
                j as int,
            ),
        decreases n - j,
    {
        let seg = cur[j];
        proof {
            assert(rat_wf(cur@[j as int].start));
        }
        if e.start.le(seg.mid) && seg.mid.lt(e.end) {
            let d = match seg.end.sub(seg.start) {
                Some(v) => v,
                None => {
                    return None;
                },
            };
            let weight = match d.div(td) {
                Some(v) => v,
                None => {
                    return None;
                },
            };
            let add = match deficit.mul(weight) {
                Some(v) => v,
                None => {
                    return None;
                },
            };
            let w2 = match seg.width.add(add) {
                Some(v) => v,
                None => {
                    return None;
                },
            };
            let ghost before = cur@;
            cur.set(j, Segment { width: w2, ..seg });
            proof {
                assert(cur@ =~= before.update(j as int, Segment { width: w2, ..seg }));
                assert forall|k: int| 0 <= k < cur@.len() implies rat_wf(
                    #[trigger] cur@[k].start,
                ) && rat_wf(cur@[k].end) && rat_wf(cur@[k].mid) && rat_wf(cur@[k].width) by {
                    if k != j {
                        assert(cur@[k] == before[k]);
                        assert(rat_wf(before[k].start));
                    }
                }
            }
        }
        j += 1;
    }
    Some(cur)
}

/// The layout of one measure, computed from its events: time boundaries,
/// initial segments and the width distribution, shortest durations first.
/// A value escaping the exact arithmetic empties the layout, so every note
/// of that measure falls back to its minimum width.
pub open spec fn measure_layout_spec(evs: Seq<LayoutEvent>) -> Seq<Segment> {
    let sorted = sort_by_dur(evs, 0, Seq::empty());
    let cuts = cuts_of(evs, 0, seq![Rat { n: 0, d: 1 }]);
    match segments_of(cuts, 0) {
        None => Seq::empty(),
        Some(segs0) => match distribute_spec(segs0, sorted, 0) {
            None => Seq::empty(),
            Some(s) => s,
        },
    }
}

/// Calculates the layout segments for a single measure.
pub fn calculate_measure_layout(events: Vec<LayoutEvent>) -> (r: MeasureLayout)
    requires
        events_wf(events@),
    ensures
        r.segments@ == measure_layout_spec(events@),
        segs_wf(r.segments@),
{
    let ghost evs = events@;
    let n = events.len();
    // sort the events by duration, shortest first, stably
    let mut sorted: Vec<LayoutEvent> = Vec::new();
    let mut i: usize = 0;
    while i < n
        invariant
            i <= n,
            n == events@.len(),
            events@ == evs,
            events_wf(evs),
            events_wf(sorted@),
            sort_by_dur(evs, 0, Seq::empty()) == sort_by_dur(evs, i as int, sorted@),
        decreases n - i,
    {
        let e = events[i];
        proof {
            assert(rat_wf(evs[i as int].start));
        }
        let s2 = insert_by_dur_exec(&sorted, 0, e);
        proof {
            assert(sorted@.skip(0) =~= sorted@);
            lemma_insert_by_dur_wf(sorted@, e);
        }
        sorted = s2;
        i += 1;
    }
    // gather the distinct time boundaries
    let mut cuts: Vec<Rat> = Vec::new();
    cuts.push(Rat { n: 0, d: 1 });
    proof {
        assert(cuts@ =~= seq![Rat { n: 0, d: 1 }]);
    }
    let mut j: usize = 0;
    while j < n
        invariant
            j <= n,
            n == events@.len(),
            events@ == evs,
            events_wf(evs),
            cuts_wf(cuts@),
            cuts_of(evs, 0, seq![Rat { n: 0, d: 1 }]) == cuts_of(evs, j as int, cuts@),
        decreases n - j,
    {
        let e = events[j];
        proof {
            assert(rat_wf(evs[j as int].start));
        }
        let c1 = insert_cut_exec(&cuts, 0, e.start);
        proof {
            assert(cuts@.skip(0) =~= cuts@);
            lemma_insert_cut_wf(cuts@, e.start);
        }
        cuts = c1;
        let c2 = insert_cut_exec(&cuts, 0, e.end);
        proof {
            assert(cuts@.skip(0) =~= cuts@);
            lemma_insert_cut_wf(cuts@, e.end);
        }
        cuts = c2;
        j += 1;
    }
    // initial segments, then the width distribution
    let segs0 = match segments_exec(&cuts, 0) {
        Some(v) => v,
        None => {
            return MeasureLayout { segments: Vec::new() };
        },
    };
    let mut cur = segs0;
    let mut k: usize = 0;
    let m = sorted.len();
    loop
        invariant_except_break
            k <= m,
            m == sorted@.len(),
            events_wf(sorted@),
            segs_wf(cur@),
            distribute_spec(segments_of(cuts_of(evs, 0, seq![Rat { n: 0, d: 1 }]), 0)->Some_0, sort_by_dur(evs, 0, Seq::empty()), 0) == distribute_spec(cur@, sorted@, k as int),
            sorted@ == sort_by_dur(evs, 0, Seq::empty()),
            segments_of(cuts_of(evs, 0, seq![Rat { n: 0, d: 1 }]), 0) is Some,
        ensures
            measure_layout_spec(evs) == cur@,
            segs_wf(cur@),
        decreases m - k,
    {
        if k >= m {
            break ;
        }
        let e = sorted[k];
        proof {
            assert(rat_wf(sorted@[k as int].start));
        }
        match apply_event_exec(cur, e) {
            Some(next) => {
                cur = next;
            },
            None => {
                cur = Vec::new();
                proof {
                    assert(cur@ =~= Seq::<Segment>::empty());
                }
                break ;
            },
        }
        k += 1;
    }
    MeasureLayout { segments: cur }
}

/// The views of a list of measure layouts.
pub open spec fn ml_view(ls: Seq<MeasureLayout>) -> Seq<Seq<Segment>> {
    ls.map_values(|m: MeasureLayout| m.segments@)
}

/// Every layout's segments are well formed.
pub open spec fn layouts_wf(ls: Seq<Seq<Segment>>) -> bool {
    forall|i: int| 0 <= i < ls.len() ==> segs_wf(#[trigger] ls[i])
}

/// Whether a segment's midpoint falls inside the span `[s, e)`.
pub open spec fn covers_span(seg: Segment, s: Rat, e: Rat) -> bool {
    rat_le(s, seg.mid) && rat_lt(seg.mid, e)
}

/// The summed target width of the segments a note spans.
pub open spec fn span_width(segs: Seq<Segment>, s: Rat, e: Rat, i: int, acc: Rat) -> Option<Rat>
    decreases segs.len() - i,
{
    if i < 0 || i >= segs.len() {
        Some(acc)
    } else if covers_span(segs[i], s, e) {
        match spec_add(acc, segs[i].width) {
            None => None,
            Some(a2) => span_width(segs, s, e, i + 1, a2),
        }
    } else {
        span_width(segs, s, e, i + 1, acc)
    }
}

/// The next integer at or above a non-negative rational; zero below zero.
pub open spec fn ceil_rat(r: Rat) -> int {
    if r.n <= 0 {
        0
    } else {
        (r.n + r.d - 1) / (r.d as int)
    }
}

/// The target display length for a note: the ceiling of the widths of the
/// segments it spans in its measure's layout, or its own minimum when the
/// measure has no layout.
pub open spec fn target_len_spec(
    midx: int,
    s: Rat,
    e: Rat,
    layouts: Seq<Seq<Segment>>,
    note_len: int,
) -> Option<int> {
    let idx = if midx < 0 {
        0int
    } else {
        midx
    };
    if idx < layouts.len() {
        match span_width(layouts[idx], s, e, 0, Rat { n: 0, d: 1 }) {
            None => None,
            Some(t) => if ceil_rat(t) > usize::MAX as int {
                None
            } else {
                Some(ceil_rat(t))
            },
        }
    } else {
        if note_len + 2 > usize::MAX as int {
            None
        } else {
            Some(note_len + 2)
        }
    }
}

/// Calculates the target display length for a note, mirroring
/// [`target_len_spec`].
fn calculate_target_length(
    midx: i128,
    s: Rat,
    e: Rat,
    layouts: &Vec<MeasureLayout>,
    note_len: usize,
) -> (r: Option<usize>)
    requires
        rat_wf(s),
        rat_wf(e),
        layouts_wf(ml_view(layouts@)),
    ensures
        match r {
            Some(t) => target_len_spec(midx as int, s, e, ml_view(layouts@), note_len as int)
                == Some(t as int),
            None => target_len_spec(midx as int, s, e, ml_view(layouts@), note_len as int)
                is None,
        },
{
    let idx: usize = if midx < 0 {
        0
    } else if midx >= layouts.len() as i128 {
        return if note_len <= usize::MAX - 2 {
            Some(note_len + 2)
        } else {
            None
        };
    } else {
        midx as usize
    };
    if idx >= layouts.len() {
        return if note_len <= usize::MAX - 2 {
            Some(note_len + 2)
        } else {
            None
        };
    }
    let segs = &layouts[idx].segments;
    let ghost sv = ml_view(layouts@)[idx as int];
    proof {
        assert(sv == segs@);
        assert(segs_wf(sv));
    }
    let n = segs.len();
    let mut acc = Rat { n: 0, d: 1 };
    let mut i: usize = 0;
    while i < n
        invariant
            i <= n,
            n == segs@.len(),
            segs@ == sv,
            segs_wf(sv),
            rat_wf(s),
            rat_wf(e),
            rat_wf(acc),
            idx as int == (if midx < 0 {
                0int
            } else {
                midx as int
            }),
            (idx as int) < ml_view(layouts@).len(),
            sv == ml_view(layouts@)[idx as int],
            span_width(sv, s, e, 0, Rat { n: 0, d: 1 }) == span_width(sv, s, e, i as int, acc),
        decreases n - i,
    {
        let seg = segs[i];
        proof {
            assert(rat_wf(sv[i as int].start));
        }
        if s.le(seg.mid) && seg.mid.lt(e) {
            let a2 = match acc.add(seg.width) {
                Some(v) => v,
                None => {
                    return None;
                },
            };
            acc = a2;
        }
        i += 1;
    }
    // ceiling of the accumulated rational width
    if acc.n <= 0 {
        Some(0)
    } else {
        let q = ((acc.n as u128) + (acc.d as u128) - 1) / (acc.d as u128);
        if q > usize::MAX as u128 {
            None
        } else {
            Some(q as usize)
        }
    }
}

/// A formatted line rebuilt from its commands: reserved commands take
/// their fixed forms, and each note is padded to its target width; the
/// result is trimmed of trailing blanks.  `None` when a value escapes the
/// exact arithmetic, in which case the line passes through unchanged.
pub open spec fn reconstruct_spec(
    cmds: Seq<SpecCmd>,
    i: int,
    midx: int,
    t: Rat,
    layouts: Seq<Seq<Segment>>,
    out: Seq<char>,
) -> Option<Seq<char>>
    decreases cmds.len() - i,
{
    if i >= cmds.len() {
        Some(out.take(scan_back_while(out, out.len() as int, blank_class())))
    } else {
        let (v, n) = cmds[i];
        if is_reserved_verb(v) {
            let out2 = out + reserved_command_spec(v, n);
            if v == "measure"@ {
                reconstruct_spec(cmds, i + 1, midx + 1, Rat { n: 0, d: 1 }, layouts, out2)
            } else {
                reconstruct_spec(cmds, i + 1, midx, t, layouts, out2)
            }
        } else {
            let token = note_token_spec(v, n);
            match parse_duration_spec(n) {
                None => reconstruct_spec(cmds, i + 1, midx, t, layouts, out + token + seq![' ']),
                Some(q) => match spec_add(t, q) {
                    None => None,
                    Some(end) => match target_len_spec(midx, t, end, layouts, token.len() as int) {
                        None => None,
                        Some(target) => reconstruct_spec(
                            cmds,
                            i + 1,
                            midx,
                            end,
                            layouts,
                            out + padded_spec(token, target, i < cmds.len() - 1),
                        ),
                    },
                },
            }
        }
    }
}

/// Reconstructs a line of code from parsed commands and the calculated
/// layout, mirroring [`reconstruct_spec`].
fn reconstruct_line(
    cmds: &Vec<(String, String)>,
    i: usize,
    midx: i128,
    t: Rat,
    layouts: &Vec<MeasureLayout>,
    out: String,
) -> (r: Option<String>)
    requires
        i <= cmds@.len(),
        -1 <= midx <= i as int,
        rat_wf(t),
        layouts_wf(ml_view(layouts@)),
    ensures
        match r {
            Some(f) => reconstruct_spec(
                cmds_view(cmds@),
                i as int,
                midx as int,
                t,
                ml_view(layouts@),
                out@,
            ) == Some(f@),
            None => reconstruct_spec(
                cmds_view(cmds@),
                i as int,
                midx as int,
                t,
                ml_view(layouts@),
                out@,
            ) is None,
        },
    decreases cmds@.len() - i,
{
    proof {
        reveal_strlit("measure");
    }
    if i >= cmds.len() {
        // trim trailing blanks
        let n = out.as_str().unicode_len();
        let mut e = n;
        while e > 0 && crate::chars::blank_char(out.as_str().get_char(e - 1))
            invariant
                e <= n,
                n == out@.len(),
                forall|k: int| e <= k < n ==> is_blank_char(out@[k]),
            decreases e,
        {
            e -= 1;
        }
        proof {
            crate::chars::lemma_scan_back_while_unique(out@, n as int, e as int, blank_class());
        }
        return Some(String::from_str(out.as_str().substring_char(0, e)));
    }
    let verb = &cmds[i].0;
    let noun = &cmds[i].1;
    proof {
        assert(cmds_view(cmds@)[i as int] == (verb@, noun@));
    }
    if is_reserved_command(verb.as_str()) {
        let piece = format_reserved_command(verb.as_str(), noun.as_str());
        let out2 = out.concat(piece.as_str());
        if str_eq(verb.as_str(), "measure") {
            reconstruct_line(cmds, i + 1, midx + 1, Rat { n: 0, d: 1 }, layouts, out2)
        } else {
            reconstruct_line(cmds, i + 1, midx, t, layouts, out2)
        }
    } else {
        let token = format_note_token(verb.as_str(), noun.as_str());
        match parse_duration(noun.as_str()) {
            None => {
                let out2 = out.concat(token.as_str()).concat(" ");
                proof {
                    reveal_strlit(" ");
                    assert(out@ + note_token_spec(verb@, noun@) + seq![' '] =~= out2@);
                }
                reconstruct_line(cmds, i + 1, midx, t, layouts, out2)
            },
            Some(q) => {
                let end = match t.add(q) {
                    Some(v) => v,
                    None => {
                        return None;
                    },
                };
                let target = match calculate_target_length(
                    midx,
                    t,
                    end,
                    layouts,
                    token.as_str().unicode_len(),
                ) {
                    Some(v) => v,
                    None => {
                        return None;
                    },
                };
                let padded = apply_padding(token.as_str(), target, i < cmds.len() - 1);
                let out2 = out.concat(padded.as_str());
                reconstruct_line(cmds, i + 1, midx, end, layouts, out2)
            },
        }
    }
}

/// Buckets padded with empty measures up to index `b`, then the event
/// appended to measure `b`.
pub open spec fn place_one(acc: Seq<Seq<LayoutEvent>>, b: int, ev: LayoutEvent) -> Seq<
    Seq<LayoutEvent>,
>
    decreases b + 1 - acc.len(),
{
    if b < 0 {
        acc
    } else if acc.len() <= b {
        place_one(acc.push(Seq::empty()), b, ev)
    } else {
        acc.update(b, acc[b].push(ev))
    }
}

/// All of a line's events placed into their measures, in order.
pub open spec fn place_all(acc: Seq<Seq<LayoutEvent>>, evs: Seq<(int, LayoutEvent)>, i: int) -> Seq<
    Seq<LayoutEvent>,
>
    decreases evs.len() - i,
{
    if i < 0 || i >= evs.len() {
        acc
    } else {
        place_all(place_one(acc, evs[i].0, evs[i].1), evs, i + 1)
    }
}

/// One line of the block added to the buckets: unparsable lines, and lines
/// whose values escape the arithmetic, contribute nothing.
pub open spec fn add_line(acc: Seq<Seq<LayoutEvent>>, line: Seq<char>) -> Seq<Seq<LayoutEvent>> {
    match score_from(line, 0) {
        Err(_) => acc,
        Ok(cmds) => match line_events_spec(cmds, 0, -1, Rat { n: 0, d: 1 }) {
            None => acc,
            Some(evs) => place_all(acc, evs, 0),
        },
    }
}

/// The events of the block's lines `[lo, hi)`, bucketed by measure.
pub open spec fn block_events_spec(s: Seq<char>, lo: int, hi: int, acc: Seq<Seq<LayoutEvent>>) -> Seq<
    Seq<LayoutEvent>,
>
    decreases hi - lo,
{
    if lo >= hi {
        acc
    } else {
        block_events_spec(s, lo + 1, hi, add_line(acc, line_at(s, lo)))
    }
}

/// Every bucket holds well-formed events.
pub open spec fn buckets_wf(bs: Seq<Seq<LayoutEvent>>) -> bool {
    forall|i: int| 0 <= i < bs.len() ==> events_wf(#[trigger] bs[i])
}

proof fn lemma_place_one_wf(acc: Seq<Seq<LayoutEvent>>, b: int, ev: LayoutEvent)
    requires
        buckets_wf(acc),
        rat_wf(ev.start) && rat_wf(ev.dur) && rat_wf(ev.end) && rat_wf(ev.min_width),
    ensures
        buckets_wf(place_one(acc, b, ev)),
    decreases b + 1 - acc.len(),
{
    if b < 0 {
    } else if acc.len() <= b {
        assert(buckets_wf(acc.push(Seq::empty()))) by {
            assert forall|i: int| 0 <= i < acc.push(Seq::empty()).len() implies events_wf(
                #[trigger] acc.push(Seq::empty())[i],
            ) by {
                if i < acc.len() {
                    assert(acc.push(Seq::empty())[i] == acc[i]);
                    assert(events_wf(acc[i]));
                }
            }
        }
        lemma_place_one_wf(acc.push(Seq::empty()), b, ev);
    } else {
        let r = acc.update(b, acc[b].push(ev));
        assert forall|i: int| 0 <= i < r.len() implies events_wf(#[trigger] r[i]) by {
            if i != b {
                assert(r[i] == acc[i]);
                assert(events_wf(acc[i]));
            } else {
                assert(events_wf(acc[b]));
                assert forall|k: int| 0 <= k < r[b].len() implies rat_wf(
                    #[trigger] r[b][k].start,
                ) && rat_wf(r[b][k].dur) && rat_wf(r[b][k].end) && rat_wf(r[b][k].min_width) by {
                    if k < acc[b].len() {
                        assert(r[b][k] == acc[b][k]);
                        assert(rat_wf(acc[b][k].start));
                    } else {
                        assert(r[b][k] == ev);
                    }
                }
            }
        }
    }
}

/// Place one bucketed event, mirroring [`place_one`].
fn place_one_exec(acc: &mut Vec<Vec<LayoutEvent>>, b: usize, ev: LayoutEvent)
    requires
        buckets_wf(old(acc)@.map_values(|v: Vec<LayoutEvent>| v@)),
        rat_wf(ev.start) && rat_wf(ev.dur) && rat_wf(ev.end) && rat_wf(ev.min_width),
    ensures
        final(acc)@.map_values(|v: Vec<LayoutEvent>| v@) == place_one(
            old(acc)@.map_values(|v: Vec<LayoutEvent>| v@),
            b as int,
            ev,
        ),
        buckets_wf(final(acc)@.map_values(|v: Vec<LayoutEvent>| v@)),
{
    let ghost orig = acc@.map_values(|v: Vec<LayoutEvent>| v@);
    while acc.len() <= b
        invariant
            buckets_wf(acc@.map_values(|v: Vec<LayoutEvent>| v@)),
            place_one(orig, b as int, ev) == place_one(
                acc@.map_values(|v: Vec<LayoutEvent>| v@),
                b as int,
                ev,
            ),
        decreases b + 1 - acc@.len(),
    {
        let ghost before = acc@.map_values(|v: Vec<LayoutEvent>| v@);
        acc.push(Vec::new());
        proof {
            assert(acc@.map_values(|v: Vec<LayoutEvent>| v@) =~= before.push(Seq::empty()));
            assert forall|i: int| 0 <= i < before.push(Seq::empty()).len() implies events_wf(
                #[trigger] before.push(Seq::empty())[i],
            ) by {
                if i < before.len() {
                    assert(before.push(Seq::empty())[i] == before[i]);
                    assert(events_wf(before[i]));
                }
            }
        }
    }
    let ghost before = acc@.map_values(|v: Vec<LayoutEvent>| v@);
    let mut bucket: Vec<LayoutEvent> = Vec::new();
    let blen = acc[b].len();
    let mut k: usize = 0;
    while k < blen
        invariant
            k <= blen,
            b < acc@.len(),
            blen == acc@[b as int]@.len(),
            bucket@ == acc@[b as int]@.subrange(0, k as int),
        decreases blen - k,
    {
        let ghost prev = bucket@;
        let item = acc[b][k];
        bucket.push(item);
        proof {
            assert(prev.push(acc@[b as int]@[k as int]) =~= acc@[b as int]@.subrange(0, k + 1));
        }
        k += 1;
    }
    proof {
        assert(acc@[b as int]@.subrange(0, blen as int) =~= acc@[b as int]@);
    }
    bucket.push(ev);
    acc.set(b, bucket);
    proof {
        assert(acc@.map_values(|v: Vec<LayoutEvent>| v@) =~= before.update(
            b as int,
            before[b as int].push(ev),
        ));
        lemma_place_one_wf(before, b as int, ev);
    }
}

/// Collects all note events in a block, grouped by measure index.
pub fn collect_block_events(text: &Rope, start: usize, end: usize) -> (r: Vec<Vec<LayoutEvent>>)
    requires
        end <= line_count(rope_text(*text)),
        end < usize::MAX,
    ensures
        r@.map_values(|v: Vec<LayoutEvent>| v@) == block_events_spec(
            rope_text(*text),
            start as int,
            end as int,
            Seq::empty(),
        ),
        buckets_wf(r@.map_values(|v: Vec<LayoutEvent>| v@)),
{
    let ghost s = rope_text(*text);
    let mut acc: Vec<Vec<LayoutEvent>> = Vec::new();
    let mut l = start;
    proof {
        assert(acc@.map_values(|v: Vec<LayoutEvent>| v@) =~= Seq::<Seq<LayoutEvent>>::empty());
    }
    if start >= end {
        return acc;
    }
    while l < end
        invariant
            start <= l <= end <= line_count(s),
            end < usize::MAX,
            s == rope_text(*text),
            buckets_wf(acc@.map_values(|v: Vec<LayoutEvent>| v@)),
            block_events_spec(s, start as int, end as int, Seq::empty()) == block_events_spec(
                s,
                l as int,
                end as int,
                acc@.map_values(|v: Vec<LayoutEvent>| v@),
            ),
        decreases end - l,
    {
        let line = crate::text::rope_line_string(text, l);
        let ghost before = acc@.map_values(|v: Vec<LayoutEvent>| v@);
        match crate::hum_parse::hum_grammar::score(line.as_str()) {
            Err(_) => {},
            Ok(cmds) => {
                match line_events(&cmds, 0, -1, Rat { n: 0, d: 1 }) {
                    None => {},
                    Some(evs) => {
                        proof {
                            lemma_line_events_wf(cmds_view(cmds@), 0, -1, Rat { n: 0, d: 1 });
                        }
                        let mut k: usize = 0;
                        while k < evs.len()
                            invariant
                                k <= evs@.len(),
                                buckets_wf(acc@.map_values(|v: Vec<LayoutEvent>| v@)),
                                bucketed_wf_spec(evs_view(evs@), cmds@.len() as int),
                                place_all(before, evs_view(evs@), 0) == place_all(
                                    acc@.map_values(|v: Vec<LayoutEvent>| v@),
                                    evs_view(evs@),
                                    k as int,
                                ),
                            decreases evs@.len() - k,
                        {
                            let (b, ev) = evs[k];
                            proof {
                                assert(evs_view(evs@)[k as int] == (b as int, ev));
                                assert(rat_wf(evs_view(evs@)[k as int].1.start));
                            }
                            place_one_exec(&mut acc, b, ev);
                            k += 1;
                        }
                    },
                }
            },
        }
        l += 1;
    }
    acc
}

/// The layouts of a block's measures.
pub open spec fn block_layout_spec(s: Seq<char>, lo: int, hi: int) -> Seq<Seq<Segment>> {
    block_events_spec(s, lo, hi, Seq::empty()).map_values(|evs: Seq<LayoutEvent>| measure_layout_spec(evs))
}

/// Calculates the layout for a block of lines: events are collected across
/// all lines, then each measure's widths are distributed.
pub fn calculate_block_layout(text: &Rope, start: usize, end: usize) -> (r: Vec<MeasureLayout>)
    requires
        end <= line_count(rope_text(*text)),
        end < usize::MAX,
    ensures
        ml_view(r@) == block_layout_spec(rope_text(*text), start as int, end as int),
        layouts_wf(ml_view(r@)),
{
    let buckets = collect_block_events(text, start, end);
    let ghost bv = buckets@.map_values(|v: Vec<LayoutEvent>| v@);
    let mut out: Vec<MeasureLayout> = Vec::new();
    let n = buckets.len();
    let mut i: usize = 0;
    proof {
        assert(ml_view(out@) =~= Seq::<Seq<Segment>>::empty());
    }
    while i < n
        invariant
            i <= n,
            n == buckets@.len(),
            bv == buckets@.map_values(|v: Vec<LayoutEvent>| v@),
            buckets_wf(bv),
            layouts_wf(ml_view(out@)),
            ml_view(out@) =~= bv.subrange(0, i as int).map_values(
                |evs: Seq<LayoutEvent>| measure_layout_spec(evs),
            ),
        decreases n - i,
    {
        let ghost prev = out@;
        let mut evs: Vec<LayoutEvent> = Vec::new();
        let blen = buckets[i].len();
        let mut k: usize = 0;
        while k < blen
            invariant
                k <= blen,
                i < buckets@.len(),
                blen == buckets@[i as int]@.len(),
                evs@ == buckets@[i as int]@.subrange(0, k as int),
            decreases blen - k,
        {
            let ghost p2 = evs@;
            let item = buckets[i][k];
            evs.push(item);
            proof {
                assert(p2.push(buckets@[i as int]@[k as int]) =~= buckets@[i as int]@.subrange(
                    0,
                    k + 1,
                ));
            }
            k += 1;
        }
        proof {
            assert(buckets@[i as int]@.subrange(0, blen as int) =~= buckets@[i as int]@);
            assert(bv[i as int] == buckets@[i as int]@);
            assert(events_wf(bv[i as int]));
        }
        let ml = calculate_measure_layout(evs);
        out.push(ml);
        proof {
            assert(ml_view(out@) =~= ml_view(prev).push(ml.segments@));
            assert(bv.subrange(0, i + 1).drop_last() =~= bv.subrange(0, i as int));
            assert(ml_view(out@) =~= bv.subrange(0, i + 1).map_values(
                |evs2: Seq<LayoutEvent>| measure_layout_spec(evs2),
            ));
            assert forall|j: int| 0 <= j < ml_view(out@).len() implies segs_wf(
                #[trigger] ml_view(out@)[j],
            ) by {
                if j < prev.len() {
                    assert(ml_view(out@)[j] == ml_view(prev)[j]);
                    assert(segs_wf(ml_view(prev)[j]));
                }
            }
        }
        i += 1;
    }
    proof {
        assert(bv.subrange(0, n as int) =~= bv);
    }
    out
}

/// The formatted form of one line of a block: manual comments and lines
/// the grammar or the arithmetic rejects pass through unchanged; other
/// lines are rebuilt against the block's layout, keeping their newline.
pub open spec fn block_line_spec(line: Seq<char>, layouts: Seq<Seq<Segment>>) -> Seq<char> {
    if line_starts_with(line, '~') {
        line
    } else {
        match score_from(line, 0) {
            Err(_) => line,
            Ok(cmds) => match reconstruct_spec(
                cmds,
                0,
                -1,
                Rat { n: 0, d: 1 },
                layouts,
                Seq::empty(),
            ) {
                None => line,
                Some(f) => f + (if line.len() > 0 && line.last() == '\n' {
                    seq!['\n']
                } else {
                    Seq::<char>::empty()
                }),
            },
        }
    }
}

/// Formats a single line within a block, mirroring [`block_line_spec`].
pub fn format_block_line(line: &str, layouts: &Vec<MeasureLayout>) -> (r: String)
    requires
        layouts_wf(ml_view(layouts@)),
    ensures
        r@ == block_line_spec(line@, ml_view(layouts@)),
{
    if crate::hum_editor::utils::is_comment_line(line) {
        return String::from_str(line);
    }
    match crate::hum_parse::hum_grammar::score(line) {
        Err(_) => String::from_str(line),
        Ok(cmds) => {
            match reconstruct_line(&cmds, 0, -1, Rat { n: 0, d: 1 }, layouts, String::new()) {
                None => String::from_str(line),
                Some(f) => {
                    proof {
                        reveal_strlit("\n");
                    }
                    let n = line.unicode_len();
                    if n > 0 && line.get_char(n - 1) == '\n' {
                        let r = f.concat("\n");
                        proof {
                            assert(r@ =~= block_line_spec(line@, ml_view(layouts@)));
                        }
                        r
                    } else {
                        proof {
                            assert(f@ + Seq::<char>::empty() =~= f@);
                        }
                        f
                    }
                },
            }
        },
    }
}

/// The block boundaries of the text: maximal runs of lines between
/// checkpoint lines; checkpoint lines belong to no block.
pub open spec fn blocks_spec(s: Seq<char>, i: int, start: int, acc: Seq<(int, int)>) -> Seq<
    (int, int),
>
    decreases line_count(s) - i,
{
    if i >= line_count(s) {
        if start < line_count(s) {
            acc.push((start, line_count(s)))
        } else {
            acc
        }
    } else {
        if line_starts_with(line_at(s, i), '*') {
            let acc2 = if i > start {
                acc.push((start, i))
            } else {
                acc
            };
            blocks_spec(s, i + 1, i + 1, acc2)
        } else {
            blocks_spec(s, i + 1, start, acc)
        }
    }
}

/// The views of block boundary pairs.
pub open spec fn blocks_view(v: Seq<(usize, usize)>) -> Seq<(int, int)> {
    v.map_values(|p: (usize, usize)| (p.0 as int, p.1 as int))
}

/// Blocks are ordered, disjoint and bounded.
pub open spec fn blocks_ok(bs: Seq<(usize, usize)>, bound: int) -> bool {
    forall|j: int|
        0 <= j < bs.len() ==> (#[trigger] bs[j]).0 <= bs[j].1 && bs[j].1 as int <= bound && (j > 0
            ==> bs[j - 1].1 <= bs[j].0)
}

/// Identifies the start and end line indices of the blocks.
pub fn identify_blocks(text: &Rope) -> (r: Vec<(usize, usize)>)
    ensures
        blocks_view(r@) == blocks_spec(rope_text(*text), 0, 0, Seq::empty()),
        blocks_ok(r@, line_count(rope_text(*text))),
{
    let ghost s = rope_text(*text);
    let len_lines = crate::text::rope_len_lines(text);
    let mut blocks: Vec<(usize, usize)> = Vec::new();
    let mut start: usize = 0;
    let mut i: usize = 0;
    proof {
        assert(blocks_view(blocks@) =~= Seq::<(int, int)>::empty());
    }
    while i < len_lines
        invariant
            i <= len_lines,
            start <= i,
            len_lines == line_count(s),
            s == rope_text(*text),
            blocks_spec(s, 0, 0, Seq::empty()) == blocks_spec(
                s,
                i as int,
                start as int,
                blocks_view(blocks@),
            ),
            blocks_ok(blocks@, start as int),
        decreases len_lines - i,
    {
        let line = crate::text::rope_line_string(text, i);
        if crate::hum_editor::utils::is_checkpoint_line(line.as_str()) {
            if i > start {
                let ghost prev = blocks@;
                blocks.push((start, i));
                proof {
                    assert(blocks_view(blocks@) =~= blocks_view(prev).push(
                        (start as int, i as int),
                    ));
                    assert forall|j: int|
                        0 <= j < blocks@.len() implies (#[trigger] blocks@[j]).0 <= blocks@[j].1
                        && blocks@[j].1 as int <= i + 1 && (j > 0 ==> blocks@[j - 1].1
                        <= blocks@[j].0) by {
                        if j < prev.len() {
                            assert(blocks@[j] == prev[j]);
                        }
                        if j > 0 {
                            assert(blocks@[j - 1] == prev[j - 1]);
                        }
                    }
                    assert(blocks_ok(blocks@, i + 1));
                }
            }
            start = i + 1;
        }
        i += 1;
    }
    if start < len_lines {
        let ghost prev = blocks@;
        blocks.push((start, len_lines));
        proof {
            assert(blocks_view(blocks@) =~= blocks_view(prev).push(
                (start as int, len_lines as int),
            ));
            assert forall|j: int|
                0 <= j < blocks@.len() implies (#[trigger] blocks@[j]).0 <= blocks@[j].1
                && blocks@[j].1 as int <= line_count(s) && (j > 0 ==> blocks@[j - 1].1
                <= blocks@[j].0) by {
                if j < prev.len() {
                    assert(blocks@[j] == prev[j]);
                }
                if j > 0 {
                    assert(blocks@[j - 1] == prev[j - 1]);
                }
            }
            assert(blocks_ok(blocks@, line_count(s)));
        }
    }
    blocks
}

/// The length of a line once trailing blanks are removed.
pub open spec fn trimmed_len(line: Seq<char>) -> int {
    scan_back_while(line, line.len() as int, blank_class())
}

/// The greatest trimmed length among non-checkpoint lines at or after `i`.
pub open spec fn max_noncheckpoint_len(ls: Seq<Seq<char>>, i: int) -> int
    decreases ls.len() - i,
{
    if i < 0 || i >= ls.len() {
        0
    } else {
        let rest = max_noncheckpoint_len(ls, i + 1);
        if !line_starts_with(ls[i], '*') && trimmed_len(ls[i]) > rest {
            trimmed_len(ls[i])
        } else {
            rest
        }
    }
}

/// The greatest trimmed length is never negative.
pub proof fn lemma_max_nc_nonneg(ls: Seq<Seq<char>>, i: int)
    ensures
        max_noncheckpoint_len(ls, i) >= 0,
    decreases ls.len() - i,
{
    if 0 <= i < ls.len() {
        lemma_max_nc_nonneg(ls, i + 1);
    }
}

/// The lines reassembled, with every checkpoint line replaced by a full
/// row of stars of width `cw` and a newline.
pub open spec fn stamp_lines(ls: Seq<Seq<char>>, i: int, cw: int) -> Seq<char>
    decreases ls.len() - i,
{
    if i < 0 || i >= ls.len() {
        Seq::empty()
    } else {
        (if line_starts_with(ls[i], '*') {
            Seq::<char>::new(cw as nat, |k: int| '*') + seq!['\n']
        } else {
            ls[i]
        }) + stamp_lines(ls, i + 1, cw)
    }
}

/// The views of a list of line strings.
pub open spec fn lines_view(v: Seq<String>) -> Seq<Seq<char>> {
    v.map_values(|l: String| l@)
}

/// The whole text reassembled with one file-wide checkpoint width: the
/// greater of a fixed minimum and the longest non-checkpoint line.
pub open spec fn checkpoint_expansion_spec(ls: Seq<Seq<char>>) -> Seq<char> {
    let m = max_noncheckpoint_len(ls, 0);
    let cw = if m > 79 {
        m
    } else {
        79int
    };
    stamp_lines(ls, 0, cw)
}

/// Calculates the max line length (ignoring checkpoints) and expands every
/// checkpoint line to the file-wide width.
pub fn apply_checkpoint_expansion(lines: Vec<String>) -> (r: String)
    ensures
        r@ == checkpoint_expansion_spec(lines_view(lines@)),
{
    let ghost lv = lines_view(lines@);
    let n = lines.len();
    let mut max_len: usize = 0;
    let mut i: usize = 0;
    proof {
        lemma_max_nc_nonneg(lv, 0);
    }
    while i < n
        invariant
            i <= n,
            n == lines@.len(),
            lv == lines_view(lines@),
            max_noncheckpoint_len(lv, 0) == if max_len as int > max_noncheckpoint_len(
                lv,
                i as int,
            ) {
                max_len as int
            } else {
                max_noncheckpoint_len(lv, i as int)
            },
            max_len as int <= max_noncheckpoint_len(lv, 0),
        decreases n - i,
    {
        let line = &lines[i];
        let ghost ll = lv[i as int];
        if !crate::hum_editor::utils::is_checkpoint_line(line.as_str()) {
            let llen = line.as_str().unicode_len();
            let mut e = llen;
            while e > 0 && crate::chars::blank_char(line.as_str().get_char(e - 1))
                invariant
                    e <= llen,
                    llen == line@.len(),
                    ll == line@,
                    forall|k: int| e <= k < llen ==> is_blank_char(line@[k]),
                decreases e,
            {
                e -= 1;
            }
            proof {
                crate::chars::lemma_scan_back_while_unique(ll, llen as int, e as int, blank_class());
            }
            if e > max_len {
                max_len = e;
            }
        }
        proof {
            lemma_max_nc_nonneg(lv, i + 1);
        }
        i += 1;
    }
    let cw: usize = if max_len > 79 {
        max_len
    } else {
        79
    };
    // reassemble with stamped checkpoint lines
    let mut out = String::new();
    let mut j: usize = 0;
    let ghost cwi = cw as int;
    proof {
        assert(out@ =~= Seq::<char>::empty());
    }
    while j < n
        invariant
            j <= n,
            n == lines@.len(),
            lv == lines_view(lines@),
            cwi == cw as int,
            stamp_lines(lv, 0, cwi) =~= out@ + stamp_lines(lv, j as int, cwi),
        decreases n - j,
    {
        let line = &lines[j];
        let ghost before = out@;
        if crate::hum_editor::utils::is_checkpoint_line(line.as_str()) {
            let mut v: Vec<char> = Vec::new();
            let mut k: usize = 0;
            while k < cw
                invariant
                    k <= cw,
                    v@ =~= Seq::<char>::new(k as nat, |x: int| '*'),
                decreases cw - k,
            {
                let ghost pv = v@;
                v.push('*');
                proof {
                    assert(pv.push('*') =~= Seq::<char>::new((k + 1) as nat, |x: int| '*'));
                }
                k += 1;
            }
            v.push('\n');
            proof {
                assert(v@ =~= Seq::<char>::new(cwi as nat, |x: int| '*') + seq!['\n']);
            }
            out = out.concat(crate::strings::chars_to_string(v).as_str());
        } else {
            out = out.concat(line.as_str());
        }
        proof {
            assert(stamp_lines(lv, 0, cwi) =~= out@ + stamp_lines(lv, j + 1, cwi)) by {
                assert(stamp_lines(lv, 0, cwi) =~= before + stamp_lines(lv, j as int, cwi));
            }
        }
        j += 1;
    }
    proof {
        assert(stamp_lines(lv, n as int, cwi) =~= Seq::<char>::empty());
        assert(out@ =~= stamp_lines(lv, 0, cwi));
    }
    out
}

/// The formatted lines of the whole text: lines before and after the
/// blocks pass through; each block's lines are formatted against the
/// block's layout.
pub open spec fn copy_lines(s: Seq<char>, lo: int, hi: int) -> Seq<Seq<char>>
    decreases hi - lo,
{
    if lo >= hi {
        Seq::empty()
    } else {
        seq![line_at(s, lo)] + copy_lines(s, lo + 1, hi)
    }
}

/// The formatted lines of one block.
pub open spec fn format_lines(s: Seq<char>, lo: int, hi: int, layouts: Seq<Seq<Segment>>) -> Seq<
    Seq<char>,
>
    decreases hi - lo,
{
    if lo >= hi {
        Seq::empty()
    } else {
        seq![block_line_spec(line_at(s, lo), layouts)] + format_lines(s, lo + 1, hi, layouts)
    }
}

/// The lines of the whole text after formatting, walking the block list.
pub open spec fn formatted_lines_spec(s: Seq<char>, blocks: Seq<(int, int)>, bi: int, cur: int) -> Seq<
    Seq<char>,
>
    decreases blocks.len() - bi,
{
    if bi < 0 || bi >= blocks.len() {
        copy_lines(s, cur, line_count(s))
    } else {
        let (bs, be) = blocks[bi];
        copy_lines(s, cur, bs) + format_lines(s, bs, be, block_layout_spec(s, bs, be))
            + formatted_lines_spec(s, blocks, bi + 1, be)
    }
}

/// The whole formatting pass: per-block alignment, then the file-wide
/// checkpoint stamp.
pub open spec fn format_buffer_spec(s: Seq<char>) -> Seq<char> {
    checkpoint_expansion_spec(
        formatted_lines_spec(s, blocks_spec(s, 0, 0, Seq::empty()), 0, 0),
    )
}

/// Formats a text buffer in place: blocks are aligned independently and
/// checkpoint lines are stamped to one file-wide width.
pub fn format_buffer(text: &mut Rope)
    requires
        line_count(rope_text(*old(text))) < usize::MAX,
    ensures
        rope_text(*final(text)) == format_buffer_spec(rope_text(*old(text))),
{
    let ghost s = rope_text(*text);
    let blocks = identify_blocks(text);
    let ghost bv = blocks_view(blocks@);
    let len_lines = crate::text::rope_len_lines(text);
    let mut formatted_lines: Vec<String> = Vec::new();
    let mut current_line_idx: usize = 0;
    let nb = blocks.len();
    let mut bi: usize = 0;
    proof {
        assert(lines_view(formatted_lines@) =~= Seq::<Seq<char>>::empty());
    }
    while bi < nb
        invariant
            bi <= nb,
            nb == blocks@.len(),
            bv == blocks_view(blocks@),
            s == rope_text(*text),
            len_lines == line_count(s),
            len_lines < usize::MAX,
            blocks_ok(blocks@, line_count(s)),
            bi < nb ==> current_line_idx <= blocks@[bi as int].0,
            bi >= nb ==> current_line_idx <= len_lines,
            formatted_lines_spec(s, bv, 0, 0) =~= lines_view(formatted_lines@)
                + formatted_lines_spec(s, bv, bi as int, current_line_idx as int),
        decreases nb - bi,
    {
        let (bs, be) = blocks[bi];
        // copy the lines before the block
        while current_line_idx < bs
            invariant
                current_line_idx <= bs,
                bi < nb,
                nb == blocks@.len(),
                bv == blocks_view(blocks@),
                (bs as int, be as int) == bv[bi as int],
                s == rope_text(*text),
                len_lines == line_count(s),
                bs <= line_count(s),
                formatted_lines_spec(s, bv, 0, 0) =~= lines_view(formatted_lines@)
                    + formatted_lines_spec(s, bv, bi as int, current_line_idx as int),
            decreases bs - current_line_idx,
        {
            let line = crate::text::rope_line_string(text, current_line_idx);
            let ghost before = lines_view(formatted_lines@);
            formatted_lines.push(line);
            proof {
                assert(lines_view(formatted_lines@) =~= before.push(
                    line_at(s, current_line_idx as int),
                ));
                assert(copy_lines(s, current_line_idx as int, bs as int) =~= seq![
                    line_at(s, current_line_idx as int),
                ] + copy_lines(s, current_line_idx + 1, bs as int));
            }
            current_line_idx += 1;
        }
        // format the block's lines against its layout
        let layouts = calculate_block_layout(text, bs, be);
        while current_line_idx < be
            invariant
                bs <= current_line_idx <= be,
                bi < nb,
                nb == blocks@.len(),
                bv == blocks_view(blocks@),
                (bs as int, be as int) == bv[bi as int],
                s == rope_text(*text),
                len_lines == line_count(s),
                be <= line_count(s),
                ml_view(layouts@) == block_layout_spec(s, bs as int, be as int),
                layouts_wf(ml_view(layouts@)),
                formatted_lines_spec(s, bv, 0, 0) =~= lines_view(formatted_lines@)
                    + format_lines(
                    s,
                    current_line_idx as int,
                    be as int,
                    block_layout_spec(s, bs as int, be as int),
                ) + formatted_lines_spec(s, bv, bi + 1, be as int),
            decreases be - current_line_idx,
        {
            let line = crate::text::rope_line_string(text, current_line_idx);
            let fl = format_block_line(line.as_str(), &layouts);
            let ghost before = lines_view(formatted_lines@);
            formatted_lines.push(fl);
            proof {
                assert(lines_view(formatted_lines@) =~= before.push(
                    block_line_spec(
                        line_at(s, current_line_idx as int),
                        block_layout_spec(s, bs as int, be as int),
                    ),
                ));
            }
            current_line_idx += 1;
        }
        proof {
            assert(format_lines(
                s,
                current_line_idx as int,
                be as int,
                block_layout_spec(s, bs as int, be as int),
            ) =~= Seq::<Seq<char>>::empty());
        }
        bi += 1;
    }
    // copy the lines after the last block
    while current_line_idx < len_lines
        invariant
            current_line_idx <= len_lines,
            s == rope_text(*text),
            len_lines == line_count(s),
            formatted_lines_spec(s, bv, 0, 0) =~= lines_view(formatted_lines@) + copy_lines(
                s,
                current_line_idx as int,
                len_lines as int,
            ),
            bv == blocks_view(blocks@),
            nb == blocks@.len(),
        decreases len_lines - current_line_idx,
    {
        let line = crate::text::rope_line_string(text, current_line_idx);
        let ghost before = lines_view(formatted_lines@);
        formatted_lines.push(line);
        proof {
            assert(lines_view(formatted_lines@) =~= before.push(
                line_at(s, current_line_idx as int),
            ));
        }
        current_line_idx += 1;
    }
    proof {
        assert(copy_lines(s, len_lines as int, len_lines as int) =~= Seq::<Seq<char>>::empty());
        assert(lines_view(formatted_lines@) =~= formatted_lines_spec(s, bv, 0, 0));
    }
    let new_text = apply_checkpoint_expansion(formatted_lines);
    *text = crate::text::rope_from_str(new_text.as_str());
}

} // verus!
