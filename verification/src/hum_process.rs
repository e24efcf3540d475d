//! The notation interpreter: a linear replay of parsed commands against a
//! transport state, producing sample-accurate note events and an additively
//! mixed master track.
//!
//! All musical time is exact rational arithmetic; a note event carries its
//! start and length in samples at the fixed rate, its pitch as a semitone
//! index (none for a rest) and its voice name.  Waveform synthesis is a
//! fixed function of pitch and voice that the audio collaborator computes;
//! mixing into the master track is verified here over integer samples.
pub mod hum_math;

use crate::chars::digit_class;
use crate::chars::digits_val;
use crate::chars::plus_class;
use crate::chars::scan_while;
use crate::chars::skip_digits;
use crate::chars::skip_plus;
use crate::chars::str_eq;
use crate::hum_error::GenerateError;
use crate::hum_parse::hum_grammar::SpecCmd;
use crate::hum_parse::hum_grammar::cmds_view;
use crate::rat::Rat;
use crate::rat::mk_rat;
use crate::rat::rat_wf;
use crate::rat::spec_add;
use crate::rat::spec_div;
use crate::rat::spec_mul;
use vstd::arithmetic::power2::pow2;
use vstd::prelude::*;

verus! {

/// Samples of the waveform per second of audio.
pub const SAMPLE_RATE: u32 = 44_100;

/// The playback state at specification level.
pub ghost struct SpecState {
    /// Beats per second, from the tempo.
    pub bps: Rat,
    /// The measure being operated on, counted from zero; starts one before
    /// the first, so the opening bar advances it to zero.
    pub measure_index: int,
    /// The greatest measure index seen so far; rewinds never lower it.
    pub measure_greatest: int,
    /// The measure index expected right after the latest checkpoint.
    pub checkpoint_index: int,
    /// The time signature as a fraction.
    pub time_signature: Rat,
    /// Beats per measure: the numerator of the time signature.
    pub beats_per_measure: Rat,
    /// Seconds per measure.
    pub measure_duration: Rat,
    /// Seconds from the start of the track to the current measure's start.
    pub ts_start: Rat,
    /// Seconds into the current measure.
    pub offset: Rat,
    /// The active voice name.
    pub voice: Seq<char>,
}

/// A placed note at specification level.
pub ghost struct SpecEvent {
    /// First sample of the note in the master track.
    pub start: int,
    /// Length of the note in samples.
    pub samples: int,
    /// Semitone index of the pitch; `None` is a rest.
    pub semitone: Option<int>,
    /// The voice the note is played with.
    pub voice: Seq<char>,
}

/// The state a replay starts from: 60 beats per minute, four beats to the
/// measure, one measure before the first, the sine voice.
pub open spec fn init_state() -> SpecState {
    SpecState {
        bps: Rat { n: 1, d: 1 },
        measure_index: -1,
        measure_greatest: -1,
        checkpoint_index: -1,
        time_signature: Rat { n: 1, d: 1 },
        beats_per_measure: Rat { n: 4, d: 1 },
        measure_duration: Rat { n: 4, d: 1 },
        ts_start: Rat { n: 0, d: 1 },
        offset: Rat { n: 0, d: 1 },
        voice: "sine"@,
    }
}

/// Sanity of a playback state: rationals well formed, indexes in range.
pub open spec fn state_wf(st: SpecState) -> bool {
    &&& rat_wf(st.bps)
    &&& rat_wf(st.time_signature)
    &&& rat_wf(st.beats_per_measure)
    &&& rat_wf(st.measure_duration)
    &&& rat_wf(st.ts_start)
    &&& rat_wf(st.offset)
    &&& -2 <= st.measure_index <= i64::MAX as int
    &&& -1 <= st.measure_greatest <= i64::MAX as int
    &&& -1 <= st.checkpoint_index <= i64::MAX as int
}

/// The numeric value of a tempo noun: decimal digits only, nonempty.
pub open spec fn tempo_noun_val(n: Seq<char>) -> Option<nat> {
    if n.len() > 0 && scan_while(n, 0, digit_class()) == n.len() {
        Some(digits_val(n))
    } else {
        None
    }
}

/// Numerator and denominator of a time-signature noun: digits up to the
/// first slash, digits after it up to a second slash or the end; anything
/// after a second slash is ignored, as the replay splits on slashes and
/// reads only the first two parts.
pub open spec fn time_noun_parts(n: Seq<char>) -> Option<(nat, nat)> {
    let d1 = scan_while(n, 0, digit_class());
    if d1 > 0 && d1 < n.len() && n[d1] == '/' {
        let d2 = scan_while(n, d1 + 1, digit_class());
        if d2 > d1 + 1 && (d2 == n.len() || n[d2] == '/') {
            Some((digits_val(n.subrange(0, d1)), digits_val(n.subrange(d1 + 1, d2))))
        } else {
            None
        }
    } else {
        None
    }
}

/// Numerator, denominator and dot count of a note noun, which must be
/// exactly `digits / digits` followed by dots.
pub open spec fn note_noun_parts(n: Seq<char>) -> Option<(nat, nat, nat)> {
    let d1 = scan_while(n, 0, digit_class());
    if d1 > 0 && d1 < n.len() && n[d1] == '/' {
        let d2 = scan_while(n, d1 + 1, digit_class());
        if d2 > d1 + 1 && scan_while(n, d2, plus_class()) == n.len() {
            Some(
                (
                    digits_val(n.subrange(0, d1)),
                    digits_val(n.subrange(d1 + 1, d2)),
                    (n.len() - d2) as nat,
                ),
            )
        } else {
            None
        }
    } else {
        None
    }
}

/// Samples before the moment `r` seconds into the track: negative moments
/// clamp to the start; a count beyond the address space is an error.
pub open spec fn samples_of(r: Rat) -> Option<int> {
    if r.n <= 0 {
        Some(0)
    } else {
        let q = (r.n * (SAMPLE_RATE as int)) / (r.d as int);
        if q > usize::MAX as int {
            None
        } else {
            Some(q)
        }
    }
}

/// One command replayed against the state: the next state and the note
/// event it places, if any; `None` is a fatal generation error (malformed
/// numeric literal, unknown note, zero tempo or time signature, or a value
/// the exact arithmetic cannot represent).
pub open spec fn step(st: SpecState, cmd: SpecCmd) -> Option<(SpecState, Option<SpecEvent>)> {
    let verb = cmd.0;
    let noun = cmd.1;
    if verb == "comment"@ {
        Some((st, None))
    } else if verb == "tempo"@ {
        match tempo_noun_val(noun) {
            Some(v) => if 0 < v <= i64::MAX as nat {
                match mk_rat(v as int, 60) {
                    Some(bps) => Some((SpecState { bps, ..st }, None)),
                    None => None,
                }
            } else {
                None
            },
            None => None,
        }
    } else if verb == "time"@ {
        match time_noun_parts(noun) {
            Some((nm, dn)) => if 0 < nm <= i64::MAX as nat && 0 < dn <= i64::MAX as nat {
                match mk_rat(nm as int, dn as int) {
                    Some(ts) => {
                        let bpm = Rat { n: nm as i64, d: 1 };
                        match spec_div(bpm, st.bps) {
                            Some(md) => Some(
                                (
                                    SpecState {
                                        time_signature: ts,
                                        beats_per_measure: bpm,
                                        measure_duration: md,
                                        ..st
                                    },
                                    None,
                                ),
                            ),
                            None => None,
                        }
                    },
                    None => None,
                }
            } else {
                None
            },
            None => None,
        }
    } else if verb == "checkpoint"@ {
        if st.measure_greatest + 1 <= i64::MAX as int {
            Some(
                (
                    SpecState {
                        checkpoint_index: st.measure_greatest + 1,
                        measure_index: st.measure_greatest,
                        ..st
                    },
                    None,
                ),
            )
        } else {
            None
        }
    } else if verb == "voice"@ {
        Some((SpecState { voice: noun, ..st }, None))
    } else if verb == "measure"@ {
        let mi = st.measure_index + 1;
        if mi <= i64::MAX as int {
            match spec_mul(st.measure_duration, Rat { n: mi as i64, d: 1 }) {
                Some(start) => Some(
                    (
                        SpecState {
                            measure_index: mi,
                            measure_greatest: if mi > st.measure_greatest {
                                mi
                            } else {
                                st.measure_greatest
                            },
                            ts_start: start,
                            offset: Rat { n: 0, d: 1 },
                            ..st
                        },
                        None,
                    ),
                ),
                None => None,
            }
        } else {
            None
        }
    } else if verb == "reset"@ {
        Some((SpecState { measure_index: st.checkpoint_index - 1, ..st }, None))
    } else {
        // a note or rest: the verb must be known before the noun is read
        let semi = if verb == "Rest"@ {
            Some(None)
        } else {
            match hum_math::semitone_spec(verb) {
                Some(s) => Some(Some(s)),
                None => None,
            }
        };
        match semi {
            None => None,
            Some(pitch) => match note_noun_parts(noun) {
                None => None,
                Some((nm, dn, dots)) => if 0 < nm <= i64::MAX as nat && 0 < dn <= i64::MAX as nat
                    && dots < 63 {
                    match mk_rat(nm as int, dn as int) {
                        None => None,
                        Some(frac) => match spec_div(frac, st.time_signature) {
                            None => None,
                            Some(part) => match spec_mul(st.measure_duration, part) {
                                None => None,
                                Some(base) => {
                                    let p2 = pow2(dots) as int;
                                    match mk_rat(base.n * (2 * p2 - 1), base.d * p2) {
                                        None => None,
                                        Some(dur) => match spec_add(st.ts_start, st.offset) {
                                            None => None,
                                            Some(pos) => match (
                                                samples_of(pos),
                                                samples_of(dur),
                                                spec_add(st.offset, dur),
                                            ) {
                                                (Some(start), Some(ns), Some(off2)) => Some(
                                                    (
                                                        SpecState { offset: off2, ..st },
                                                        Some(
                                                            SpecEvent {
                                                                start,
                                                                samples: ns,
                                                                semitone: pitch,
                                                                voice: st.voice,
                                                            },
                                                        ),
                                                    ),
                                                ),
                                                _ => None,
                                            },
                                        },
                                    }
                                },
                            },
                        },
                    }
                } else {
                    None
                },
            },
        }
    }
}

/// The events of a placed note, as a sequence of zero or one.
pub open spec fn opt_event_seq(ev: Option<SpecEvent>) -> Seq<SpecEvent> {
    match ev {
        Some(e) => seq![e],
        None => Seq::empty(),
    }
}

/// Replay the commands from index `i` onward: all events placed, or the
/// index of the command that failed.
pub open spec fn run_from(cmds: Seq<SpecCmd>, i: int, st: SpecState) -> Result<Seq<SpecEvent>, int>
    decreases cmds.len() - i,
{
    if i < 0 || i >= cmds.len() {
        Ok(Seq::empty())
    } else {
        match step(st, cmds[i]) {
            None => Err(i),
            Some((st2, ev)) => match run_from(cmds, i + 1, st2) {
                Ok(rest) => Ok(opt_event_seq(ev) + rest),
                Err(p) => Err(p),
            },
        }
    }
}

/// The playback state, replayed over by the interpreter.
pub struct PlayState {
    pub bps: Rat,
    pub measure_index: i128,
    pub measure_greatest: i128,
    pub checkpoint_index: i128,
    pub time_signature: Rat,
    pub beats_per_measure: Rat,
    pub measure_duration: Rat,
    pub ts_start: Rat,
    pub offset: Rat,
    pub voice: String,
}

/// A placed note: start and length in samples at the fixed rate, the pitch
/// as a semitone index (`None` for a rest), and the voice name.
#[derive(Debug, Clone)]
pub struct NoteEvent {
    pub start: usize,
    pub samples: usize,
    pub semitone: Option<u8>,
    pub voice: String,
}

/// The specification-level value of a playback state.
pub open spec fn st_view(ps: PlayState) -> SpecState {
    SpecState {
        bps: ps.bps,
        measure_index: ps.measure_index as int,
        measure_greatest: ps.measure_greatest as int,
        checkpoint_index: ps.checkpoint_index as int,
        time_signature: ps.time_signature,
        beats_per_measure: ps.beats_per_measure,
        measure_duration: ps.measure_duration,
        ts_start: ps.ts_start,
        offset: ps.offset,
        voice: ps.voice@,
    }
}

/// The specification-level value of a note event.
pub open spec fn ev_view(e: NoteEvent) -> SpecEvent {
    SpecEvent {
        start: e.start as int,
        samples: e.samples as int,
        semitone: match e.semitone {
            Some(s) => Some(s as int),
            None => None,
        },
        voice: e.voice@,
    }
}

/// The specification-level values of a list of note events.
pub open spec fn events_view(v: Seq<NoteEvent>) -> Seq<SpecEvent> {
    v.map_values(|e: NoteEvent| ev_view(e))
}

/// The specification-level value of an optional note event.
pub open spec fn opt_ev_view(e: Option<NoteEvent>) -> Option<SpecEvent> {
    match e {
        Some(ev) => Some(ev_view(ev)),
        None => None,
    }
}

/// Two to the power `dots`, exactly.
fn pow2_i128(dots: u64) -> (p: i128)
    requires
        dots < 63,
    ensures
        p == pow2(dots as nat),
        1 <= p <= 0x4000_0000_0000_0000i128,
{
    let mut p: i128 = 1;
    let mut k: u64 = 0;
    proof {
        vstd::arithmetic::power2::lemma2_to64();
        vstd::arithmetic::power2::lemma2_to64_rest();
        reveal(pow2);
    }
    while k < dots
        invariant
            k <= dots < 63,
            p == pow2(k as nat),
            1 <= p <= 0x4000_0000_0000_0000i128,
        decreases dots - k,
    {
        proof {
            vstd::arithmetic::power2::lemma_pow2_unfold((k + 1) as nat);
            if k + 1 < 62 {
                vstd::arithmetic::power2::lemma_pow2_strictly_increases((k + 1) as nat, 62);
            }
            vstd::arithmetic::power2::lemma2_to64_rest();
        }
        p = p * 2;
        k += 1;
    }
    p
}

/// Samples before the moment `r` seconds into the track; mirrors
/// [`samples_of`].
fn samples_exec(r: Rat) -> (res: Option<usize>)
    requires
        rat_wf(r),
    ensures
        match res {
            Some(q) => samples_of(r) == Some(q as int),
            None => samples_of(r) is None,
        },
{
    if r.n <= 0 {
        Some(0)
    } else {
        let q = ((r.n as u128) * (SAMPLE_RATE as u128)) / (r.d as u128);
        if q > usize::MAX as u128 {
            None
        } else {
            Some(q as usize)
        }
    }
}

fn generate_error(message: &str) -> (e: GenerateError) {
    GenerateError { message: String::from_str(message) }
}

/// Replay a single command against the state; mirrors [`step`].
fn step_cmd(st: PlayState, verb: &str, noun: &str) -> (r: Result<
    (PlayState, Option<NoteEvent>),
    GenerateError,
>)
    requires
        state_wf(st_view(st)),
    ensures
        match r {
            Ok((st2, ev)) => {
                &&& step(st_view(st), (verb@, noun@)) == Some((st_view(st2), opt_ev_view(ev)))
                &&& state_wf(st_view(st2))
            },
            Err(_) => step(st_view(st), (verb@, noun@)) is None,
        },
{
    proof {
        reveal_strlit("comment");
        reveal_strlit("tempo");
        reveal_strlit("time");
        reveal_strlit("checkpoint");
        reveal_strlit("voice");
        reveal_strlit("measure");
        reveal_strlit("reset");
        reveal_strlit("Rest");
    }
    let nlen = noun.unicode_len();
    if str_eq(verb, "comment") {
        Ok((st, None))
    } else if str_eq(verb, "tempo") {
        let d = skip_digits(noun, 0);
        proof {
            crate::chars::lemma_scan_while(noun@, 0, digit_class());
        }
        if nlen == 0 || d != nlen {
            return Err(generate_error("tempo is not a whole number of beats per minute"));
        }
        match crate::chars::parse_u64_digits(noun, 0, nlen) {
            Some(v) if 1 <= v && v <= i64::MAX as u64 => {
                assert(noun@.subrange(0, nlen as int) =~= noun@);
                match Rat::new(v as i64, 60) {
                    Some(bps) => {
                        let st2 = PlayState { bps, ..st };
                        Ok((st2, None))
                    },
                    None => Err(generate_error("tempo cannot be represented")),
                }
            },
            _ => {
                proof {
                    assert(noun@.subrange(0, nlen as int) =~= noun@);
                }
                Err(generate_error("tempo is out of range"))
            },
        }
    } else if str_eq(verb, "time") {
        let d1 = skip_digits(noun, 0);
        proof {
            crate::chars::lemma_scan_while(noun@, 0, digit_class());
        }
        if !(d1 > 0 && d1 < nlen && noun.get_char(d1) == '/') {
            return Err(generate_error("time signature is not a fraction"));
        }
        let d2 = skip_digits(noun, d1 + 1);
        proof {
            crate::chars::lemma_scan_while(noun@, d1 + 1, digit_class());
        }
        if !(d2 > d1 + 1 && (d2 == nlen || noun.get_char(d2) == '/')) {
            return Err(generate_error("time signature is not a fraction"));
        }
        let nm = crate::chars::parse_u64_digits(noun, 0, d1);
        let dn = crate::chars::parse_u64_digits(noun, d1 + 1, d2);
        match (nm, dn) {
            (Some(nmv), Some(dnv)) if 1 <= nmv && nmv <= i64::MAX as u64 && 1 <= dnv && dnv
                <= i64::MAX as u64 => {
                match Rat::new(nmv as i64, dnv as i64) {
                    Some(ts) => {
                        let bpm = Rat::from_i64(nmv as i64);
                        match bpm.div(st.bps) {
                            Some(md) => {
                                let st2 = PlayState {
                                    time_signature: ts,
                                    beats_per_measure: bpm,
                                    measure_duration: md,
                                    ..st
                                };
                                Ok((st2, None))
                            },
                            None => Err(generate_error("measure duration cannot be represented")),
                        }
                    },
                    None => Err(generate_error("time signature cannot be represented")),
                }
            },
            _ => Err(generate_error("time signature is out of range")),
        }
    } else if str_eq(verb, "checkpoint") {
        if st.measure_greatest + 1 <= i64::MAX as i128 {
            let st2 = PlayState {
                checkpoint_index: st.measure_greatest + 1,
                measure_index: st.measure_greatest,
                ..st
            };
            Ok((st2, None))
        } else {
            Err(generate_error("too many measures"))
        }
    } else if str_eq(verb, "voice") {
        let st2 = PlayState { voice: String::from_str(noun), ..st };
        Ok((st2, None))
    } else if str_eq(verb, "measure") {
        let mi = st.measure_index + 1;
        if mi <= i64::MAX as i128 {
            match st.measure_duration.mul(Rat::from_i64(mi as i64)) {
                Some(start) => {
                    let st2 = PlayState {
                        measure_index: mi,
                        measure_greatest: if mi > st.measure_greatest {
                            mi
                        } else {
                            st.measure_greatest
                        },
                        ts_start: start,
                        offset: Rat::zero(),
                        ..st
                    };
                    Ok((st2, None))
                },
                None => Err(generate_error("measure start cannot be represented")),
            }
        } else {
            Err(generate_error("too many measures"))
        }
    } else if str_eq(verb, "reset") {
        let st2 = PlayState { measure_index: st.checkpoint_index - 1, ..st };
        Ok((st2, None))
    } else {
        // a note or rest
        let pitch: Option<u8> = if str_eq(verb, "Rest") {
            None
        } else {
            match hum_math::semitone_of(verb) {
                Some(s) => Some(s as u8),
                None => {
                    return Err(
                        GenerateError {
                            message: String::from_str("there is no note named ").concat(verb),
                        },
                    );
                },
            }
        };
        let d1 = skip_digits(noun, 0);
        proof {
            crate::chars::lemma_scan_while(noun@, 0, digit_class());
        }
        if !(d1 > 0 && d1 < nlen && noun.get_char(d1) == '/') {
            return Err(generate_error("note length is not a fraction"));
        }
        let d2 = skip_digits(noun, d1 + 1);
        proof {
            crate::chars::lemma_scan_while(noun@, d1 + 1, digit_class());
        }
        let p = skip_plus(noun, d2);
        if !(d2 > d1 + 1 && p == nlen) {
            return Err(generate_error("note length is not a fraction"));
        }
        let dots = (nlen - d2) as u64;
        let nm = crate::chars::parse_u64_digits(noun, 0, d1);
        let dn = crate::chars::parse_u64_digits(noun, d1 + 1, d2);
        match (nm, dn) {
            (Some(nmv), Some(dnv)) if 1 <= nmv && nmv <= i64::MAX as u64 && 1 <= dnv && dnv
                <= i64::MAX as u64 && dots < 63 => {
                let frac = match Rat::new(nmv as i64, dnv as i64) {
                    Some(f) => f,
                    None => {
                        return Err(generate_error("note length cannot be represented"));
                    },
                };
                let part = match frac.div(st.time_signature) {
                    Some(p2) => p2,
                    None => {
                        return Err(generate_error("note length cannot be represented"));
                    },
                };
                let base = match st.measure_duration.mul(part) {
                    Some(b) => b,
                    None => {
                        return Err(generate_error("note length cannot be represented"));
                    },
                };
                let p2 = pow2_i128(dots);
                proof {
                    crate::rat::lemma_scale_bounds(base.n as int, base.d as int, p2 as int);
                }
                let dur = match crate::rat::reduce(
                    (base.n as i128) * (2 * p2 - 1),
                    (base.d as i128) * p2,
                ) {
                    Some(dd) => dd,
                    None => {
                        return Err(generate_error("note length cannot be represented"));
                    },
                };
                proof {
                    crate::rat::lemma_mk_rat(
                        (base.n as int) * (2 * (p2 as int) - 1),
                        (base.d as int) * (p2 as int),
                    );
                }
                let pos = match st.ts_start.add(st.offset) {
                    Some(p3) => p3,
                    None => {
                        return Err(generate_error("note position cannot be represented"));
                    },
                };
                let start = match samples_exec(pos) {
                    Some(s) => s,
                    None => {
                        return Err(generate_error("note position is out of range"));
                    },
                };
                let ns = match samples_exec(dur) {
                    Some(s) => s,
                    None => {
                        return Err(generate_error("note length is out of range"));
                    },
                };
                let off2 = match st.offset.add(dur) {
                    Some(o) => o,
                    None => {
                        return Err(generate_error("note position cannot be represented"));
                    },
                };
                let voice = st.voice.clone();
                let st2 = PlayState { offset: off2, ..st };
                let ev = NoteEvent { start, samples: ns, semitone: pitch, voice };
                Ok((st2, Some(ev)))
            },
            _ => Err(generate_error("note length is out of range")),
        }
    }
}


/// Events already placed, attached to the outcome of the remaining replay.
pub open spec fn prepend_evs(pre: Seq<SpecEvent>, r: Result<Seq<SpecEvent>, int>) -> Result<
    Seq<SpecEvent>,
    int,
> {
    match r {
        Ok(evs) => Ok(pre + evs),
        Err(p) => Err(p),
    }
}

/// Replay a whole command sequence from the initial state: every note event
/// placed, in order, or the first semantically invalid command makes the
/// whole run fail with a typed error and no partial result.
pub fn run_commands(score_commands: Vec<(String, String)>) -> (r: Result<
    Vec<NoteEvent>,
    GenerateError,
>)
    ensures
        match r {
            Ok(evs) => run_from(cmds_view(score_commands@), 0, init_state()) == Ok::<
                Seq<SpecEvent>,
                int,
            >(events_view(evs@)),
            Err(_) => run_from(cmds_view(score_commands@), 0, init_state()) is Err,
        },
{
    let ghost cv = cmds_view(score_commands@);
    let mut st = PlayState {
        bps: Rat { n: 1, d: 1 },
        measure_index: -1,
        measure_greatest: -1,
        checkpoint_index: -1,
        time_signature: Rat { n: 1, d: 1 },
        beats_per_measure: Rat { n: 4, d: 1 },
        measure_duration: Rat { n: 4, d: 1 },
        ts_start: Rat { n: 0, d: 1 },
        offset: Rat { n: 0, d: 1 },
        voice: String::from_str("sine"),
    };
    proof {
        assert(st_view(st) == init_state());
    }
    let mut acc: Vec<NoteEvent> = Vec::new();
    let mut i: usize = 0;
    let n = score_commands.len();
    proof {
        assert(events_view(acc@) =~= Seq::<SpecEvent>::empty());
    }
    while i < n
        invariant
            i <= n,
            n == score_commands@.len(),
            cv == cmds_view(score_commands@),
            state_wf(st_view(st)),
            prepend_evs(events_view(acc@), run_from(cv, i as int, st_view(st))) == run_from(
                cv,
                0,
                init_state(),
            ),
        decreases n - i,
    {
        let cmd = &score_commands[i];
        proof {
            assert(cv[i as int] == (cmd.0@, cmd.1@));
        }
        match step_cmd(st, cmd.0.as_str(), cmd.1.as_str()) {
            Err(e) => {
                proof {
                    assert(run_from(cv, i as int, st_view(st)) == Err::<Seq<SpecEvent>, int>(
                        i as int,
                    ));
                }
                return Err(e);
            },
            Ok((st2, ev)) => {
                let ghost old_acc = acc@;
                let ghost st_before = st_view(st);
                match ev {
                    Some(e) => {
                        let ghost e_spec = ev_view(e);
                        acc.push(e);
                        proof {
                            assert(events_view(acc@) =~= events_view(old_acc).push(e_spec));
                            match run_from(cv, i + 1, st_view(st2)) {
                                Ok(rest) => {
                                    assert(events_view(old_acc) + (seq![e_spec] + rest)
                                        =~= events_view(old_acc).push(e_spec) + rest);
                                },
                                Err(_) => {},
                            }
                        }
                    },
                    None => {
                        proof {
                            match run_from(cv, i + 1, st_view(st2)) {
                                Ok(rest) => {
                                    assert(opt_event_seq(opt_ev_view(None::<NoteEvent>)) + rest
                                        =~= rest);
                                    assert(events_view(old_acc) + (
                                    opt_event_seq(opt_ev_view(None::<NoteEvent>)) + rest)
                                        == events_view(old_acc) + rest);
                                },
                                Err(_) => {},
                            }
                        }
                    },
                }
                st = st2;
                i += 1;
            },
        }
    }
    proof {
        assert(events_view(acc@) + Seq::<SpecEvent>::empty() =~= events_view(acc@));
    }
    Ok(acc)
}

/// The end of an event in the track, saturating at the address space.
pub open spec fn ev_end(e: SpecEvent) -> int {
    if e.start + e.samples > usize::MAX as int {
        usize::MAX as int
    } else {
        e.start + e.samples
    }
}

/// The master track length that a list of events needs: the latest end.
pub open spec fn spec_track_len(evs: Seq<SpecEvent>) -> int
    decreases evs.len(),
{
    if evs.len() == 0 {
        0
    } else {
        let rest = spec_track_len(evs.drop_last());
        if ev_end(evs.last()) > rest {
            ev_end(evs.last())
        } else {
            rest
        }
    }
}

/// The number of samples the master track needs to hold every event.
pub fn track_len(events: &Vec<NoteEvent>) -> (r: usize)
    ensures
        r == spec_track_len(events_view(events@)),
{
    let mut best: usize = 0;
    let mut i: usize = 0;
    proof {
        assert(events_view(events@).subrange(0, 0) =~= Seq::<SpecEvent>::empty());
    }
    while i < events.len()
        invariant
            i <= events@.len(),
            best == spec_track_len(events_view(events@).subrange(0, i as int)),
        decreases events@.len() - i,
    {
        let e = &events[i];
        let end = if e.samples > usize::MAX - e.start {
            usize::MAX
        } else {
            e.start + e.samples
        };
        proof {
            let evs = events_view(events@);
            assert(evs.subrange(0, i + 1).drop_last() =~= evs.subrange(0, i as int));
            assert(evs.subrange(0, i + 1).last() == ev_view(events@[i as int]));
        }
        if end > best {
            best = end;
        }
        i += 1;
    }
    proof {
        assert(events_view(events@).subrange(0, events@.len() as int) =~= events_view(events@));
    }
    best
}

/// A sample sum clamped to the representable range.
pub open spec fn sat_i64(x: int) -> int {
    if x > i64::MAX as int {
        i64::MAX as int
    } else if x < i64::MIN as int {
        i64::MIN as int
    } else {
        x
    }
}

/// Addition of two samples, saturating.
pub fn sat_add_i64(a: i64, b: i64) -> (r: i64)
    ensures
        r as int == sat_i64(a + b),
{
    if b >= 0 {
        if a > i64::MAX - b {
            i64::MAX
        } else {
            a + b
        }
    } else {
        if a < i64::MIN - b {
            i64::MIN
        } else {
            a + b
        }
    }
}

/// The track after a note is mixed in at `start`: the track is zero-padded
/// to reach the note's end if needed, and within the note's span each
/// sample is the saturating sum of what was there and the note's sample;
/// nothing is ever overwritten.
pub open spec fn spec_mix(t: Seq<i64>, start: int, note: Seq<i64>) -> Seq<i64> {
    let end = start + note.len();
    let n = if t.len() >= end {
        t.len() as int
    } else {
        end
    };
    Seq::new(
        n as nat,
        |i: int|
            {
                let base: int = if i < t.len() {
                    t[i] as int
                } else {
                    0
                };
                (if start <= i < end {
                    sat_i64(base + note[i - start])
                } else {
                    base
                }) as i64
            },
    )
}

/// Additively mix a note's samples into the master track, growing the track
/// with silence if it is too short.
pub fn mix_into(track: &mut Vec<i64>, start: usize, note: &Vec<i64>)
    requires
        start + note@.len() <= usize::MAX,
    ensures
        final(track)@ == spec_mix(old(track)@, start as int, note@),
{
    let end = start + note.len();
    let ghost full = if old(track)@.len() >= end as int {
        old(track)@.len() as int
    } else {
        end as int
    };
    while track.len() < end
        invariant
            old(track)@.len() <= track@.len() <= full,
            full == if old(track)@.len() >= end as int {
                old(track)@.len() as int
            } else {
                end as int
            },
            forall|j: int| 0 <= j < old(track)@.len() ==> track@[j] == old(track)@[j],
            forall|j: int| old(track)@.len() <= j < track@.len() ==> track@[j] == 0,
        decreases end - track@.len(),
    {
        track.push(0);
    }
    proof {
        assert(track@.len() == full);
    }
    let ghost padded = track@;
    let mut i: usize = 0;
    while i < note.len()
        invariant
            i <= note@.len(),
            track@.len() == padded.len() == full,
            end == start + note@.len(),
            end <= track@.len(),
            full == if old(track)@.len() >= end as int {
                old(track)@.len() as int
            } else {
                end as int
            },
            forall|j: int| 0 <= j < old(track)@.len() ==> padded[j] == old(track)@[j],
            forall|j: int| old(track)@.len() <= j < padded.len() ==> padded[j] == 0,
            forall|j: int| 0 <= j < track@.len() && !(start <= j < start + i) ==> track@[j]
                == padded[j],
            forall|j: int| start <= j < start + i ==> track@[j] as int == sat_i64(
                padded[j] as int + note@[j - start] as int,
            ),
        decreases note@.len() - i,
    {
        let idx = start + i;
        let v = sat_add_i64(track[idx], note[i]);
        track.set(idx, v);
        i += 1;
    }
    proof {
        let result = spec_mix(old(track)@, start as int, note@);
        assert(result.len() == full);
        assert forall|j: int| 0 <= j < track@.len() implies track@[j] == result[j] by {
            if start <= j < end {
                assert(track@[j] as int == sat_i64(padded[j] as int + note@[j - start] as int));
            } else {
                assert(track@[j] == padded[j]);
            }
        }
        assert(track@ =~= result);
    }
}

/// Additive mixing law: over a silent track, mixing two notes one after the
/// other yields exactly the sample-wise sum of the two tracks that each
/// note would produce alone, provided no sum saturates.
pub proof fn lemma_mix_additive(len: int, s1: int, n1: Seq<i64>, s2: int, n2: Seq<i64>)
    requires
        0 <= s1,
        0 <= s2,
        len >= s1 + n1.len(),
        len >= s2 + n2.len(),
        forall|i: int| 0 <= i < n1.len() ==> -0x2000_0000_0000_0000 <= #[trigger] n1[i] <= 0x2000_0000_0000_0000,
        forall|i: int| 0 <= i < n2.len() ==> -0x2000_0000_0000_0000 <= #[trigger] n2[i] <= 0x2000_0000_0000_0000,
    ensures
        ({
            let zeros = Seq::<i64>::new(len as nat, |i: int| 0i64);
            let a = spec_mix(zeros, s1, n1);
            let b = spec_mix(zeros, s2, n2);
            spec_mix(a, s2, n2) =~= Seq::<i64>::new(len as nat, |i: int| (a[i] + b[i]) as i64)
        }),
{
    let zeros = Seq::<i64>::new(len as nat, |i: int| 0i64);
    let a = spec_mix(zeros, s1, n1);
    let b = spec_mix(zeros, s2, n2);
    assert(a.len() == len);
    assert(b.len() == len);
    assert forall|i: int| 0 <= i < len implies spec_mix(a, s2, n2)[i] == (a[i] + b[i]) as i64 by {
        assert(a[i] as int == if s1 <= i < s1 + n1.len() {
            n1[i - s1] as int
        } else {
            0
        });
        assert(b[i] as int == if s2 <= i < s2 + n2.len() {
            n2[i - s2] as int
        } else {
            0
        });
    }
}

/// Dot-duration law: `dots` dots extend a base duration to
/// `base * (2 - 2^(-dots))`, that is `base * (2^(dots+1) - 1) / 2^dots`;
/// `dur` here is the reduced rational the interpreter computes for it.
pub proof fn lemma_dot_duration(base: Rat, dots: nat, dur: Rat)
    requires
        rat_wf(base),
        mk_rat(base.n * (2 * pow2(dots) - 1), base.d * pow2(dots)) == Some(dur),
    ensures
        rat_wf(dur),
        dur.n * ((base.d as int) * pow2(dots)) == (base.n as int) * (pow2((dots + 1) as nat) - 1)
            * dur.d,
{
    vstd::arithmetic::power2::lemma_pow2_pos(dots);
    let p2 = pow2(dots) as int;
    assert((base.d as int) * p2 > 0) by (nonlinear_arith)
        requires
            base.d > 0,
            p2 > 0,
    ;
    crate::rat::lemma_mk_rat(base.n * (2 * p2 - 1), base.d * p2);
    vstd::arithmetic::power2::lemma_pow2_unfold((dots + 1) as nat);
}

/// Dot-duration law at the interpreter: whenever a note command succeeds
/// against any playback state - and every state a replay reaches arises
/// this way through [`run_from`] - the duration it occupies is the
/// undotted base duration (measure duration times the fraction over the
/// time signature) scaled by `2 - 2^(-dots)`, that is by
/// `(2^(dots+1) - 1) / 2^dots`; the placed event spans that duration in
/// samples at the fixed rate, starts at the current measure position, and
/// the in-measure offset advances by exactly the same duration.
pub proof fn lemma_step_note_duration(st: SpecState, verb: Seq<char>, noun: Seq<char>)
    requires
        state_wf(st),
        step(st, (verb, noun)) matches Some((st2, ev_opt)) && ev_opt is Some,
    ensures
        note_noun_parts(noun) is Some,
        ({
            let (st2, ev_opt) = step(st, (verb, noun))->Some_0;
            let ev = ev_opt->Some_0;
            let (num, den, dots) = note_noun_parts(noun)->Some_0;
            let frac = mk_rat(num as int, den as int)->Some_0;
            let part = spec_div(frac, st.time_signature)->Some_0;
            let base = spec_mul(st.measure_duration, part)->Some_0;
            let p2 = pow2(dots) as int;
            let dur = mk_rat(base.n * (2 * p2 - 1), base.d * p2)->Some_0;
            let pos = spec_add(st.ts_start, st.offset)->Some_0;
            &&& rat_wf(base)
            &&& rat_wf(dur)
            &&& dur.n * ((base.d as int) * p2) == (base.n as int) * (pow2((dots + 1) as nat) - 1)
                * dur.d
            &&& samples_of(dur) is Some
            &&& ev.samples == samples_of(dur)->Some_0
            &&& samples_of(pos) is Some
            &&& ev.start == samples_of(pos)->Some_0
            &&& spec_add(st.offset, dur) is Some
            &&& st2.offset == spec_add(st.offset, dur)->Some_0
        }),
{
    reveal_strlit("comment");
    reveal_strlit("tempo");
    reveal_strlit("time");
    reveal_strlit("checkpoint");
    reveal_strlit("voice");
    reveal_strlit("measure");
    reveal_strlit("reset");
    let (num, den, dots) = note_noun_parts(noun)->Some_0;
    crate::rat::lemma_mk_rat(num as int, den as int);
    let frac = mk_rat(num as int, den as int)->Some_0;
    crate::rat::lemma_spec_div(frac, st.time_signature);
    let part = spec_div(frac, st.time_signature)->Some_0;
    crate::rat::lemma_spec_mul(st.measure_duration, part);
    let base = spec_mul(st.measure_duration, part)->Some_0;
    vstd::arithmetic::power2::lemma_pow2_pos(dots);
    let p2 = pow2(dots) as int;
    assert((base.d as int) * p2 > 0) by (nonlinear_arith)
        requires
            base.d > 0,
            p2 > 0,
    ;
    lemma_dot_duration(base, dots, mk_rat(base.n * (2 * p2 - 1), base.d * p2)->Some_0);
}

/// Checkpoint/reset law: a `reset` rewinds the measure pointer so that the
/// next `measure` lands exactly on the measure that followed the
/// checkpoint, at the same start timestamp, as long as the checkpoint and
/// the measure duration are unchanged in between.
pub proof fn lemma_checkpoint_reset(s0: SpecState, s3: SpecState)
    requires
        state_wf(s0),
        step(s0, ("checkpoint"@, Seq::<char>::empty())) is Some,
        step(step(s0, ("checkpoint"@, Seq::<char>::empty()))->Some_0.0, ("measure"@, Seq::<char>::empty())) is Some,
        s3.checkpoint_index == step(s0, ("checkpoint"@, Seq::<char>::empty()))->Some_0.0.checkpoint_index,
        s3.measure_duration == s0.measure_duration,
        -2 <= s3.measure_index,
    ensures
        ({
            let s1 = step(s0, ("checkpoint"@, Seq::<char>::empty()))->Some_0.0;
            let s2 = step(s1, ("measure"@, Seq::<char>::empty()))->Some_0.0;
            let s4 = step(s3, ("reset"@, Seq::<char>::empty()))->Some_0.0;
            &&& step(s3, ("reset"@, Seq::<char>::empty())) is Some
            &&& step(s4, ("measure"@, Seq::<char>::empty())) is Some
            &&& step(s4, ("measure"@, Seq::<char>::empty()))->Some_0.0.measure_index
                == s2.measure_index
            &&& step(s4, ("measure"@, Seq::<char>::empty()))->Some_0.0.ts_start == s2.ts_start
        }),
{
    reveal_strlit("checkpoint");
    reveal_strlit("measure");
    reveal_strlit("reset");
    reveal_strlit("comment");
    reveal_strlit("tempo");
    reveal_strlit("time");
    reveal_strlit("voice");
    let s1 = step(s0, ("checkpoint"@, Seq::<char>::empty()))->Some_0.0;
    let s2 = step(s1, ("measure"@, Seq::<char>::empty()))->Some_0.0;
    let s4 = step(s3, ("reset"@, Seq::<char>::empty()))->Some_0.0;
    assert(s4.measure_index == s3.checkpoint_index - 1);
    assert(s4.measure_index + 1 == s1.checkpoint_index == s0.measure_greatest + 1);
    assert(s2.measure_index == s1.measure_index + 1 == s0.measure_greatest + 1);
}

} // verus!
