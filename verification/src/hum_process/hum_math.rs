//! The pitch model: the twelve-note scale in its sharp and flat spellings,
//! and the linear semitone index that both spellings share.
//!
//! A pitch name is two characters (letter and accidental); a full note
//! identifier is `<name>_<octave>` with the octave a single digit inside the
//! fixed range.  The semitone index is `octave * 12 + position`, counting
//! positions inside one octave; the frequency of a note is a fixed function
//! of its semitone index alone (equal temperament anchored at A4 = 440 Hz),
//! which the audio collaborator computes.
use vstd::prelude::*;

verus! {

/// The lowest octave of the fixed range.
pub const LOWEST_OCTAVE: u8 = 0;

/// The highest octave of the fixed range.
pub const HIGHEST_OCTAVE: u8 = 7;

/// Pitch classes per octave.
pub const NOTES_PER_OCTAVE: u8 = 12;

/// The sharp-spelled name at a scale position.
pub open spec fn sharp_name(i: int) -> Seq<char> {
    if i == 0 {
        "Cn"@
    } else if i == 1 {
        "Cs"@
    } else if i == 2 {
        "Dn"@
    } else if i == 3 {
        "Ds"@
    } else if i == 4 {
        "En"@
    } else if i == 5 {
        "Fn"@
    } else if i == 6 {
        "Fs"@
    } else if i == 7 {
        "Gn"@
    } else if i == 8 {
        "Gs"@
    } else if i == 9 {
        "An"@
    } else if i == 10 {
        "As"@
    } else {
        "Bn"@
    }
}

/// The flat-spelled name at a scale position.
pub open spec fn flat_name(i: int) -> Seq<char> {
    if i == 0 {
        "Cn"@
    } else if i == 1 {
        "Df"@
    } else if i == 2 {
        "Dn"@
    } else if i == 3 {
        "Ef"@
    } else if i == 4 {
        "En"@
    } else if i == 5 {
        "Fn"@
    } else if i == 6 {
        "Gf"@
    } else if i == 7 {
        "Gn"@
    } else if i == 8 {
        "Af"@
    } else if i == 9 {
        "An"@
    } else if i == 10 {
        "Bf"@
    } else {
        "Bn"@
    }
}

/// The scale position of a sharp-spelled name, if it is one: a letter
/// followed by `n` (natural) or `s` (sharp).
pub open spec fn sharp_index(v: Seq<char>) -> Option<int> {
    if v.len() != 2 {
        None
    } else if v[0] == 'C' && v[1] == 'n' {
        Some(0int)
    } else if v[0] == 'C' && v[1] == 's' {
        Some(1int)
    } else if v[0] == 'D' && v[1] == 'n' {
        Some(2int)
    } else if v[0] == 'D' && v[1] == 's' {
        Some(3int)
    } else if v[0] == 'E' && v[1] == 'n' {
        Some(4int)
    } else if v[0] == 'F' && v[1] == 'n' {
        Some(5int)
    } else if v[0] == 'F' && v[1] == 's' {
        Some(6int)
    } else if v[0] == 'G' && v[1] == 'n' {
        Some(7int)
    } else if v[0] == 'G' && v[1] == 's' {
        Some(8int)
    } else if v[0] == 'A' && v[1] == 'n' {
        Some(9int)
    } else if v[0] == 'A' && v[1] == 's' {
        Some(10int)
    } else if v[0] == 'B' && v[1] == 'n' {
        Some(11int)
    } else {
        None
    }
}

/// The scale position of a flat-spelled name, if it is one: a letter
/// followed by `n` (natural) or `f` (flat).
pub open spec fn flat_index(v: Seq<char>) -> Option<int> {
    if v.len() != 2 {
        None
    } else if v[0] == 'C' && v[1] == 'n' {
        Some(0int)
    } else if v[0] == 'D' && v[1] == 'f' {
        Some(1int)
    } else if v[0] == 'D' && v[1] == 'n' {
        Some(2int)
    } else if v[0] == 'E' && v[1] == 'f' {
        Some(3int)
    } else if v[0] == 'E' && v[1] == 'n' {
        Some(4int)
    } else if v[0] == 'F' && v[1] == 'n' {
        Some(5int)
    } else if v[0] == 'G' && v[1] == 'f' {
        Some(6int)
    } else if v[0] == 'G' && v[1] == 'n' {
        Some(7int)
    } else if v[0] == 'A' && v[1] == 'f' {
        Some(8int)
    } else if v[0] == 'A' && v[1] == 'n' {
        Some(9int)
    } else if v[0] == 'B' && v[1] == 'f' {
        Some(10int)
    } else if v[0] == 'B' && v[1] == 'n' {
        Some(11int)
    } else {
        None
    }
}

/// The scale position of a name in the merged table: the sharp spelling is
/// consulted first, then the flat spelling, as the tables are merged for
/// playback.
pub open spec fn merged_index(v: Seq<char>) -> Option<int> {
    if sharp_index(v) is Some {
        sharp_index(v)
    } else {
        flat_index(v)
    }
}

/// The semitone index of a full note identifier `<name>_<octave>`: the
/// octave is a single digit within the fixed range, and the name must stand
/// in one of the two spelling tables.
pub open spec fn semitone_spec(v: Seq<char>) -> Option<int> {
    if v.len() == 4 && v[2] == '_' && 48 <= v[3] as u32 <= 48 + HIGHEST_OCTAVE as u32 {
        let o = v[3] as u32 - 48;
        match merged_index(v.subrange(0, 2)) {
            Some(i) => Some(o * 12 + i),
            None => None,
        }
    } else {
        None
    }
}

/// Executable sharp-spelled name at a scale position.
pub fn sharp_name_at(i: usize) -> (r: &'static str)
    requires
        i < 12,
    ensures
        r@ == sharp_name(i as int),
{
    match i {
        0 => "Cn",
        1 => "Cs",
        2 => "Dn",
        3 => "Ds",
        4 => "En",
        5 => "Fn",
        6 => "Fs",
        7 => "Gn",
        8 => "Gs",
        9 => "An",
        10 => "As",
        _ => "Bn",
    }
}

/// Executable flat-spelled name at a scale position.
pub fn flat_name_at(i: usize) -> (r: &'static str)
    requires
        i < 12,
    ensures
        r@ == flat_name(i as int),
{
    match i {
        0 => "Cn",
        1 => "Df",
        2 => "Dn",
        3 => "Ef",
        4 => "En",
        5 => "Fn",
        6 => "Gf",
        7 => "Gn",
        8 => "Af",
        9 => "An",
        10 => "Bf",
        _ => "Bn",
    }
}

/// Executable scale position of a sharp-spelled name.
pub fn sharp_index_of(name: &str) -> (r: Option<usize>)
    ensures
        match r {
            Some(i) => sharp_index(name@) == Some(i as int),
            None => sharp_index(name@) is None,
        },
{
    if name.unicode_len() != 2 {
        return None;
    }
    let a = name.get_char(0);
    let b = name.get_char(1);
    if a == 'C' && b == 'n' {
        Some(0)
    } else if a == 'C' && b == 's' {
        Some(1)
    } else if a == 'D' && b == 'n' {
        Some(2)
    } else if a == 'D' && b == 's' {
        Some(3)
    } else if a == 'E' && b == 'n' {
        Some(4)
    } else if a == 'F' && b == 'n' {
        Some(5)
    } else if a == 'F' && b == 's' {
        Some(6)
    } else if a == 'G' && b == 'n' {
        Some(7)
    } else if a == 'G' && b == 's' {
        Some(8)
    } else if a == 'A' && b == 'n' {
        Some(9)
    } else if a == 'A' && b == 's' {
        Some(10)
    } else if a == 'B' && b == 'n' {
        Some(11)
    } else {
        None
    }
}

/// Executable scale position of a flat-spelled name.
pub fn flat_index_of(name: &str) -> (r: Option<usize>)
    ensures
        match r {
            Some(i) => flat_index(name@) == Some(i as int),
            None => flat_index(name@) is None,
        },
{
    if name.unicode_len() != 2 {
        return None;
    }
    let a = name.get_char(0);
    let b = name.get_char(1);
    if a == 'C' && b == 'n' {
        Some(0)
    } else if a == 'D' && b == 'f' {
        Some(1)
    } else if a == 'D' && b == 'n' {
        Some(2)
    } else if a == 'E' && b == 'f' {
        Some(3)
    } else if a == 'E' && b == 'n' {
        Some(4)
    } else if a == 'F' && b == 'n' {
        Some(5)
    } else if a == 'G' && b == 'f' {
        Some(6)
    } else if a == 'G' && b == 'n' {
        Some(7)
    } else if a == 'A' && b == 'f' {
        Some(8)
    } else if a == 'A' && b == 'n' {
        Some(9)
    } else if a == 'B' && b == 'f' {
        Some(10)
    } else if a == 'B' && b == 'n' {
        Some(11)
    } else {
        None
    }
}

/// Executable semitone index of a full note identifier.
pub fn semitone_of(v: &str) -> (r: Option<u32>)
    ensures
        match r {
            Some(s) => semitone_spec(v@) == Some(s as int) && s < 96,
            None => semitone_spec(v@) is None,
        },
{
    let len = v.unicode_len();
    if len != 4 {
        return None;
    }
    if v.get_char(2) != '_' {
        return None;
    }
    let oc = v.get_char(3) as u32;
    if oc < 48 || oc > 48 + HIGHEST_OCTAVE as u32 {
        return None;
    }
    let o = oc - 48;
    let name = v.substring_char(0, 2);
    assert(name@ == v@.subrange(0, 2));
    let idx = match sharp_index_of(name) {
        Some(i) => Some(i),
        None => flat_index_of(name),
    };
    match idx {
        Some(i) => {
            assert(merged_index(v@.subrange(0, 2)) == Some(i as int));
            Some(o * 12 + i as u32)
        },
        None => None,
    }
}

/// Enharmonic agreement: each flat spelling stands at the same scale
/// position as its sharp partner, so the two spelling tables assign every
/// enharmonic pair the same semitone index, hence the same frequency, the
/// frequency being a fixed function of the semitone index.
pub proof fn lemma_enharmonic_agreement()
    ensures
        flat_index("Df"@) == sharp_index("Cs"@),
        flat_index("Ef"@) == sharp_index("Ds"@),
        flat_index("Gf"@) == sharp_index("Fs"@),
        flat_index("Af"@) == sharp_index("Gs"@),
        flat_index("Bf"@) == sharp_index("As"@),
        forall|o: int, i: int|
            #![auto]
            0 <= o <= 7 && 0 <= i < 12 ==> semitone_spec(
                flat_name(i) + seq!['_', crate::chars::spec_digit_char(o)],
            ) == semitone_spec(sharp_name(i) + seq!['_', crate::chars::spec_digit_char(o)]),
{
    reveal_strlit("Cn");
    reveal_strlit("Cs");
    reveal_strlit("Dn");
    reveal_strlit("Ds");
    reveal_strlit("En");
    reveal_strlit("Fn");
    reveal_strlit("Fs");
    reveal_strlit("Gn");
    reveal_strlit("Gs");
    reveal_strlit("An");
    reveal_strlit("As");
    reveal_strlit("Bn");
    reveal_strlit("Df");
    reveal_strlit("Ef");
    reveal_strlit("Gf");
    reveal_strlit("Af");
    reveal_strlit("Bf");
    assert(merged_index(flat_name(0)) == Some(0int));
    assert(merged_index(flat_name(1)) == Some(1int));
    assert(merged_index(flat_name(2)) == Some(2int));
    assert(merged_index(flat_name(3)) == Some(3int));
    assert(merged_index(flat_name(4)) == Some(4int));
    assert(merged_index(flat_name(5)) == Some(5int));
    assert(merged_index(flat_name(6)) == Some(6int));
    assert(merged_index(flat_name(7)) == Some(7int));
    assert(merged_index(flat_name(8)) == Some(8int));
    assert(merged_index(flat_name(9)) == Some(9int));
    assert(merged_index(flat_name(10)) == Some(10int));
    assert(merged_index(flat_name(11)) == Some(11int));
    assert(merged_index(sharp_name(0)) == Some(0int));
    assert(merged_index(sharp_name(1)) == Some(1int));
    assert(merged_index(sharp_name(2)) == Some(2int));
    assert(merged_index(sharp_name(3)) == Some(3int));
    assert(merged_index(sharp_name(4)) == Some(4int));
    assert(merged_index(sharp_name(5)) == Some(5int));
    assert(merged_index(sharp_name(6)) == Some(6int));
    assert(merged_index(sharp_name(7)) == Some(7int));
    assert(merged_index(sharp_name(8)) == Some(8int));
    assert(merged_index(sharp_name(9)) == Some(9int));
    assert(merged_index(sharp_name(10)) == Some(10int));
    assert(merged_index(sharp_name(11)) == Some(11int));
    assert forall|o: int, i: int|
        #![auto]
        0 <= o <= 7 && 0 <= i < 12 implies semitone_spec(
        flat_name(i) + seq!['_', crate::chars::spec_digit_char(o)],
    ) == semitone_spec(sharp_name(i) + seq!['_', crate::chars::spec_digit_char(o)]) by {
        let fv = flat_name(i) + seq!['_', crate::chars::spec_digit_char(o)];
        let sv = sharp_name(i) + seq!['_', crate::chars::spec_digit_char(o)];
        assert(fv.subrange(0, 2) =~= flat_name(i));
        assert(sv.subrange(0, 2) =~= sharp_name(i));
    }
}

} // verus!
