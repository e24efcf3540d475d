//! Character classes of the notation and verified scanning helpers.
//!
//! Every scanning routine has a specification-level mirror over `Seq<char>`;
//! the executable code is proved to return exactly what the mirror says.
use vstd::prelude::*;

verus! {

/// Whitespace of the notation: space, tab, carriage return, newline and the
/// dash, which scores use as a decorative filler.
pub open spec fn is_ws_char(c: char) -> bool {
    c == ' ' || c == '-' || c == '\t' || c == '\r' || c == '\n'
}

/// Whitespace of the notation except the newline.
pub open spec fn is_ws_not_nl_char(c: char) -> bool {
    c == ' ' || c == '-' || c == '\t' || c == '\r'
}

/// Blank characters removed by trimming: space, tab, carriage return, newline.
pub open spec fn is_blank_char(c: char) -> bool {
    c == ' ' || c == '\t' || c == '\r' || c == '\n'
}

/// A decimal digit.
pub open spec fn is_digit_char(c: char) -> bool {
    48 <= c as u32 <= 57
}

/// A character of a name: ASCII letter, digit or underscore.
pub open spec fn is_name_char(c: char) -> bool {
    (97 <= c as u32 <= 122) || (65 <= c as u32 <= 90) || is_digit_char(c) || c == '_'
}

/// A character of a fraction: digit or slash.
pub open spec fn is_frac_char(c: char) -> bool {
    is_digit_char(c) || c == '/'
}

/// A character that is not a newline.
pub open spec fn is_not_nl_char(c: char) -> bool {
    c != '\n'
}

/// A plus sign, the notation's duration dot.
pub open spec fn is_plus_char(c: char) -> bool {
    c == '+'
}

/// A star, the checkpoint character.
pub open spec fn is_star_char(c: char) -> bool {
    c == '*'
}

/// The whitespace class as a closure, for use with `scan_while`.
pub open spec fn ws_class() -> spec_fn(char) -> bool {
    |c: char| is_ws_char(c)
}

/// The non-newline whitespace class as a closure.
pub open spec fn ws_not_nl_class() -> spec_fn(char) -> bool {
    |c: char| is_ws_not_nl_char(c)
}

/// The digit class as a closure.
pub open spec fn digit_class() -> spec_fn(char) -> bool {
    |c: char| is_digit_char(c)
}

/// The name class as a closure.
pub open spec fn name_class() -> spec_fn(char) -> bool {
    |c: char| is_name_char(c)
}

/// The fraction class as a closure.
pub open spec fn frac_class() -> spec_fn(char) -> bool {
    |c: char| is_frac_char(c)
}

/// The everything-but-newline class as a closure.
pub open spec fn not_nl_class() -> spec_fn(char) -> bool {
    |c: char| is_not_nl_char(c)
}

/// The plus class as a closure.
pub open spec fn plus_class() -> spec_fn(char) -> bool {
    |c: char| is_plus_char(c)
}

/// The star class as a closure.
pub open spec fn star_class() -> spec_fn(char) -> bool {
    |c: char| is_star_char(c)
}

/// The blank class as a closure.
pub open spec fn blank_class() -> spec_fn(char) -> bool {
    |c: char| is_blank_char(c)
}

/// What `char::is_alphanumeric` returns: a fixed function of the character
/// alone, given by the Unicode tables.
pub uninterp spec fn char_alnum(c: char) -> bool;

/// Relies on `char::is_alphanumeric`: the result depends on the character
/// alone.
pub assume_specification[ char::is_alphanumeric ](c: char) -> (r: bool)
    ensures
        r == char_alnum(c),
;

/// A character of a word: alphanumeric or underscore.
pub open spec fn is_word_char(c: char) -> bool {
    char_alnum(c) || c == '_'
}

/// The word class as a closure.
pub open spec fn word_class() -> spec_fn(char) -> bool {
    |c: char| is_word_char(c)
}

/// Executable test for `is_word_char`.
pub fn word_char(c: char) -> (r: bool)
    ensures
        r == is_word_char(c),
{
    c.is_alphanumeric() || c == '_'
}

/// The everything-but-space class as a closure.
pub open spec fn not_space_class() -> spec_fn(char) -> bool {
    |c: char| c != ' '
}

/// The everything-but-underscore class as a closure.
pub open spec fn not_underscore_class() -> spec_fn(char) -> bool {
    |c: char| c != '_'
}

/// The everything-but-blank class as a closure.
pub open spec fn not_blank_class() -> spec_fn(char) -> bool {
    |c: char| !is_blank_char(c)
}

/// The everything-but-`c` class as a closure: scanning with it finds the
/// first occurrence of `c`.
pub open spec fn not_char_class(c: char) -> spec_fn(char) -> bool {
    |x: char| x != c
}

/// First index at or after `i` whose character fails `p`, or the end.
pub open spec fn scan_while(s: Seq<char>, i: int, p: spec_fn(char) -> bool) -> int
    decreases s.len() - i,
{
    if i < 0 || i >= s.len() {
        i
    } else if p(s[i]) {
        scan_while(s, i + 1, p)
    } else {
        i
    }
}

pub proof fn lemma_scan_while(s: Seq<char>, i: int, p: spec_fn(char) -> bool)
    requires
        0 <= i <= s.len(),
    ensures
        i <= scan_while(s, i, p) <= s.len(),
        forall|k: int| i <= k < scan_while(s, i, p) ==> p(s[k]),
        scan_while(s, i, p) < s.len() ==> !p(s[scan_while(s, i, p)]),
    decreases s.len() - i,
{
    if i < s.len() && p(s[i]) {
        lemma_scan_while(s, i + 1, p);
    }
}

/// Scanning inside the suffix of a concatenation sees only the suffix.
pub proof fn lemma_scan_while_shift(pre: Seq<char>, s: Seq<char>, i: int, p: spec_fn(char) -> bool)
    requires
        0 <= i <= s.len(),
    ensures
        scan_while(pre + s, pre.len() + i, p) == pre.len() + scan_while(s, i, p),
    decreases s.len() - i,
{
    if i < s.len() && p(s[i]) {
        lemma_scan_while_shift(pre, s, i + 1, p);
    }
}

/// A scan that stops before the end of `s` is unchanged when text follows.
pub proof fn lemma_scan_while_append(s: Seq<char>, t: Seq<char>, i: int, p: spec_fn(char) -> bool)
    requires
        0 <= i <= s.len(),
        scan_while(s, i, p) < s.len(),
    ensures
        scan_while(s + t, i, p) == scan_while(s, i, p),
    decreases s.len() - i,
{
    if i < s.len() && p(s[i]) {
        lemma_scan_while_append(s, t, i + 1, p);
    }
}

/// Executable test for `is_ws_char`.
pub fn ws_char(c: char) -> (r: bool)
    ensures
        r == is_ws_char(c),
{
    c == ' ' || c == '-' || c == '\t' || c == '\r' || c == '\n'
}

/// Executable test for `is_ws_not_nl_char`.
pub fn ws_not_nl_char(c: char) -> (r: bool)
    ensures
        r == is_ws_not_nl_char(c),
{
    c == ' ' || c == '-' || c == '\t' || c == '\r'
}

/// Executable test for `is_blank_char`.
pub fn blank_char(c: char) -> (r: bool)
    ensures
        r == is_blank_char(c),
{
    c == ' ' || c == '\t' || c == '\r' || c == '\n'
}

/// Executable test for `is_digit_char`.
pub fn digit_char(c: char) -> (r: bool)
    ensures
        r == is_digit_char(c),
{
    let u = c as u32;
    48 <= u && u <= 57
}

/// Executable test for `is_name_char`.
pub fn name_char(c: char) -> (r: bool)
    ensures
        r == is_name_char(c),
{
    let u = c as u32;
    (97 <= u && u <= 122) || (65 <= u && u <= 90) || (48 <= u && u <= 57) || c == '_'
}

/// Executable test for `is_frac_char`.
pub fn frac_char(c: char) -> (r: bool)
    ensures
        r == is_frac_char(c),
{
    digit_char(c) || c == '/'
}

/// Advance from `i` over characters of the whitespace class.
pub fn skip_ws(s: &str, i: usize) -> (r: usize)
    requires
        i <= s@.len(),
    ensures
        r == scan_while(s@, i as int, ws_class()),
        i <= r <= s@.len(),
{
    scan_str(s, i, 0)
}

/// Advance from `i` over whitespace that is not a newline.
pub fn skip_ws_not_nl(s: &str, i: usize) -> (r: usize)
    requires
        i <= s@.len(),
    ensures
        r == scan_while(s@, i as int, ws_not_nl_class()),
        i <= r <= s@.len(),
{
    scan_str(s, i, 1)
}

/// Advance from `i` over decimal digits.
pub fn skip_digits(s: &str, i: usize) -> (r: usize)
    requires
        i <= s@.len(),
    ensures
        r == scan_while(s@, i as int, digit_class()),
        i <= r <= s@.len(),
{
    scan_str(s, i, 2)
}

/// Advance from `i` over name characters.
pub fn skip_name(s: &str, i: usize) -> (r: usize)
    requires
        i <= s@.len(),
    ensures
        r == scan_while(s@, i as int, name_class()),
        i <= r <= s@.len(),
{
    scan_str(s, i, 3)
}

/// Advance from `i` over fraction characters.
pub fn skip_frac(s: &str, i: usize) -> (r: usize)
    requires
        i <= s@.len(),
    ensures
        r == scan_while(s@, i as int, frac_class()),
        i <= r <= s@.len(),
{
    scan_str(s, i, 4)
}

/// Advance from `i` over everything up to a newline or the end.
pub fn skip_to_eol(s: &str, i: usize) -> (r: usize)
    requires
        i <= s@.len(),
    ensures
        r == scan_while(s@, i as int, not_nl_class()),
        i <= r <= s@.len(),
{
    scan_str(s, i, 5)
}

/// Advance from `i` over plus signs.
pub fn skip_plus(s: &str, i: usize) -> (r: usize)
    requires
        i <= s@.len(),
    ensures
        r == scan_while(s@, i as int, plus_class()),
        i <= r <= s@.len(),
{
    scan_str(s, i, 6)
}

/// Advance from `i` over stars.
pub fn skip_stars(s: &str, i: usize) -> (r: usize)
    requires
        i <= s@.len(),
    ensures
        r == scan_while(s@, i as int, star_class()),
        i <= r <= s@.len(),
{
    scan_str(s, i, 7)
}

/// The character class selected by `which`, as a spec-level function.
pub open spec fn class_of(which: u8) -> spec_fn(char) -> bool {
    if which == 0 {
        ws_class()
    } else if which == 1 {
        ws_not_nl_class()
    } else if which == 2 {
        digit_class()
    } else if which == 3 {
        name_class()
    } else if which == 4 {
        frac_class()
    } else if which == 5 {
        not_nl_class()
    } else if which == 6 {
        plus_class()
    } else if which == 7 {
        star_class()
    } else if which == 8 {
        blank_class()
    } else if which == 9 {
        not_space_class()
    } else if which == 10 {
        not_underscore_class()
    } else if which == 11 {
        word_class()
    } else {
        not_blank_class()
    }
}

/// Shared scanning loop over the class selected by `which`.
fn scan_str(s: &str, i: usize, which: u8) -> (r: usize)
    requires
        i <= s@.len(),
    ensures
        r == scan_while(s@, i as int, class_of(which)),
        i <= r <= s@.len(),
{
    let ghost p = class_of(which);
    let n = s.unicode_len();
    let mut j = i;
    proof {
        lemma_scan_while(s@, i as int, p);
    }
    loop
        invariant
            i <= j <= n,
            n == s@.len(),
            p == class_of(which),
            scan_while(s@, i as int, p) == scan_while(s@, j as int, p),
        decreases n - j,
    {
        if j >= n {
            return j;
        }
        let c = s.get_char(j);
        let hit = if which == 0 {
            ws_char(c)
        } else if which == 1 {
            ws_not_nl_char(c)
        } else if which == 2 {
            digit_char(c)
        } else if which == 3 {
            name_char(c)
        } else if which == 4 {
            frac_char(c)
        } else if which == 5 {
            c != '\n'
        } else if which == 6 {
            c == '+'
        } else if which == 7 {
            c == '*'
        } else if which == 8 {
            blank_char(c)
        } else if which == 9 {
            c != ' '
        } else if which == 10 {
            c != '_'
        } else if which == 11 {
            word_char(c)
        } else {
            !blank_char(c)
        };
        assert(hit == p(s@[j as int]));
        if !hit {
            return j;
        }
        proof {
            assert(scan_while(s@, j as int, p) == scan_while(s@, j + 1, p));
        }
        j += 1;
    }
}

/// Advance from `i` over blank characters.
pub fn skip_blanks(s: &str, i: usize) -> (r: usize)
    requires
        i <= s@.len(),
    ensures
        r == scan_while(s@, i as int, blank_class()),
        i <= r <= s@.len(),
{
    scan_str(s, i, 8)
}

/// Advance from `i` over everything up to a space or the end.
pub fn skip_not_space(s: &str, i: usize) -> (r: usize)
    requires
        i <= s@.len(),
    ensures
        r == scan_while(s@, i as int, not_space_class()),
        i <= r <= s@.len(),
{
    scan_str(s, i, 9)
}

/// Advance from `i` over everything up to an underscore or the end.
pub fn skip_not_underscore(s: &str, i: usize) -> (r: usize)
    requires
        i <= s@.len(),
    ensures
        r == scan_while(s@, i as int, not_underscore_class()),
        i <= r <= s@.len(),
{
    scan_str(s, i, 10)
}

/// Advance from `i` over word characters.
pub fn skip_word(s: &str, i: usize) -> (r: usize)
    requires
        i <= s@.len(),
    ensures
        r == scan_while(s@, i as int, word_class()),
        i <= r <= s@.len(),
{
    scan_str(s, i, 11)
}

/// Advance from `i` over everything that is not blank.
pub fn skip_not_blank(s: &str, i: usize) -> (r: usize)
    requires
        i <= s@.len(),
    ensures
        r == scan_while(s@, i as int, not_blank_class()),
        i <= r <= s@.len(),
{
    scan_str(s, i, 12)
}

/// A scan passes through any stretch of `p`-characters.
pub proof fn lemma_scan_while_through(s: Seq<char>, i: int, j: int, p: spec_fn(char) -> bool)
    requires
        0 <= i <= j <= s.len(),
        forall|k: int| i <= k < j ==> p(s[k]),
    ensures
        scan_while(s, i, p) == scan_while(s, j, p),
    decreases j - i,
{
    if i < j {
        lemma_scan_while_through(s, i + 1, j, p);
    }
}

/// A position that is preceded by `p`-characters only and stops the scan is
/// the scan's result.
pub proof fn lemma_scan_while_unique(s: Seq<char>, i: int, m: int, p: spec_fn(char) -> bool)
    requires
        0 <= i <= m <= s.len(),
        forall|k: int| i <= k < m ==> p(s[k]),
        m < s.len() ==> !p(s[m]),
    ensures
        scan_while(s, i, p) == m,
    decreases m - i,
{
    if i < m {
        lemma_scan_while_unique(s, i + 1, m, p);
    }
}

/// First index at or before `e` such that every character before it down to
/// that index fails `p` when scanned backward; the start of the trailing
/// `p`-run ending at `e`.
pub open spec fn scan_back_while(s: Seq<char>, e: int, p: spec_fn(char) -> bool) -> int
    decreases e,
{
    if 0 < e <= s.len() && p(s[e - 1]) {
        scan_back_while(s, e - 1, p)
    } else {
        e
    }
}

pub proof fn lemma_scan_back_while(s: Seq<char>, e: int, p: spec_fn(char) -> bool)
    requires
        0 <= e <= s.len(),
    ensures
        0 <= scan_back_while(s, e, p) <= e,
        forall|k: int| scan_back_while(s, e, p) <= k < e ==> p(s[k]),
        scan_back_while(s, e, p) > 0 ==> !p(s[scan_back_while(s, e, p) - 1]),
    decreases e,
{
    if 0 < e && p(s[e - 1]) {
        lemma_scan_back_while(s, e - 1, p);
    }
}

pub proof fn lemma_scan_back_while_unique(s: Seq<char>, e: int, m: int, p: spec_fn(char) -> bool)
    requires
        0 <= m <= e <= s.len(),
        forall|k: int| m <= k < e ==> p(s[k]),
        m > 0 ==> !p(s[m - 1]),
    ensures
        scan_back_while(s, e, p) == m,
    decreases e - m,
{
    if m < e {
        lemma_scan_back_while_unique(s, e - 1, m, p);
    }
}

/// The text with leading and trailing blanks removed.
pub open spec fn trim_blanks(s: Seq<char>) -> Seq<char> {
    let lo = scan_while(s, 0, blank_class());
    let hi = scan_back_while(s, s.len() as int, blank_class());
    if lo <= hi {
        s.subrange(lo, hi)
    } else {
        Seq::empty()
    }
}

/// The copy of `s@[from..to]` with surrounding blanks removed.
pub fn trim_substring(s: &str, from: usize, to: usize) -> (r: String)
    requires
        from <= to <= s@.len(),
    ensures
        r@ == trim_blanks(s@.subrange(from as int, to as int)),
{
    let ghost sub = s@.subrange(from as int, to as int);
    let mut lo = from;
    while lo < to && blank_char(s.get_char(lo))
        invariant
            from <= lo <= to <= s@.len(),
            forall|k: int| from <= k < lo ==> is_blank_char(s@[k]),
        decreases to - lo,
    {
        lo += 1;
    }
    let mut hi = to;
    while hi > lo && blank_char(s.get_char(hi - 1))
        invariant
            lo <= hi <= to <= s@.len(),
            forall|k: int| hi <= k < to ==> is_blank_char(s@[k]),
        decreases hi,
    {
        hi -= 1;
    }
    proof {
        assert forall|k: int| 0 <= k < sub.len() implies sub[k] == s@[k + from] by {}
        if lo < to {
            // the leading scan stopped at a non-blank character
            lemma_scan_while_unique(sub, 0, lo - from, blank_class());
            if hi > lo {
                lemma_scan_back_while_unique(sub, sub.len() as int, hi - from, blank_class());
                assert(trim_blanks(sub) =~= s@.subrange(lo as int, hi as int));
            } else {
                // hi == lo: everything from lo on is blank, so lo is also where
                // the backward scan stops
                lemma_scan_back_while_unique(sub, sub.len() as int, lo - from, blank_class());
                assert(trim_blanks(sub) =~= s@.subrange(lo as int, hi as int));
            }
        } else {
            // the whole range is blank
            lemma_scan_while_unique(sub, 0, sub.len() as int, blank_class());
            lemma_scan_back_while_unique(sub, sub.len() as int, 0, blank_class());
            if sub.len() == 0 {
                assert(trim_blanks(sub) =~= s@.subrange(lo as int, hi as int));
            } else {
                assert(trim_blanks(sub) =~= Seq::<char>::empty());
                assert(s@.subrange(lo as int, hi as int) =~= Seq::<char>::empty());
            }
        }
    }
    String::from_str(s.substring_char(lo, hi))
}

/// Character-for-character comparison of two string slices.
pub fn str_eq(a: &str, b: &str) -> (r: bool)
    ensures
        r == (a@ == b@),
{
    let n = a.unicode_len();
    if n != b.unicode_len() {
        assert(a@.len() != b@.len());
        return false;
    }
    let mut i: usize = 0;
    while i < n
        invariant
            n == a@.len(),
            n == b@.len(),
            i <= n,
            forall|j: int| 0 <= j < i ==> a@[j] == b@[j],
        decreases n - i,
    {
        if a.get_char(i) != b.get_char(i) {
            return false;
        }
        i += 1;
    }
    assert(a@ =~= b@);
    true
}

/// Numeric value of a sequence of decimal digits.
pub open spec fn digits_val(s: Seq<char>) -> nat
    decreases s.len(),
{
    if s.len() == 0 {
        0
    } else {
        (digits_val(s.drop_last()) * 10 + (s.last() as u32 - 48)) as nat
    }
}

/// Extending a digit string never lowers its value.
pub proof fn lemma_digits_val_take_le(s: Seq<char>, k: int, m: int)
    requires
        0 <= k <= m <= s.len(),
        forall|j: int| 0 <= j < s.len() ==> is_digit_char(s[j]),
    ensures
        digits_val(s.subrange(0, k)) <= digits_val(s.subrange(0, m)),
    decreases m - k,
{
    if k < m {
        lemma_digits_val_take_le(s, k, m - 1);
        assert(s.subrange(0, m).drop_last() =~= s.subrange(0, m - 1));
        assert(digits_val(s.subrange(0, m)) == digits_val(s.subrange(0, m - 1)) * 10 + (s.subrange(
            0,
            m,
        ).last() as u32 - 48));
    } else {
        assert(s.subrange(0, k) =~= s.subrange(0, m));
    }
}

/// Parse the digits of `s` in `[from, to)` as a `u64`.
///
/// Returns `None` exactly when the value does not fit in a `u64`.
pub fn parse_u64_digits(s: &str, from: usize, to: usize) -> (r: Option<u64>)
    requires
        from <= to <= s@.len(),
        forall|j: int| from <= j < to ==> is_digit_char(s@[j]),
    ensures
        match r {
            Some(v) => v == digits_val(s@.subrange(from as int, to as int)),
            None => digits_val(s@.subrange(from as int, to as int)) > u64::MAX,
        },
{
    let ghost whole = s@.subrange(from as int, to as int);
    let mut acc: u64 = 0;
    let mut j = from;
    while j < to
        invariant
            from <= j <= to <= s@.len(),
            whole == s@.subrange(from as int, to as int),
            forall|k: int| from <= k < to ==> is_digit_char(s@[k]),
            acc == digits_val(s@.subrange(from as int, j as int)),
        decreases to - j,
    {
        let c = s.get_char(j);
        assert(is_digit_char(c));
        let d = (c as u32 - 48) as u64;
        let ghost prefix = s@.subrange(from as int, j as int);
        let ghost next = s@.subrange(from as int, j + 1 as int);
        proof {
            assert(next.drop_last() =~= prefix);
            assert(next.last() == s@[j as int]);
        }
        if acc > (u64::MAX - d) / 10 {
            proof {
                assert(digits_val(next) == acc * 10 + d > u64::MAX) by (nonlinear_arith)
                    requires
                        acc > (u64::MAX - d) / 10,
                        d <= 9,
                        digits_val(next) == digits_val(prefix) * 10 + d,
                        acc == digits_val(prefix),
                ;
                lemma_digits_val_take_le(whole, j + 1 - from, to - from);
                assert(whole.subrange(0, j + 1 - from) =~= next);
                assert(whole.subrange(0, to - from as int) =~= whole);
            }
            return None;
        }
        proof {
            assert(acc * 10 + d <= u64::MAX) by (nonlinear_arith)
                requires
                    acc <= (u64::MAX - d) / 10,
                    d <= 9,
            ;
        }
        acc = acc * 10 + d;
        j += 1;
    }
    assert(s@.subrange(from as int, j as int) =~= whole);
    Some(acc)
}

/// The decimal spelling of a natural number.
pub open spec fn u64_dec(n: nat) -> Seq<char>
    decreases n,
{
    if n < 10 {
        seq![spec_digit_char(n as int)]
    } else {
        u64_dec(n / 10).push(spec_digit_char((n % 10) as int))
    }
}

/// The digit character with value `n`.
pub open spec fn spec_digit_char(n: int) -> char {
    if n == 0 {
        '0'
    } else if n == 1 {
        '1'
    } else if n == 2 {
        '2'
    } else if n == 3 {
        '3'
    } else if n == 4 {
        '4'
    } else if n == 5 {
        '5'
    } else if n == 6 {
        '6'
    } else if n == 7 {
        '7'
    } else if n == 8 {
        '8'
    } else {
        '9'
    }
}

/// Small values spell with few digits.
pub proof fn lemma_u64_dec_len3(n: nat)
    requires
        n < 1000,
    ensures
        u64_dec(n).len() <= 3,
        n < 100 ==> u64_dec(n).len() <= 2,
        n < 10 ==> u64_dec(n).len() == 1,
    decreases n,
{
    if n >= 10 {
        lemma_u64_dec_len3(n / 10);
    }
}

/// The decimal spelling of a signed number: a minus sign before the digits.
pub open spec fn i64_dec(n: int) -> Seq<char> {
    if n < 0 {
        seq!['-'] + u64_dec((-n) as nat)
    } else {
        u64_dec(n as nat)
    }
}

fn digit_char_of(d: u64) -> (c: char)
    requires
        d < 10,
    ensures
        c == spec_digit_char(d as int),
{
    if d == 0 {
        '0'
    } else if d == 1 {
        '1'
    } else if d == 2 {
        '2'
    } else if d == 3 {
        '3'
    } else if d == 4 {
        '4'
    } else if d == 5 {
        '5'
    } else if d == 6 {
        '6'
    } else if d == 7 {
        '7'
    } else if d == 8 {
        '8'
    } else {
        '9'
    }
}

/// Append the decimal spelling of `n` to `out`.
pub fn push_u64_dec(n: u64, out: &mut Vec<char>)
    ensures
        final(out)@ == old(out)@ + u64_dec(n as nat),
    decreases n,
{
    if n < 10 {
        out.push(digit_char_of(n));
    } else {
        push_u64_dec(n / 10, out);
        out.push(digit_char_of(n % 10));
    }
}

/// Append the decimal spelling of a signed number to `out`.
pub fn push_i64_dec(n: i64, out: &mut Vec<char>)
    ensures
        final(out)@ == old(out)@ + i64_dec(n as int),
{
    if n < 0 {
        out.push('-');
        let m: u64 = if n == i64::MIN {
            9223372036854775808u64
        } else {
            (-n) as u64
        };
        push_u64_dec(m, out);
        assert(out@ == old(out)@ + i64_dec(n as int)) by {
            assert(old(out)@.push('-') + u64_dec(m as nat) =~= old(out)@ + (seq!['-'] + u64_dec(
                m as nat,
            )));
        }
    } else {
        push_u64_dec(n as u64, out);
    }
}

} // verus!
