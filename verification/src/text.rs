//! The text buffer: a rope of characters with line-indexed access.
//!
//! The buffer is ropey's `Rope`, kept behind trusted wrappers; its contents
//! are modelled as a `Seq<char>`, and line arithmetic is specified over
//! that sequence.  The crate is built without ropey's extended line-break
//! support, so a line break is exactly the newline character, matching the
//! notation, which treats the carriage return as plain whitespace.
use crate::chars::not_nl_class;
use crate::chars::scan_while;
use ropey::Rope;
use vstd::prelude::*;

verus! {

#[verifier::external_type_specification]
#[verifier::external_body]
pub struct ExRope(Rope);

/// The characters a rope holds, in order.
pub uninterp spec fn rope_text(r: Rope) -> Seq<char>;

/// The number of newline characters in `s[0..i]`.
pub open spec fn count_nl(s: Seq<char>, i: int) -> int
    decreases i,
{
    if i <= 0 || i > s.len() {
        0
    } else {
        count_nl(s, i - 1) + if s[i - 1] == '\n' {
            1int
        } else {
            0int
        }
    }
}

/// The number of lines of a text: newline count plus one.
pub open spec fn line_count(s: Seq<char>) -> int {
    count_nl(s, s.len() as int) + 1
}

/// The line holding character index `i`: a line break belongs to the line
/// it ends, and the one-past-the-end index belongs to the last line.
pub open spec fn line_of(s: Seq<char>, i: int) -> int {
    count_nl(s, i)
}

/// The character index at which line `l` starts; one past the end for the
/// index just after the last line.
pub open spec fn line_start(s: Seq<char>, l: int) -> int
    decreases l,
{
    if l <= 0 {
        0
    } else {
        let p = line_start(s, l - 1);
        let e = scan_while(s, p, not_nl_class());
        if e < s.len() {
            e + 1
        } else {
            e
        }
    }
}

/// The content of line `l`, terminating newline included.
pub open spec fn line_at(s: Seq<char>, l: int) -> Seq<char> {
    s.subrange(line_start(s, l), line_start(s, l + 1))
}

/// Newline counting is monotone and bounded by the span.
pub proof fn lemma_count_nl_le(s: Seq<char>, i: int, j: int)
    requires
        0 <= i <= j <= s.len(),
    ensures
        count_nl(s, i) <= count_nl(s, j) <= count_nl(s, i) + (j - i),
        0 <= count_nl(s, i) <= i,
    decreases j - i,
{
    if i < j {
        lemma_count_nl_le(s, i, j - 1);
    } else {
        lemma_count_nl_zero_le(s, i);
    }
}

proof fn lemma_count_nl_zero_le(s: Seq<char>, i: int)
    requires
        0 <= i <= s.len(),
    ensures
        0 <= count_nl(s, i) <= i,
    decreases i,
{
    if i > 0 {
        lemma_count_nl_zero_le(s, i - 1);
    }
}

/// Line starts are in range, and the next line starts after a newline run.
pub proof fn lemma_line_start_bounds(s: Seq<char>, l: int)
    requires
        l >= 0,
    ensures
        0 <= line_start(s, l) <= s.len(),
        line_start(s, l) <= line_start(s, l + 1),
    decreases l,
{
    if l > 0 {
        lemma_line_start_bounds(s, l - 1);
        crate::chars::lemma_scan_while(s, line_start(s, l - 1), not_nl_class());
    }
    crate::chars::lemma_scan_while(s, line_start(s, l), not_nl_class());
}

/// The line of a line's start is that line, as long as the line exists;
/// and every line start after the first stands right after a newline.
pub proof fn lemma_line_start_of(s: Seq<char>, l: int)
    requires
        0 <= l < line_count(s),
    ensures
        line_start(s, l) <= s.len(),
        line_of(s, line_start(s, l)) == l,
        l > 0 ==> line_start(s, l) > 0 && s[line_start(s, l) - 1] == '\n',
    decreases l,
{
    if l == 0 {
        lemma_line_start_bounds(s, 0);
    } else {
        lemma_line_start_of(s, l - 1);
        let p = line_start(s, l - 1);
        let e = scan_while(s, p, not_nl_class());
        crate::chars::lemma_scan_while(s, p, not_nl_class());
        lemma_count_nl_stretch(s, p, e);
        if e < s.len() {
            assert(s[e] == '\n');
            assert(count_nl(s, e + 1) == count_nl(s, e) + 1);
        } else {
            // the text ends without a newline on line l - 1, so l - 1 is the
            // last line; but l < line_count means more newlines follow, a
            // contradiction
            lemma_count_nl_le(s, e, s.len() as int);
            assert(count_nl(s, s.len() as int) == count_nl(s, e) == l - 1);
            assert(line_count(s) == l);
        }
    }
}

/// Between two indices with the same newline count there is no newline.
pub proof fn lemma_count_nl_flat(s: Seq<char>, i: int, j: int)
    requires
        0 <= i <= j <= s.len(),
        count_nl(s, i) == count_nl(s, j),
    ensures
        forall|k: int| i <= k < j ==> s[k] != '\n',
{
    assert forall|k: int| i <= k < j implies s[k] != '\n' by {
        lemma_count_nl_le(s, i, k);
        lemma_count_nl_le(s, k + 1, j);
        if s[k] == '\n' {
            assert(count_nl(s, k + 1) == count_nl(s, k) + 1);
        }
    }
}

/// Counting newlines does not change across a newline-free stretch.
pub proof fn lemma_count_nl_stretch(s: Seq<char>, i: int, j: int)
    requires
        0 <= i <= j <= s.len(),
        forall|k: int| i <= k < j ==> s[k] != '\n',
    ensures
        count_nl(s, j) == count_nl(s, i),
    decreases j - i,
{
    if i < j {
        lemma_count_nl_stretch(s, i, j - 1);
    }
}

/// A cursor sits at or after the start of its line, and before the start of
/// the next one (or at the very end of the text).
pub proof fn lemma_cursor_in_line(s: Seq<char>, i: int)
    requires
        0 <= i <= s.len(),
    ensures
        0 <= line_of(s, i) < line_count(s),
        line_start(s, line_of(s, i)) <= i,
        i < line_start(s, line_of(s, i) + 1) || i == s.len(),
        line_start(s, line_of(s, i) + 1) <= s.len(),
{
    lemma_count_nl_le(s, i, s.len() as int);
    lemma_count_nl_le(s, 0, i);
    let l = line_of(s, i);
    lemma_line_start_of(s, l);
    let p = line_start(s, l);
    lemma_line_start_bounds(s, l + 1);
    lemma_line_start_bounds(s, l);
    // the start of line l cannot lie beyond i
    if p > i {
        lemma_count_nl_le(s, i, p - 1);
        lemma_count_nl_le(s, p - 1, p);
        assert(s[p - 1] == '\n');
        assert(count_nl(s, p) == count_nl(s, p - 1) + 1);
        assert(false);
    }
    // no newline stands between the start of line l and i
    lemma_count_nl_flat(s, p, i);
    if i < s.len() {
        let e = scan_while(s, p, not_nl_class());
        crate::chars::lemma_scan_while(s, p, not_nl_class());
        if e < i {
            assert(s[e] == '\n');
            assert(false);
        }
    }
}

} // verus!

verus! {

/// Relies on `Rope::new`: a fresh rope is empty.
#[verifier::external_body]
pub fn rope_new() -> (r: Rope)
    ensures
        rope_text(r) == Seq::<char>::empty(),
{
    Rope::new()
}

/// Relies on `Rope::from_str`: the rope holds exactly the given text.
#[verifier::external_body]
pub fn rope_from_str(s: &str) -> (r: Rope)
    ensures
        rope_text(r) == s@,
{
    Rope::from_str(s)
}

/// Relies on `Rope`'s `Display` impl: writing the rope out yields its text.
#[verifier::external_body]
pub fn rope_to_string(r: &Rope) -> (ret: String)
    ensures
        ret@ == rope_text(*r),
{
    r.to_string()
}

/// Relies on `Rope::len_chars`: the total number of characters.
#[verifier::external_body]
pub fn rope_len_chars(r: &Rope) -> (n: usize)
    ensures
        n == rope_text(*r).len(),
{
    r.len_chars()
}

/// Relies on `Rope::char`: the character at a char index.
#[verifier::external_body]
pub fn rope_char(r: &Rope, i: usize) -> (c: char)
    requires
        i < rope_text(*r).len(),
    ensures
        c == rope_text(*r)[i as int],
{
    r.char(i)
}

/// Relies on `Rope::insert_char`: inserts one character at a char index.
#[verifier::external_body]
pub fn rope_insert_char(r: &mut Rope, i: usize, c: char)
    requires
        i <= rope_text(*old(r)).len(),
    ensures
        rope_text(*final(r)) == rope_text(*old(r)).insert(i as int, c),
{
    r.insert_char(i, c)
}

/// Relies on `Rope::insert`: inserts text at a char index.
#[verifier::external_body]
pub fn rope_insert(r: &mut Rope, i: usize, text: &str)
    requires
        i <= rope_text(*old(r)).len(),
    ensures
        rope_text(*final(r)) == rope_text(*old(r)).take(i as int) + text@ + rope_text(
            *old(r),
        ).skip(i as int),
{
    r.insert(i, text)
}

/// Relies on `Rope::remove`: removes the char range `start..end`.
#[verifier::external_body]
pub fn rope_remove(r: &mut Rope, start: usize, end: usize)
    requires
        start <= end <= rope_text(*old(r)).len(),
    ensures
        rope_text(*final(r)) == rope_text(*old(r)).take(start as int) + rope_text(*old(r)).skip(
            end as int,
        ),
{
    r.remove(start..end)
}

/// Relies on `Rope::len_lines`: the line-break count plus one.
#[verifier::external_body]
pub fn rope_len_lines(r: &Rope) -> (n: usize)
    ensures
        n == line_count(rope_text(*r)),
{
    r.len_lines()
}

/// Relies on `Rope::char_to_line`: the line of a char index, counting the
/// line breaks before it; the one-past-the-end index maps to the last line.
#[verifier::external_body]
pub fn rope_char_to_line(r: &Rope, i: usize) -> (l: usize)
    requires
        i <= rope_text(*r).len(),
    ensures
        l == line_of(rope_text(*r), i as int),
{
    r.char_to_line(i)
}

/// Relies on `Rope::line_to_char`: the char index at which a line starts;
/// the one-past-the-end line maps to the one-past-the-end char index.
#[verifier::external_body]
pub fn rope_line_to_char(r: &Rope, l: usize) -> (i: usize)
    requires
        l < line_count(rope_text(*r)) + 1,
    ensures
        i == line_start(rope_text(*r), l as int),
{
    r.line_to_char(l)
}

/// Relies on `Rope::line` and `RopeSlice`'s `Display` impl: the content of
/// a line, terminating line break included.
#[verifier::external_body]
pub fn rope_line_string(r: &Rope, l: usize) -> (ret: String)
    requires
        l < line_count(rope_text(*r)),
    ensures
        ret@ == line_at(rope_text(*r), l as int),
{
    r.line(l).to_string()
}

/// Relies on `Rope::slice` and `RopeSlice`'s `Display` impl: the text of a
/// char range.
#[verifier::external_body]
pub fn rope_slice_string(r: &Rope, start: usize, end: usize) -> (ret: String)
    requires
        start <= end <= rope_text(*r).len(),
    ensures
        ret@ == rope_text(*r).subrange(start as int, end as int),
{
    r.slice(start..end).to_string()
}

/// Relies on `Rope`'s `Clone` impl: a clone holds the same text (cheaply,
/// through structural sharing).
#[verifier::external_body]
pub fn rope_clone(r: &Rope) -> (ret: Rope)
    ensures
        rope_text(ret) == rope_text(*r),
{
    r.clone()
}

} // verus!
