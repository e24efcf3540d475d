//! Construction of `String` values from computed characters.
use vstd::prelude::*;

verus! {

/// Relies on `String`'s `FromIterator<char>` impl: collecting a vector of
/// characters yields the string of exactly those characters, in order.
#[verifier::external_body]
pub fn chars_to_string(v: Vec<char>) -> (r: String)
    ensures
        r@ == v@,
{
    String::from_iter(v)
}

/// Append the characters of `s` to `out`.
pub fn push_str_chars(out: &mut Vec<char>, s: &str)
    ensures
        final(out)@ == old(out)@ + s@,
{
    let n = s.unicode_len();
    let mut i: usize = 0;
    proof {
        assert(out@ =~= old(out)@ + s@.subrange(0, 0));
    }
    while i < n
        invariant
            i <= n,
            n == s@.len(),
            out@ == old(out)@ + s@.subrange(0, i as int),
        decreases n - i,
    {
        let ghost prev = out@;
        out.push(s.get_char(i));
        proof {
            assert(prev + seq![s@[i as int]] =~= old(out)@ + s@.subrange(0, i + 1));
            assert(prev.push(s@[i as int]) =~= prev + seq![s@[i as int]]);
        }
        i += 1;
    }
    proof {
        assert(s@.subrange(0, n as int) =~= s@);
    }
}

} // verus!
