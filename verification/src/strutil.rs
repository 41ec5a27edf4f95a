use vstd::prelude::*;
use vstd::string::StringSliceAdditionalSpecFns;
use vstd::string::StrSliceExecFns;
use vstd::utf8::{decode_utf8, encode_utf8, encode_utf8_decode_utf8};

verus! {

/// Character-for-character equality of two string slices.
///
/// The comparison runs over the UTF-8 bytes; equal byte sequences decode to
/// equal character sequences, and equal character sequences encode to equal
/// bytes, so the result coincides with equality of the views.
pub fn str_eq(a: &str, b: &str) -> (r: bool)
    ensures
        r == (a@ == b@),
{
    broadcast use encode_utf8_decode_utf8;

    let ab = a.as_bytes();
    let bb = b.as_bytes();
    if ab.len() != bb.len() {
        return false;
    }
    let n = ab.len();
    let mut i: usize = 0;
    while i < n
        invariant
            i <= n,
            n == ab@.len() == bb@.len(),
            ab@ == a.spec_bytes(),
            bb@ == b.spec_bytes(),
            forall|j: int| 0 <= j < i ==> ab@[j] == bb@[j],
        decreases n - i,
    {
        if ab[i] != bb[i] {
            return false;
        }
        i += 1;
    }
    proof {
        assert(ab@ =~= bb@);
        assert(decode_utf8(encode_utf8(a@)) == a@);
        assert(decode_utf8(encode_utf8(b@)) == b@);
    }
    true
}

/// Equality of two owned strings, by view.
pub fn string_eq(a: &String, b: &String) -> (r: bool)
    ensures
        r == (a@ == b@),
{
    str_eq(a.as_str(), b.as_str())
}

/// The character for a decimal digit.
pub open spec fn digit_char(d: u8) -> char
    recommends
        d < 10,
{
    (d + 48) as char
}

/// The decimal rendering of a number, most significant digit first.
pub open spec fn dec_of(n: nat) -> Seq<char>
    decreases n,
{
    if n < 10 {
        seq![digit_char(n as u8)]
    } else {
        dec_of(n / 10).push(digit_char((n % 10) as u8))
    }
}

/// Append the decimal rendering of `v` to `s`.
pub fn push_decimal(s: &mut String, v: u64)
    ensures
        final(s)@ == old(s)@ + dec_of(v as nat),
    decreases v,
{
    if v < 10 {
        push_digit(s, v as u8);
    } else {
        push_decimal(s, v / 10);
        push_digit(s, (v % 10) as u8);
        proof {
            assert(old(s)@ + dec_of((v / 10) as nat) + seq![digit_char((v % 10) as u8)] =~= old(
                s,
            )@ + dec_of(v as nat));
        }
    }
}

/// Append a single decimal digit character to `s`.
///
/// Relies on `String::push`: the character is appended at the end.
#[verifier::external_body]
fn push_char(s: &mut String, c: char)
    ensures
        final(s)@ == old(s)@.push(c),
{
    s.push(c);
}

fn push_digit(s: &mut String, d: u8)
    requires
        d < 10,
    ensures
        final(s)@ == old(s)@ + seq![digit_char(d)],
{
    let c = (d + 48) as char;
    push_char(s, c);
    proof {
        assert(old(s)@.push(c) =~= old(s)@ + seq![digit_char(d)]);
    }
}

} // verus!
