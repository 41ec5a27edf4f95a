use vstd::prelude::*;

verus! {

/// The SHA-256 digest of a byte sequence, left abstract: the library relies on
/// `sha2` to compute it and states only that it is a function of the input.
pub uninterp spec fn sha256_of(bytes: Seq<u8>) -> Seq<u8>;

/// The lowercase hexadecimal digit for a value below sixteen.
pub open spec fn hex_digit(n: u8) -> char
    recommends
        n < 16,
{
    if n < 10 {
        (n + 48) as char
    } else {
        (n + 87) as char
    }
}

/// Lowercase hexadecimal rendering of a byte sequence, two digits per byte,
/// high nibble first.
pub open spec fn hex_of(bytes: Seq<u8>) -> Seq<char> {
    Seq::new(
        bytes.len() * 2,
        |i: int| if i % 2 == 0 {
            hex_digit(bytes[i / 2] / 16)
        } else {
            hex_digit(bytes[i / 2] % 16)
        },
    )
}

pub open spec fn is_hex_char(c: char) -> bool {
    (48 <= c as u32 && c as u32 <= 57) || (97 <= c as u32 && c as u32 <= 102)
}

pub open spec fn is_hex_string(s: Seq<char>) -> bool {
    forall|i: int| 0 <= i < s.len() ==> is_hex_char(#[trigger] s[i])
}

/// The hex-encoded SHA-256 digest: the shape every hash in the ledger takes.
pub open spec fn digest_hex(bytes: Seq<u8>) -> Seq<char> {
    hex_of(sha256_of(bytes))
}

pub proof fn lemma_hex_of_is_hex(bytes: Seq<u8>)
    ensures
        hex_of(bytes).len() == bytes.len() * 2,
        is_hex_string(hex_of(bytes)),
{
    assert forall|i: int| 0 <= i < hex_of(bytes).len() implies is_hex_char(
        #[trigger] hex_of(bytes)[i],
    ) by {
        let b = bytes[i / 2];
        assert(b / 16 < 16 && b % 16 < 16);
    }
}

/// Relies on `sha2::Sha256`: the digest is 32 bytes and depends on the input
/// bytes alone.
#[verifier::external_body]
fn sha256(data: &Vec<u8>) -> (r: Vec<u8>)
    ensures
        r@ == sha256_of(data@),
        r@.len() == 32,
{
    let digest = <sha2::Sha256 as sha2::Digest>::digest(data.as_slice());
    digest.to_vec()
}

/// Relies on `hex::encode`: every byte becomes two lowercase hexadecimal
/// digits, high nibble first.
#[verifier::external_body]
pub(crate) fn hex_encode(bytes: &[u8]) -> (r: String)
    ensures
        r@ == hex_of(bytes@),
{
    hex::encode(bytes)
}

/// Hex-encoded SHA-256 digest of the given bytes.
pub(crate) fn sha256_hex(data: &Vec<u8>) -> (r: String)
    ensures
        r@ == digest_hex(data@),
        r@.len() == 64,
        is_hex_string(r@),
{
    let digest = sha256(data);
    let r = hex_encode(digest.as_slice());
    proof {
        lemma_hex_of_is_hex(digest@);
    }
    r
}

/// True when the first `count` characters of `s` are the digit zero.
pub open spec fn leading_zeros(s: Seq<char>, count: nat) -> bool {
    s.len() >= count && forall|i: int| 0 <= i < count ==> s[i] == '0'
}

/// Whether the first `count` characters of `s` are all `'0'`: the
/// proof-of-work test.
pub fn has_leading_zeros(s: &str, count: usize) -> (r: bool)
    ensures
        r == leading_zeros(s@, count as nat),
{
    let n = s.unicode_len();
    if n < count {
        return false;
    }
    let mut i: usize = 0;
    while i < count
        invariant
            i <= count,
            count <= n == s@.len(),
            forall|j: int| 0 <= j < i ==> s@[j] == '0',
        decreases count - i,
    {
        if s.get_char(i) != '0' {
            return false;
        }
        i += 1;
    }
    true
}

} // verus!
