use vstd::prelude::*;
use vstd::bytes::{
    lemma_auto_spec_u64_to_from_le_bytes, spec_u64_from_le_bytes, spec_u64_to_le_bytes,
    u64_from_le_bytes,
};
use vstd::slice::slice_subrange;
use vstd::string::StringSliceAdditionalSpecFns;
use vstd::utf8::{
    decode_utf8, encode_utf8, encode_utf8_decode_utf8, encode_utf8_valid_utf8, valid_utf8,
};

use crate::blockchain::{push_string_block, string_block};
use crate::crypto::HitProof;

verus! {

/// The wire form of a claim: a tag byte (1 for a revealed cell, 0 for none),
/// the revealed coordinates when the tag is 1, then the commitment and the
/// salt, each as UTF-8 bytes preceded by their count.
pub open spec fn proof_bytes(p: HitProof) -> Seq<u8> {
    (match p.revealed_position {
        Some(pos) => seq![1u8, pos.0, pos.1],
        None => seq![0u8],
    }) + string_block(p.commitment@) + string_block(p.position_salt@)
}

/// The fields a decoded claim carries: the revealed cell, the commitment's
/// characters, the salt's characters.
pub type ProofFields = (Option<(u8, u8)>, Seq<char>, Seq<char>);

/// Parse one count-prefixed string; the result is the string's characters and
/// the remaining bytes.
pub open spec fn parse_string(bytes: Seq<u8>) -> Option<(Seq<char>, Seq<u8>)> {
    if bytes.len() < 8 {
        None
    } else {
        let n = spec_u64_from_le_bytes(bytes.take(8)) as int;
        if bytes.len() - 8 < n {
            None
        } else {
            let payload = bytes.subrange(8, 8 + n);
            if valid_utf8(payload) {
                Some((decode_utf8(payload), bytes.skip(8 + n)))
            } else {
                None
            }
        }
    }
}

/// Parse the two strings of a claim and demand that nothing follows.
pub open spec fn parse_tail(bytes: Seq<u8>, revealed: Option<(u8, u8)>) -> Option<ProofFields> {
    match parse_string(bytes) {
        None => None,
        Some((commitment, rest)) => match parse_string(rest) {
            None => None,
            Some((salt, rest2)) => if rest2.len() == 0 {
                Some((revealed, commitment, salt))
            } else {
                None
            },
        },
    }
}

/// The claims the decoder accepts, and what it reads from them. Exactly the
/// byte sequences of this shape decode; anything else is rejected.
pub open spec fn parse_proof(bytes: Seq<u8>) -> Option<ProofFields> {
    if bytes.len() >= 1 && bytes[0] == 0 {
        parse_tail(bytes.skip(1), None)
    } else if bytes.len() >= 3 && bytes[0] == 1 {
        parse_tail(bytes.skip(3), Some((bytes[1], bytes[2])))
    } else {
        None
    }
}

/// What a decoded claim says of the proof it came from.
pub open spec fn fields_of(p: HitProof) -> ProofFields {
    (p.revealed_position, p.commitment@, p.position_salt@)
}

/// Read one count-prefixed string off the front of `bytes`, starting at
/// `from`; returns the string and the index just past it.
fn read_string_block(bytes: &[u8], from: usize) -> (r: Option<(String, usize)>)
    requires
        from <= bytes@.len(),
    ensures
        match r {
            Some((s, next)) => {
                &&& parse_string(bytes@.skip(from as int)) matches Some(f)
                &&& f.0 == s@
                &&& from < next <= bytes@.len()
                &&& f.1 == bytes@.skip(next as int)
            },
            None => parse_string(bytes@.skip(from as int)) is None,
        },
{
    let total = bytes.len();
    let ghost tail = bytes@.skip(from as int);
    if total - from < 8 {
        return None;
    }
    let len_slice = slice_subrange(bytes, from, from + 8);
    let n64 = u64_from_le_bytes(len_slice);
    proof {
        assert(len_slice@ =~= tail.take(8));
    }
    if n64 > (total - from - 8) as u64 {
        proof {
            assert(tail.len() - 8 < n64);
        }
        return None;
    }
    let n = n64 as usize;
    let payload = slice_subrange(bytes, from + 8, from + 8 + n);
    proof {
        assert(payload@ =~= tail.subrange(8, 8 + n64 as int));
    }
    match string_from_utf8(payload) {
        Some(s) => {
            proof {
                assert(tail.skip(8 + n64 as int) =~= bytes@.skip(from as int + 8 + n64 as int));
            }
            Some((s, from + 8 + n))
        },
        None => None,
    }
}

/// Relies on `str::from_utf8`: it accepts exactly the byte sequences that are
/// valid UTF-8, and returns the characters they encode.
#[verifier::external_body]
fn string_from_utf8(bytes: &[u8]) -> (r: Option<String>)
    ensures
        match r {
            Some(s) => valid_utf8(bytes@) && s@ == decode_utf8(bytes@),
            None => !valid_utf8(bytes@),
        },
{
    match core::str::from_utf8(bytes) {
        Ok(s) => Some(s.to_string()),
        Err(_) => None,
    }
}

impl HitProof {
    /// The claim in its wire form.
    pub fn serialize(&self) -> (r: Vec<u8>)
        ensures
            r@ == proof_bytes(*self),
    {
        let mut buf: Vec<u8> = Vec::new();
        match self.revealed_position {
            Some(pos) => {
                buf.push(1);
                buf.push(pos.0);
                buf.push(pos.1);
                proof {
                    assert(buf@ =~= seq![1u8, pos.0, pos.1]);
                }
            },
            None => {
                buf.push(0);
                proof {
                    assert(buf@ =~= seq![0u8]);
                }
            },
        }
        push_string_block(&mut buf, self.commitment.as_str());
        push_string_block(&mut buf, self.position_salt.as_str());
        buf
    }

    /// Decode a claim from its wire form. Exactly the sequences that
    /// `parse_proof` accepts decode, to a proof carrying the parsed fields.
    pub fn deserialize(bytes: &[u8]) -> (r: Option<HitProof>)
        ensures
            match r {
                Some(p) => parse_proof(bytes@) == Some(fields_of(p)),
                None => parse_proof(bytes@) is None,
            },
    {
        let total = bytes.len();
        if total == 0 {
            return None;
        }
        let tag = bytes[0];
        let (revealed, start): (Option<(u8, u8)>, usize) = if tag == 0 {
            (None, 1)
        } else if tag == 1 {
            if total < 3 {
                return None;
            }
            (Some((bytes[1], bytes[2])), 3)
        } else {
            return None;
        };
        let (commitment, after_commitment) = match read_string_block(bytes, start) {
            Some(v) => v,
            None => {
                return None;
            },
        };
        let (salt, after_salt) = match read_string_block(bytes, after_commitment) {
            Some(v) => v,
            None => {
                return None;
            },
        };
        if after_salt != total {
            proof {
                assert(bytes@.skip(after_salt as int).len() != 0);
            }
            return None;
        }
        proof {
            assert(bytes@.skip(after_salt as int).len() == 0);
        }
        Some(HitProof { commitment, revealed_position: revealed, position_salt: salt })
    }
}

/// Decoding a serialized claim gives back its fields: the wire form loses
/// nothing. The length bounds only rule out strings too long to exist in
/// memory.
pub proof fn lemma_proof_round_trip(p: HitProof)
    requires
        encode_utf8(p.commitment@).len() <= u64::MAX,
        encode_utf8(p.position_salt@).len() <= u64::MAX,
    ensures
        parse_proof(proof_bytes(p)) == Some(fields_of(p)),
{
    broadcast use encode_utf8_decode_utf8;
    broadcast use encode_utf8_valid_utf8;

    lemma_auto_spec_u64_to_from_le_bytes();
    let head: Seq<u8> = match p.revealed_position {
        Some(pos) => seq![1u8, pos.0, pos.1],
        None => seq![0u8],
    };
    let bytes = proof_bytes(p);
    let tail = string_block(p.commitment@) + string_block(p.position_salt@);
    assert(bytes.skip(head.len() as int) =~= tail);
    lemma_parse_string_block(p.commitment@, string_block(p.position_salt@));
    let rest = tail.skip(8 + encode_utf8(p.commitment@).len() as int);
    assert(rest =~= string_block(p.position_salt@));
    lemma_parse_string_block(p.position_salt@, Seq::<u8>::empty());
    assert(string_block(p.position_salt@) + Seq::<u8>::empty() =~= string_block(
        p.position_salt@,
    ));
    assert(string_block(p.position_salt@).skip(
        8 + encode_utf8(p.position_salt@).len() as int,
    ) =~= Seq::<u8>::empty());
    match p.revealed_position {
        Some(pos) => {
            assert(bytes[0] == 1 && bytes[1] == pos.0 && bytes[2] == pos.1);
        },
        None => {
            assert(bytes[0] == 0);
        },
    }
}

/// Parsing a count-prefixed string followed by anything recovers the string
/// and leaves the rest.
proof fn lemma_parse_string_block(s: Seq<char>, rest: Seq<u8>)
    requires
        encode_utf8(s).len() <= u64::MAX,
    ensures
        parse_string(string_block(s) + rest) == Some(
            (s, (string_block(s) + rest).skip(8 + encode_utf8(s).len() as int)),
        ),
        (string_block(s) + rest).skip(8 + encode_utf8(s).len() as int) == rest,
{
    broadcast use encode_utf8_decode_utf8;
    broadcast use encode_utf8_valid_utf8;

    lemma_auto_spec_u64_to_from_le_bytes();
    let payload = encode_utf8(s);
    let n = payload.len() as int;
    let whole = string_block(s) + rest;
    assert(whole.take(8) =~= spec_u64_to_le_bytes(n as u64));
    assert(spec_u64_from_le_bytes(whole.take(8)) == n as u64);
    assert(whole.subrange(8, 8 + n) =~= payload);
    assert(whole.skip(8 + n) =~= rest);
}

} // verus!
