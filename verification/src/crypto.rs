use vstd::prelude::*;
use vstd::relations::{sorted_by, total_ordering};
use vstd::seq_lib::{lemma_sorted_unique, to_multiset_build, to_multiset_insert};
use vstd::string::StringSliceAdditionalSpecFns;
use vstd::string::StrSliceExecFns;
use vstd::utf8::encode_utf8;

use crate::hashing::{digest_hex, is_hex_string, lemma_hex_of_is_hex, hex_encode, sha256_hex};
use crate::strutil::str_eq;

verus! {

/// Row-then-column order on board positions: the canonical order for the
/// commitment encoding.
pub open spec fn pos_leq(a: (u8, u8), b: (u8, u8)) -> bool {
    a.0 < b.0 || (a.0 == b.0 && a.1 <= b.1)
}

/// The ordering as a function value, for use with `sort_by`.
pub open spec fn pos_le() -> spec_fn((u8, u8), (u8, u8)) -> bool {
    |a: (u8, u8), b: (u8, u8)| pos_leq(a, b)
}

pub proof fn lemma_pos_le_total_ordering()
    ensures
        total_ordering(pos_le()),
{
    let leq = pos_le();
    assert forall|a: (u8, u8), b: (u8, u8)| #[trigger] leq(a, b) && #[trigger] leq(b, a)
        implies a == b by {
        assert(a.0 == b.0 && a.1 == b.1);
    }
}

/// A position set in canonical order: sorted by row, then column.
pub open spec fn canonical(positions: Seq<(u8, u8)>) -> Seq<(u8, u8)> {
    positions.sort_by(pos_le())
}

/// The fixed two-byte serialization of a run of positions.
pub open spec fn positions_bytes(positions: Seq<(u8, u8)>) -> Seq<u8>
    decreases positions.len(),
{
    if positions.len() == 0 {
        Seq::empty()
    } else {
        positions_bytes(positions.drop_last()) + seq![
            positions.last().0,
            positions.last().1,
        ]
    }
}

/// The commitment to a position set under a salt: the hex-encoded SHA-256
/// digest of the canonically ordered positions followed by the salt's bytes.
pub open spec fn commitment_of(positions: Seq<(u8, u8)>, salt: Seq<char>) -> Seq<char> {
    digest_hex(positions_bytes(canonical(positions)) + encode_utf8(salt))
}

/// Whether a claimed commitment string is the commitment to the given
/// positions and salt.
pub open spec fn commitment_matches(
    claimed: Seq<char>,
    positions: Seq<(u8, u8)>,
    salt: Seq<char>,
) -> bool {
    claimed == commitment_of(positions, salt)
}

fn pos_le_exec(a: (u8, u8), b: (u8, u8)) -> (r: bool)
    ensures
        r == pos_leq(a, b),
{
    a.0 < b.0 || (a.0 == b.0 && a.1 <= b.1)
}

fn find_insert_position(v: &Vec<(u8, u8)>, p: (u8, u8)) -> (j: usize)
    requires
        sorted_by(v@, pos_le()),
    ensures
        j <= v@.len(),
        forall|k: int| 0 <= k < j ==> pos_leq(#[trigger] v@[k], p),
        j < v@.len() ==> !pos_leq(v@[j as int], p),
{
    let mut j: usize = 0;
    while j < v.len()
        invariant
            j <= v@.len(),
            forall|k: int| 0 <= k < j ==> pos_leq(#[trigger] v@[k], p),
        decreases v@.len() - j,
    {
        if !pos_le_exec(v[j], p) {
            return j;
        }
        j += 1;
    }
    j
}

fn sorted_insert(v: &mut Vec<(u8, u8)>, p: (u8, u8))
    requires
        sorted_by(old(v)@, pos_le()),
    ensures
        sorted_by(final(v)@, pos_le()),
        final(v)@.to_multiset() == old(v)@.to_multiset().insert(p),
        final(v)@.len() == old(v)@.len() + 1,
{
    let j = find_insert_position(v, p);
    v.insert(j, p);
    proof {
        let s = old(v)@;
        let t = final(v)@;
        let leq = pos_le();
        to_multiset_insert(s, j as int, p);
        assert forall|m: int, n: int| 0 <= m < n < t.len() implies #[trigger] leq(t[m], t[n]) by {
            if m < j && n == j {
                assert(t[m] == s[m]);
                assert(leq(s[m], p));
            } else if m == j && n > j {
                assert(t[n] == s[n - 1]);
                if n - 1 > j {
                    assert(leq(s[j as int], s[n - 1]));
                }
                assert(!pos_leq(s[j as int], p));
                assert(pos_leq(p, s[n - 1]));
            } else if m < j && n > j {
                assert(t[m] == s[m] && t[n] == s[n - 1]);
                if m < n - 1 {
                    assert(leq(s[m], s[n - 1]));
                } else {
                    assert(s[m] == s[n - 1]);
                }
                assert(pos_leq(t[m], t[n]));
            } else if m > j && n > j {
                assert(t[m] == s[m - 1] && t[n] == s[n - 1]);
                assert(leq(s[m - 1], s[n - 1]));
            } else {
                assert(m < j && n < j);
                assert(t[m] == s[m] && t[n] == s[n]);
                assert(leq(s[m], s[n]));
            }
        }
    }
}

/// The positions in canonical order.
pub(crate) fn sort_positions(positions: &[(u8, u8)]) -> (r: Vec<(u8, u8)>)
    ensures
        r@ == canonical(positions@),
        r@.len() == positions@.len(),
{
    proof {
        lemma_pos_le_total_ordering();
        positions@.lemma_sort_by_ensures(pos_le());
    }
    let mut r: Vec<(u8, u8)> = Vec::new();
    let n = positions.len();
    let mut i: usize = 0;
    proof {
        assert(r@ =~= positions@.subrange(0, 0));
    }
    while i < n
        invariant
            i <= n,
            n == positions@.len(),
            r@.len() == i,
            sorted_by(r@, pos_le()),
            r@.to_multiset() == positions@.subrange(0, i as int).to_multiset(),
        decreases n - i,
    {
        let p = positions[i];
        sorted_insert(&mut r, p);
        proof {
            let taken = positions@.subrange(0, i as int);
            to_multiset_build(taken, p);
            assert(taken.push(p) =~= positions@.subrange(0, i as int + 1));
        }
        i += 1;
    }
    proof {
        assert(positions@.subrange(0, n as int) =~= positions@);
        lemma_sorted_unique(r@, canonical(positions@), pos_le());
    }
    r
}

/// Relies on `rand::fill`: 32 bytes drawn from the thread-local generator;
/// nothing is known of their values.
#[verifier::external_body]
fn random_bytes() -> (r: Vec<u8>)
    ensures
        r@.len() == 32,
{
    let mut buf = [0u8; 32];
    rand::fill(&mut buf[..]);
    buf.to_vec()
}

/// A fresh 256-bit salt, hex-encoded as 64 characters.
pub fn generate_salt() -> (r: String)
    ensures
        r@.len() == 64,
        is_hex_string(r@),
{
    let bytes = random_bytes();
    let r = hex_encode(bytes.as_slice());
    proof {
        lemma_hex_of_is_hex(bytes@);
    }
    r
}

/// The commitment to a board: positions in canonical order, two bytes each,
/// followed by the salt's bytes, hashed and hex-encoded.
pub fn create_commitment(positions: &[(u8, u8)], salt: &str) -> (r: String)
    ensures
        r@ == commitment_of(positions@, salt@),
        r@.len() == 64,
        is_hex_string(r@),
{
    let sorted = sort_positions(positions);
    let mut buf: Vec<u8> = Vec::new();
    let n = sorted.len();
    let mut i: usize = 0;
    proof {
        assert(positions_bytes(sorted@.subrange(0, 0)) =~= Seq::<u8>::empty());
        assert(buf@ =~= Seq::<u8>::empty());
    }
    while i < n
        invariant
            i <= n,
            n == sorted@.len(),
            buf@ == positions_bytes(sorted@.subrange(0, i as int)),
        decreases n - i,
    {
        let p = sorted[i];
        buf.push(p.0);
        buf.push(p.1);
        proof {
            let prefix = sorted@.subrange(0, i as int + 1);
            assert(prefix.drop_last() =~= sorted@.subrange(0, i as int));
            assert(buf@ =~= positions_bytes(prefix.drop_last()) + seq![
                prefix.last().0,
                prefix.last().1,
            ]);
        }
        i += 1;
    }
    let mut salt_bytes = salt.as_bytes_vec();
    proof {
        assert(sorted@.subrange(0, n as int) =~= sorted@);
    }
    buf.append(&mut salt_bytes);
    sha256_hex(&buf)
}

/// Recompute the commitment over the revealed positions and salt, and compare
/// with the claimed one.
pub fn verify_commitment(commitment: &str, positions: &[(u8, u8)], salt: &str) -> (r: bool)
    ensures
        r == commitment_matches(commitment@, positions@, salt@),
{
    let calculated = create_commitment(positions, salt);
    str_eq(calculated.as_str(), commitment)
}

/// A commitment is insensitive to the order in which the positions are given:
/// any two sequences holding the same positions the same number of times
/// commit to the same value under the same salt.
pub proof fn lemma_commitment_order_independent(
    p1: Seq<(u8, u8)>,
    p2: Seq<(u8, u8)>,
    salt: Seq<char>,
)
    requires
        p1.to_multiset() == p2.to_multiset(),
    ensures
        commitment_of(p1, salt) == commitment_of(p2, salt),
{
    lemma_pos_le_total_ordering();
    p1.lemma_sort_by_ensures(pos_le());
    p2.lemma_sort_by_ensures(pos_le());
    lemma_sorted_unique(canonical(p1), canonical(p2), pos_le());
}

/// A commitment just created over a position set and a salt verifies against
/// that same position set and salt.
pub proof fn lemma_create_then_verify(positions: Seq<(u8, u8)>, salt: Seq<char>)
    ensures
        commitment_matches(commitment_of(positions, salt), positions, salt),
{
}

/// A claim about a single cell: either a hit, revealing the cell together
/// with a commitment to it under a fresh salt, or a miss, repeating the
/// original full-board commitment and revealing nothing.
///
/// The scheme is a deliberately simplified placeholder: a hit proof is not
/// bound to the original board commitment, and a miss proof shows only that
/// the claimant still holds the same board commitment. A sound replacement
/// would use inclusion and exclusion proofs against the committed board.
#[derive(Debug, Clone)]
pub struct HitProof {
    pub commitment: String,
    pub revealed_position: Option<(u8, u8)>,
    pub position_salt: String,
}

/// What a valid hit claim for `shot` looks like: the revealed position is the
/// shot itself, and the proof's own commitment is the commitment to that one
/// cell under the proof's own salt.
pub open spec fn hit_claim_valid(proof: HitProof, shot: (u8, u8)) -> bool {
    proof.revealed_position == Some(shot) && proof.commitment@ == commitment_of(
        seq![shot],
        proof.position_salt@,
    )
}

/// What a valid miss claim looks like against a board commitment: nothing is
/// revealed and the proof repeats the board commitment verbatim. The shot
/// coordinate plays no part, so this shows only continued possession of the
/// commitment, not that the cell is empty.
pub open spec fn miss_claim_valid(proof: HitProof, board_commitment: Seq<char>) -> bool {
    proof.revealed_position is None && proof.commitment@ == board_commitment
}

impl HitProof {
    /// A hit claim: commits to the single revealed cell under a fresh salt.
    /// The resulting proof is not bound to the board commitment or the board
    /// salt; the unused parameters keep the caller's shape.
    #[allow(unused_variables)]
    pub fn prove_hit(position: (u8, u8), all_positions: &[(u8, u8)], board_salt: &str) -> (r:
        HitProof)
        ensures
            hit_claim_valid(r, position),
            r.revealed_position == Some(position),
    {
        let position_salt = generate_salt();
        let mut single: Vec<(u8, u8)> = Vec::new();
        single.push(position);
        let commitment = create_commitment(single.as_slice(), position_salt.as_str());
        proof {
            assert(single@ =~= seq![position]);
        }
        HitProof { commitment, revealed_position: Some(position), position_salt }
    }

    /// A miss claim: repeats the full-board commitment and reveals nothing.
    #[allow(unused_variables)]
    pub fn prove_miss(shot_position: (u8, u8), all_positions: &[(u8, u8)], board_salt: &str) -> (r:
        HitProof)
        ensures
            r.revealed_position is None,
            r.commitment@ == commitment_of(all_positions@, board_salt@),
            r.position_salt@ == board_salt@,
    {
        let commitment = create_commitment(all_positions, board_salt);
        HitProof { commitment, revealed_position: None, position_salt: board_salt.to_owned() }
    }

    /// Check a hit claim: the revealed position must equal the shot and the
    /// proof's own commitment must match the revealed cell and salt. The
    /// board commitment is deliberately not consulted; see the type's note.
    #[allow(unused_variables)]
    pub fn verify_hit(&self, shot_position: (u8, u8), board_commitment: &str) -> (r: bool)
        ensures
            r == hit_claim_valid(*self, shot_position),
    {
        match self.revealed_position {
            Some(revealed) => {
                if revealed.0 != shot_position.0 || revealed.1 != shot_position.1 {
                    return false;
                }
                let mut single: Vec<(u8, u8)> = Vec::new();
                single.push(revealed);
                let calculated = create_commitment(single.as_slice(), self.position_salt.as_str());
                proof {
                    assert(single@ =~= seq![shot_position]);
                }
                str_eq(calculated.as_str(), self.commitment.as_str())
            },
            None => false,
        }
    }

    /// Check a miss claim: the proof's commitment must equal the board
    /// commitment and nothing may be revealed. The shot coordinate plays no
    /// part; see the type's note.
    #[allow(unused_variables)]
    pub fn verify_miss(&self, shot_position: (u8, u8), board_commitment: &str) -> (r: bool)
        ensures
            r == miss_claim_valid(*self, board_commitment@),
    {
        match self.revealed_position {
            Some(_) => false,
            None => str_eq(self.commitment.as_str(), board_commitment),
        }
    }
}

} // verus!
