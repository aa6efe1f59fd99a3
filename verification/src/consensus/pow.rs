//! Light proof of work: a nonce is valid for a hash when the BLAKE3 digest of
//! the hash followed by the nonce's little-endian bytes starts with at least
//! `difficulty` zero bits.
use vstd::prelude::*;
use vstd::bytes::{spec_u64_to_le_bytes, u64_to_le_bytes};
use crate::bytes::concat_bytes;
use crate::primitives::{blake3_digest, blake3_hash};

verus! {

/// Bit `j` (0 is the most significant) of byte `b`.
pub open spec fn byte_bit(b: u8, j: u8) -> bool {
    (b >> ((7 - j) as u8)) & 1u8 == 1u8
}

/// Bit `k` of `d`, counting from the most significant bit of `d[0]`.
pub open spec fn bit_is_set(d: Seq<u8>, k: int) -> bool {
    byte_bit(d[k / 8], (k % 8) as u8)
}

/// The first `n` bits of `d` are all zero.
pub open spec fn leading_zero_bits(d: Seq<u8>, n: int) -> bool {
    forall|k: int| 0 <= k < n ==> !#[trigger] bit_is_set(d, k)
}

/// The bytes that are hashed for a proof of work.
pub open spec fn pow_preimage(hash: Seq<u8>, nonce: u64) -> Seq<u8> {
    hash + spec_u64_to_le_bytes(nonce)
}

/// `nonce` is a valid proof of work for `hash` at `difficulty`.
pub open spec fn pow_valid(hash: Seq<u8>, nonce: u64, difficulty: u8) -> bool {
    leading_zero_bits(blake3_digest(pow_preimage(hash, nonce)), difficulty as int)
}

proof fn lemma_zero_byte(b: u8)
    ensures
        (b == 0) <==> (forall|j: u8| j < 8 ==> !#[trigger] byte_bit(b, j)),
{
    assert((b == 0) <==> (!byte_bit(b, 0) && !byte_bit(b, 1) && !byte_bit(b, 2) && !byte_bit(b, 3)
        && !byte_bit(b, 4) && !byte_bit(b, 5) && !byte_bit(b, 6) && !byte_bit(b, 7))) by (bit_vector);
    if forall|j: u8| j < 8 ==> !#[trigger] byte_bit(b, j) {
        assert(!byte_bit(b, 0) && !byte_bit(b, 1) && !byte_bit(b, 2) && !byte_bit(b, 3));
        assert(!byte_bit(b, 4) && !byte_bit(b, 5) && !byte_bit(b, 6) && !byte_bit(b, 7));
    }
}

/// The bits that the mask `0xFF << (8 - r)` keeps are the first `r` bits.
proof fn lemma_top_mask(b: u8, r: u8)
    requires
        1 <= r <= 7,
    ensures
        ((b & (0xFFu8 << ((8 - r) as u8))) == 0u8) <==> (forall|j: u8| j < r ==> !#[trigger] byte_bit(b, j)),
{
    let m = b & (0xFFu8 << ((8 - r) as u8));
    assert(r == 1 ==> ((m == 0u8) <==> !byte_bit(b, 0))) by (bit_vector)
        requires m == b & (0xFFu8 << ((8 - r) as u8));
    assert(r == 2 ==> ((m == 0u8) <==> (!byte_bit(b, 0) && !byte_bit(b, 1)))) by (bit_vector)
        requires m == b & (0xFFu8 << ((8 - r) as u8));
    assert(r == 3 ==> ((m == 0u8) <==> (!byte_bit(b, 0) && !byte_bit(b, 1) && !byte_bit(b, 2)))) by (bit_vector)
        requires m == b & (0xFFu8 << ((8 - r) as u8));
    assert(r == 4 ==> ((m == 0u8) <==> (!byte_bit(b, 0) && !byte_bit(b, 1) && !byte_bit(b, 2) && !byte_bit(b, 3)))) by (bit_vector)
        requires m == b & (0xFFu8 << ((8 - r) as u8));
    assert(r == 5 ==> ((m == 0u8) <==> (!byte_bit(b, 0) && !byte_bit(b, 1) && !byte_bit(b, 2) && !byte_bit(b, 3)
        && !byte_bit(b, 4)))) by (bit_vector)
        requires m == b & (0xFFu8 << ((8 - r) as u8));
    assert(r == 6 ==> ((m == 0u8) <==> (!byte_bit(b, 0) && !byte_bit(b, 1) && !byte_bit(b, 2) && !byte_bit(b, 3)
        && !byte_bit(b, 4) && !byte_bit(b, 5)))) by (bit_vector)
        requires m == b & (0xFFu8 << ((8 - r) as u8));
    assert(r == 7 ==> ((m == 0u8) <==> (!byte_bit(b, 0) && !byte_bit(b, 1) && !byte_bit(b, 2) && !byte_bit(b, 3)
        && !byte_bit(b, 4) && !byte_bit(b, 5) && !byte_bit(b, 6)))) by (bit_vector)
        requires m == b & (0xFFu8 << ((8 - r) as u8));
    if forall|j: u8| j < r ==> !#[trigger] byte_bit(b, j) {
        assert(r > 0 ==> !byte_bit(b, 0));
        assert(r > 1 ==> !byte_bit(b, 1));
        assert(r > 2 ==> !byte_bit(b, 2));
        assert(r > 3 ==> !byte_bit(b, 3));
        assert(r > 4 ==> !byte_bit(b, 4));
        assert(r > 5 ==> !byte_bit(b, 5));
        assert(r > 6 ==> !byte_bit(b, 6));
    }
    if m == 0u8 {
        assert forall|j: u8| j < r implies !#[trigger] byte_bit(b, j) by {
            assert(j == 0 || j == 1 || j == 2 || j == 3 || j == 4 || j == 5 || j == 6);
        }
    }
}

/// Bits `8i .. 8i+8` of `d` are the bits of byte `i`.
proof fn lemma_bit_in_byte(d: Seq<u8>, i: int, j: u8)
    requires
        j < 8,
        0 <= i,
    ensures
        bit_is_set(d, 8 * i + j) == byte_bit(d[i], j),
{
    let k = 8 * i + j;
    assert(k / 8 == i);
    assert(k % 8 == j);
}

/// The digest of `hash || le(nonce)` has `difficulty` leading zero bits.
pub fn digest_has_zero_prefix(digest: &[u8; 32], difficulty: u8) -> (ok: bool)
    ensures
        ok == leading_zero_bits(digest@, difficulty as int),
{
    let full: usize = (difficulty / 8) as usize;
    let rem: u8 = difficulty % 8;
    let ghost d = digest@;
    let mut i: usize = 0;
    while i < full
        invariant
            full == difficulty / 8,
            i <= full,
            d == digest@,
            d.len() == 32,
            leading_zero_bits(d, 8 * i),
        decreases full - i,
    {
        if digest[i] != 0 {
            proof {
                lemma_zero_byte(d[i as int]);
                let j = choose|j: u8| j < 8 && #[trigger] byte_bit(d[i as int], j);
                lemma_bit_in_byte(d, i as int, j);
                assert(bit_is_set(d, 8 * i + j));
            }
            return false;
        }
        proof {
            lemma_zero_byte(d[i as int]);
            assert forall|k: int| 0 <= k < 8 * (i + 1) implies !#[trigger] bit_is_set(d, k) by {
                if k >= 8 * i {
                    let j = (k - 8 * i) as u8;
                    lemma_bit_in_byte(d, i as int, j);
                    assert(!byte_bit(d[i as int], j));
                }
            }
        }
        i = i + 1;
    }
    if rem != 0 {
        let mask: u8 = 0xFFu8 << (8 - rem);
        if digest[full] & mask != 0 {
            proof {
                lemma_top_mask(d[full as int], rem);
                let j = choose|j: u8| j < rem && #[trigger] byte_bit(d[full as int], j);
                lemma_bit_in_byte(d, full as int, j);
                assert(bit_is_set(d, 8 * full + j));
            }
            return false;
        }
        proof {
            lemma_top_mask(d[full as int], rem);
            assert forall|k: int| 0 <= k < difficulty implies !#[trigger] bit_is_set(d, k) by {
                if k >= 8 * full {
                    let j = (k - 8 * full) as u8;
                    lemma_bit_in_byte(d, full as int, j);
                    assert(!byte_bit(d[full as int], j));
                }
            }
        }
    }
    true
}

pub struct LightPow;

impl LightPow {
    /// Checks a proof of work.
    pub fn verify(hash: &[u8; 32], nonce: u64, difficulty: u8) -> (ok: bool)
        ensures
            ok == pow_valid(hash@, nonce, difficulty),
    {
        let nonce_bytes = u64_to_le_bytes(nonce);
        let preimage = concat_bytes(hash, nonce_bytes.as_slice());
        let digest = blake3_hash(preimage.as_slice());
        digest_has_zero_prefix(&digest, difficulty)
    }

    /// Searches the nonces in increasing order and returns the first valid
    /// one, or `None` when no nonce of the whole `u64` range is valid.
    pub fn try_mine(hash: &[u8; 32], difficulty: u8) -> (found: Option<u64>)
        ensures
            match found {
                Some(n) => pow_valid(hash@, n, difficulty)
                    && forall|m: u64| m < n ==> !#[trigger] pow_valid(hash@, m, difficulty),
                None => forall|m: u64| !#[trigger] pow_valid(hash@, m, difficulty),
            },
    {
        let mut nonce: u64 = 0;
        loop
            invariant
                forall|m: u64| m < nonce ==> !#[trigger] pow_valid(hash@, m, difficulty),
            decreases u64::MAX - nonce,
        {
            if Self::verify(hash, nonce, difficulty) {
                return Some(nonce);
            }
            if nonce == u64::MAX {
                return None;
            }
            nonce = nonce + 1;
        }
    }

    /// Returns the least valid nonce. The search counts up without bound
    /// and would overflow when no nonce is valid, so some nonce must be.
    pub fn mine(hash: &[u8; 32], difficulty: u8) -> (nonce: u64)
        requires
            exists|m: u64| pow_valid(hash@, m, difficulty),
        ensures
            pow_valid(hash@, nonce, difficulty),
            forall|m: u64| m < nonce ==> !#[trigger] pow_valid(hash@, m, difficulty),
    {
        match Self::try_mine(hash, difficulty) {
            Some(n) => n,
            None => {
                proof {
                    let w = choose|m: u64| pow_valid(hash@, m, difficulty);
                    assert(pow_valid(hash@, w, difficulty));
                }
                0
            },
        }
    }
}

/// A nonce that is valid at some difficulty is valid at every lower one.
pub proof fn law_pow_lower_difficulty(hash: Seq<u8>, nonce: u64, difficulty: u8, lower: u8)
    requires
        lower <= difficulty,
        pow_valid(hash, nonce, difficulty),
    ensures
        pow_valid(hash, nonce, lower),
{
}

/// At difficulty zero every nonce is valid, so mining returns zero.
pub proof fn law_pow_difficulty_zero(hash: Seq<u8>, nonce: u64)
    ensures
        pow_valid(hash, nonce, 0),
{
}

} // verus!
