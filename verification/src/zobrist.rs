//! Zobrist keys.

use vstd::prelude::*;
use crate::types::{Color, PieceType, Square};

verus! {

/// A 64-bit finalizer: every input bit reaches every output bit.
pub open spec fn mix_of(n: u64) -> u64 {
    let a = n.wrapping_add(1).wrapping_mul(0x9e37_79b9_7f4a_7c15);
    let b = (a ^ (a >> 30u64)).wrapping_mul(0xbf58_476d_1ce4_e5b9);
    let c = (b ^ (b >> 27u64)).wrapping_mul(0x94d0_49bb_1331_11eb);
    c ^ (c >> 31u64)
}

fn mix(n: u64) -> (k: u64)
    ensures
        k == mix_of(n),
{
    let a: u64 = n.wrapping_add(1).wrapping_mul(0x9e37_79b9_7f4a_7c15);
    let b: u64 = (a ^ (a >> 30u64)).wrapping_mul(0xbf58_476d_1ce4_e5b9);
    let c: u64 = (b ^ (b >> 27u64)).wrapping_mul(0x94d0_49bb_1331_11eb);
    c ^ (c >> 31u64)
}

/// Key of a piece of the given type and color on square `sq`.
#[verifier::opaque]
pub open spec fn piece_key(pt: PieceType, color: Color, sq: int) -> u64 {
    mix_of((sq + 64 * (pt.idx() + 8 * color.idx())) as u64)
}

/// Key of "Black is to move".
#[verifier::opaque]
pub open spec fn side_key() -> u64 {
    mix_of(2048)
}

/// Key of a set of castling rights. The empty set has the key 0, so that taking the last right
/// away leaves no trace in the hash.
#[verifier::opaque]
pub open spec fn castling_key(rights: u8) -> u64 {
    if rights == 0 {
        0
    } else {
        mix_of((4096 + rights) as u64)
    }
}

/// Key of an en passant target square.
#[verifier::opaque]
pub open spec fn ep_key(sq: int) -> u64 {
    mix_of((8192 + sq) as u64)
}

pub fn key_piece(pt: PieceType, color: Color, sq: Square) -> (k: u64)
    ensures
        k == piece_key(pt, color, sq.0 as int),
{
    proof {
        reveal(piece_key);
    }
    mix(sq.0 as u64 + 64 * (pt.as_usize() as u64 + 8 * color.as_usize() as u64))
}

pub fn key_side() -> (k: u64)
    ensures
        k == side_key(),
{
    proof {
        reveal(side_key);
    }
    mix(2048)
}

pub fn key_castling(rights: u8) -> (k: u64)
    ensures
        k == castling_key(rights),
        rights == 0 ==> k == 0,
{
    proof {
        reveal(castling_key);
    }
    if rights == 0 {
        0
    } else {
        mix(4096 + rights as u64)
    }
}

pub fn key_ep(sq: Square) -> (k: u64)
    ensures
        k == ep_key(sq.0 as int),
{
    proof {
        reveal(ep_key);
    }
    mix(8192 + sq.0 as u64)
}

pub proof fn lemma_xor_assoc(a: u64, b: u64, c: u64)
    ensures
        (a ^ b) ^ c == a ^ (b ^ c),
{
    assert((a ^ b) ^ c == a ^ (b ^ c)) by (bit_vector);
}

pub proof fn lemma_xor_zero(a: u64)
    ensures
        a ^ 0 == a,
        0 ^ a == a,
        a ^ a == 0,
{
    assert(a ^ 0 == a && 0 ^ a == a && a ^ a == 0) by (bit_vector);
}

} // verus!
