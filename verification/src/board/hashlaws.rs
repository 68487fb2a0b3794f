//! What the hashes tell apart.

use vstd::prelude::*;
use crate::board::laws;
use crate::board::model;
use crate::board::model::{Board, Piece, PositionV};
use crate::types::{Color, PieceType, Square};
use crate::zobrist;

verus! {

proof fn lemma_bits(x: u64, y: u64, k: u64)
    ensures
        x ^ (x >> 30u64) == y ^ (y >> 30u64) ==> x == y,
        x ^ (x >> 27u64) == y ^ (y >> 27u64) ==> x == y,
        x ^ (x >> 31u64) == y ^ (y >> 31u64) ==> x == y,
        0u64 ^ (0u64 >> 30u64) == 0,
        0u64 ^ (0u64 >> 27u64) == 0,
        0u64 ^ (0u64 >> 31u64) == 0,
        k ^ x == k ^ y ==> x == y,
        x ^ k == y ^ k ==> x == y,
        x ^ y == 0 ==> x == y,
{
    assert((x ^ (x >> 30u64) == y ^ (y >> 30u64) ==> x == y) && (x ^ (x >> 27u64) == y ^ (y >> 27u64) ==> x == y) && (
    x ^ (x >> 31u64) == y ^ (y >> 31u64) ==> x == y) && 0u64 ^ (0u64 >> 30u64) == 0 && 0u64 ^ (0u64 >> 27u64) == 0
        && 0u64 ^ (0u64 >> 31u64) == 0 && (k ^ x == k ^ y ==> x == y) && (x ^ k == y ^ k ==> x == y) && (x ^ y == 0
        ==> x == y)) by (bit_vector);
}

/// Multiplying by a number that has an inverse modulo the word size loses nothing.
proof fn lemma_product(x: u64, y: u64, c: u64, d: int, k: int)
    requires
        c * d == 1 + k * 0x1_0000_0000_0000_0000,
        x.wrapping_mul(c) == y.wrapping_mul(c),
    ensures
        x == y,
{
    let m: int = 0x1_0000_0000_0000_0000;
    let (a, b) = (x as int * c as int, y as int * c as int);
    assert(a >= 0 && b >= 0) by (nonlinear_arith)
        requires
            a == x as int * c as int,
            b == y as int * c as int,
            x >= 0,
            y >= 0,
            c >= 0,
    ;
    assert(a % m == b % m);
    let (q, r) = (a / m, b / m);
    assert(a - b == (q - r) * m);
    let z = x - y;
    assert(z * c == (q - r) * m) by (nonlinear_arith)
        requires
            z == x - y,
            x as int * c as int - y as int * c as int == (q - r) * m,
    ;
    assert(z == m * ((q - r) * d - z * k)) by (nonlinear_arith)
        requires
            z * c == (q - r) * m,
            c * d == 1 + k * m,
    ;
    assert(z == 0) by (nonlinear_arith)
        requires
            z == m * ((q - r) * d - z * k),
            -m < z < m,
    ;
}

/// Different numbers are mixed to different words.
pub proof fn law_mix_injective(x: u64, y: u64)
    ensures
        zobrist::mix_of(x) == zobrist::mix_of(y) ==> x == y,
        zobrist::mix_of(x) == 0 <==> x == u64::MAX,
{
    lemma_mix(x, y);
    lemma_mix(x, u64::MAX);
    let a = u64::MAX.wrapping_add(1).wrapping_mul(0x9e37_79b9_7f4a_7c15);
    assert(a == 0);
    lemma_bits(0, 0, 0);
    assert(0u64.wrapping_mul(0xbf58_476d_1ce4_e5b9) == 0);
    assert(0u64.wrapping_mul(0x94d0_49bb_1331_11eb) == 0);
}

proof fn lemma_mix(x: u64, y: u64)
    ensures
        zobrist::mix_of(x) == zobrist::mix_of(y) ==> x == y,
{
    if zobrist::mix_of(x) == zobrist::mix_of(y) {
        let (x0, y0) = (x.wrapping_add(1), y.wrapping_add(1));
        let (x1, y1) = (x0.wrapping_mul(0x9e37_79b9_7f4a_7c15), y0.wrapping_mul(0x9e37_79b9_7f4a_7c15));
        let (x2, y2) = (x1 ^ (x1 >> 30u64), y1 ^ (y1 >> 30u64));
        let (x3, y3) = (x2.wrapping_mul(0xbf58_476d_1ce4_e5b9), y2.wrapping_mul(0xbf58_476d_1ce4_e5b9));
        let (x4, y4) = (x3 ^ (x3 >> 27u64), y3 ^ (y3 >> 27u64));
        let (x5, y5) = (x4.wrapping_mul(0x94d0_49bb_1331_11eb), y4.wrapping_mul(0x94d0_49bb_1331_11eb));
        lemma_bits(x5, y5, 0);
        lemma_product(x4, y4, 0x94d0_49bb_1331_11eb, 0x3196_42b2_d24d_8ec3, 0x1cd3_36ed_a85f_1453);
        lemma_bits(x3, y3, 0);
        lemma_product(x2, y2, 0xbf58_476d_1ce4_e5b9, 0x96de_1b17_3f11_9089, 0x70c3_bca7_8f27_f46c);
        lemma_bits(x1, y1, 0);
        lemma_product(x0, y0, 0x9e37_79b9_7f4a_7c15, 0xf1de_83e1_9937_733d, 0x957b_bf35_006e_d677);
    }
}

/// No two things share a key, and none has the key 0: pieces by type, color and square, the side to move, sets of
/// castling rights, en passant squares.
pub proof fn law_keys_distinct(
    p: PieceType,
    q: PieceType,
    a: Color,
    b: Color,
    s: int,
    t: int,
    r: u8,
    u: u8,
)
    requires
        0 <= s < 64,
        0 <= t < 64,
    ensures
        zobrist::piece_key(p, a, s) == zobrist::piece_key(q, b, t) ==> p == q && a == b && s == t,
        zobrist::castling_key(r) == zobrist::castling_key(u) ==> r == u,
        zobrist::ep_key(s) == zobrist::ep_key(t) ==> s == t,
        zobrist::piece_key(p, a, s) != 0,
        zobrist::side_key() != 0,
        zobrist::ep_key(s) != 0,
        zobrist::castling_key(r) == 0 <==> r == 0,
        zobrist::piece_key(p, a, s) != zobrist::side_key(),
        zobrist::piece_key(p, a, s) != zobrist::ep_key(t),
        zobrist::piece_key(p, a, s) != zobrist::castling_key(r),
        zobrist::side_key() != zobrist::ep_key(s),
        zobrist::side_key() != zobrist::castling_key(r),
        zobrist::ep_key(s) != zobrist::castling_key(r),
{
    reveal(zobrist::piece_key);
    reveal(zobrist::side_key);
    reveal(zobrist::castling_key);
    reveal(zobrist::ep_key);
    let x = (s + 64 * (p.idx() + 8 * a.idx())) as u64;
    let y = (t + 64 * (q.idx() + 8 * b.idx())) as u64;
    let (c, d) = ((4096 + r) as u64, (4096 + u) as u64);
    let (e, f) = ((8192 + s) as u64, (8192 + t) as u64);
    law_mix_injective(x, y);
    law_mix_injective(c, d);
    law_mix_injective(d, c);
    law_mix_injective(e, f);
    law_mix_injective(2048, x);
    law_mix_injective(2048, c);
    law_mix_injective(2048, e);
    law_mix_injective(x, c);
    law_mix_injective(x, f);
    law_mix_injective(e, c);
}

/// Positions that differ in exactly one thing have different hashes: in what stands on one square, in the side to
/// move, in the castling rights or in the en passant square.
pub proof fn law_hash_tells(p: PositionV, s: int, x: Option<Piece>, rights: u8, ep: Option<Square>)
    requires
        p.board.len() == 64,
        0 <= s < 64,
        p.en_passant matches Some(e) ==> e.wf(),
        ep matches Some(e) ==> e.wf(),
    ensures
        x != p.board[s] ==> model::zobrist_of(PositionV { board: p.board.update(s, x), ..p }) != model::zobrist_of(p),
        model::zobrist_of(PositionV { stm: p.stm.other(), ..p }) != model::zobrist_of(p),
        rights != p.castling_rights ==> model::zobrist_of(PositionV { castling_rights: rights, ..p })
            != model::zobrist_of(p),
        ep != p.en_passant ==> model::zobrist_of(PositionV { en_passant: ep, ..p }) != model::zobrist_of(p),
{
    let k = model::board_key(p.board, 64);
    let (a, c, e) = (model::side_term(p.stm), zobrist::castling_key(p.castling_rights), model::ep_term(p.en_passant));
    law_keys_distinct(PieceType::Pawn, PieceType::Pawn, Color::White, Color::White, s, s, p.castling_rights, rights);
    // the side
    let a2 = model::side_term(p.stm.other());
    lemma_bits(k ^ a ^ c, k ^ a2 ^ c, e);
    lemma_bits(k ^ a, k ^ a2, c);
    lemma_bits(a, a2, k);
    // the rights
    let c2 = zobrist::castling_key(rights);
    lemma_bits(k ^ a ^ c, k ^ a ^ c2, e);
    lemma_bits(c, c2, k ^ a);
    // en passant
    let e2 = model::ep_term(ep);
    lemma_bits(e, e2, k ^ a ^ c);
    match (p.en_passant, ep) {
        (Some(m), Some(n)) => law_keys_distinct(
            PieceType::Pawn,
            PieceType::Pawn,
            Color::White,
            Color::White,
            m.0 as int,
            n.0 as int,
            0,
            0,
        ),
        (Some(m), None) => law_keys_distinct(
            PieceType::Pawn,
            PieceType::Pawn,
            Color::White,
            Color::White,
            m.0 as int,
            0,
            0,
            0,
        ),
        (None, Some(n)) => law_keys_distinct(
            PieceType::Pawn,
            PieceType::Pawn,
            Color::White,
            Color::White,
            n.0 as int,
            0,
            0,
            0,
        ),
        (None, None) => {},
    }
    // one square
    if x != p.board[s] {
        laws::lemma_board_key_update(p.board, s, x, 64);
        let (o, n) = (model::square_key(p.board[s], s), model::square_key(x, s));
        let k2 = k ^ o ^ n;
        lemma_square_keys(p.board[s], x, s);
        lemma_bits(k ^ a ^ c, k2 ^ a ^ c, e);
        lemma_bits(k ^ a, k2 ^ a, c);
        lemma_bits(k, k2, a);
        zobrist::lemma_xor_assoc(k, o, n);
        zobrist::lemma_xor_zero(k);
        lemma_bits(o ^ n, 0, k);
        lemma_bits(o, n, 0);
    }
}

proof fn lemma_square_keys(x: Option<Piece>, y: Option<Piece>, s: int)
    requires
        0 <= s < 64,
        x != y,
    ensures
        model::square_key(x, s) != model::square_key(y, s),
{
    match (x, y) {
        (Some(p), Some(q)) => law_keys_distinct(p.pt, q.pt, p.color, q.color, s, s, 0, 0),
        (Some(p), None) => law_keys_distinct(p.pt, p.pt, p.color, p.color, s, s, 0, 0),
        (None, Some(q)) => law_keys_distinct(q.pt, q.pt, q.color, q.color, s, s, 0, 0),
        (None, None) => {},
    }
}

/// The hash of the pawns tells pawns apart and nothing else.
pub proof fn law_pawn_hash_tells(b: Board, s: int, x: Option<Piece>)
    requires
        b.len() == 64,
        0 <= s < 64,
    ensures
        ({
            let before = b[s] matches Some(p) && p.pt == PieceType::Pawn;
            let after = x matches Some(p) && p.pt == PieceType::Pawn;
            &&& !before && !after ==> model::pawn_zobrist_of(b.update(s, x)) == model::pawn_zobrist_of(b)
            &&& (before || after) && x != b[s] ==> model::pawn_zobrist_of(b.update(s, x)) != model::pawn_zobrist_of(b)
        }),
{
    let pb = model::pawns_only(b);
    let y = model::pawns_only(seq![x])[0];
    assert(model::pawns_only(b.update(s, x)) =~= pb.update(s, y));
    laws::lemma_board_key_update(pb, s, y, 64);
    let (k, o, n) = (model::board_key(pb, 64), model::square_key(pb[s], s), model::square_key(y, s));
    zobrist::lemma_xor_assoc(k, o, n);
    zobrist::lemma_xor_zero(k);
    zobrist::lemma_xor_zero(o);
    if pb[s] != y {
        lemma_square_keys(pb[s], y, s);
        lemma_bits(o ^ n, 0, k);
        lemma_bits(o, n, 0);
    }
}

} // verus!
