//! How pieces attack, said over files and ranks; what check, pin and en passant mean.

use vstd::prelude::*;
use crate::bits;
use crate::board::model;
use crate::board::model::{Board, Piece};
use crate::board::queries;
use crate::types;
use crate::types::{Color, PieceType};

verus! {

pub open spec fn sign(x: int) -> int {
    if x > 0 {
        1
    } else if x < 0 {
        -1
    } else {
        0
    }
}

pub open spec fn size(x: int) -> int {
    if x >= 0 {
        x
    } else {
        -x
    }
}

/// All squares strictly between two squares of a file, rank or diagonal are empty.
pub open spec fn nothing_between(b: Board, from: int, to: int) -> bool {
    let (df, dr) = (to % 8 - from % 8, to / 8 - from / 8);
    let n = if size(df) >= size(dr) {
        size(df)
    } else {
        size(dr)
    };
    forall|k: int| 1 <= k < n ==> #[trigger] b[from + k * (8 * sign(dr) + sign(df))] is None
}

proof fn lemma_run(b: Board, f: int, r: int, df: int, dr: int, n: nat)
    ensures
        model::free_run(b, 0, f, r, df, dr, n) <==> forall|k: int|
            0 <= k < n ==> #[trigger] b[r * 8 + f + k * (8 * dr + df)] is None,
    decreases n,
{
    bits::lemma_member_ops();
    if n > 0 {
        let m = (n - 1) as nat;
        lemma_run(b, f + df, r + dr, df, dr, m);
        let step = 8 * dr + df;
        let home = r * 8 + f;
        let next = (r + dr) * 8 + (f + df);
        assert(next == home + step);
        if model::free_run(b, 0, f, r, df, dr, n) {
            assert forall|k: int| 0 <= k < n implies #[trigger] b[home + k * step] is None by {
                if k > 0 {
                    assert(next + (k - 1) * step == home + k * step) by (nonlinear_arith)
                        requires
                            next == home + step,
                    ;
                    assert(b[next + (k - 1) * step] is None);
                } else {
                    assert(0 * step == 0);
                }
            }
        }
        if forall|k: int| 0 <= k < n ==> #[trigger] b[home + k * step] is None {
            assert(0 * step == 0);
            assert(b[home + 0 * step] is None);
            assert forall|k: int| 0 <= k < m implies #[trigger] b[next + k * step] is None by {
                assert(next + k * step == home + (k + 1) * step) by (nonlinear_arith)
                    requires
                        next == home + step,
                ;
                assert(b[home + (k + 1) * step] is None);
            }
        }
    }
}

proof fn lemma_path(b: Board, from: int, to: int)
    requires
        0 <= from < 64,
        0 <= to < 64,
        from != to,
    ensures
        model::open_path(b, 0, from, to) <==> nothing_between(b, from, to),
{
    let (df, dr) = (to % 8 - from % 8, to / 8 - from / 8);
    let (sf, sr) = (sign(df), sign(dr));
    let n = if size(df) >= size(dr) {
        size(df)
    } else {
        size(dr)
    };
    let step = 8 * sr + sf;
    lemma_run(b, from % 8 + sf, from / 8 + sr, sf, sr, (n - 1) as nat);
    let home = (from / 8 + sr) * 8 + (from % 8 + sf);
    assert(home == from + step);
    if model::open_path(b, 0, from, to) {
        assert forall|k: int| 1 <= k < n implies #[trigger] b[from + k * step] is None by {
            assert(home + (k - 1) * step == from + k * step) by (nonlinear_arith)
                requires
                    home == from + step,
            ;
            assert(b[home + (k - 1) * step] is None);
        }
    }
    if nothing_between(b, from, to) {
        assert forall|k: int| 0 <= k < n - 1 implies #[trigger] b[home + k * step] is None by {
            assert(home + k * step == from + (k + 1) * step) by (nonlinear_arith)
                requires
                    home == from + step,
            ;
            assert(b[from + (k + 1) * step] is None);
        }
    }
}

/// How each piece attacks. A king one step in any direction; a knight two squares one way and one the other; a
/// pawn one square diagonally forward; a rook along files and ranks, a bishop along diagonals and a queen along
/// both, as far as nothing stands between.
pub proof fn law_attack_geometry(b: Board, p: Piece, from: int, to: int)
    requires
        0 <= from < 64,
        0 <= to < 64,
    ensures
        ({
            let (df, dr) = (to % 8 - from % 8, to / 8 - from / 8);
            let hits = model::reaches(b, 0, p, from, to);
            let straight = from != to && (df == 0 || dr == 0);
            let slanted = from != to && size(df) == size(dr);
            &&& p.pt == PieceType::King ==> (hits <==> from != to && size(df) <= 1 && size(dr) <= 1)
            &&& p.pt == PieceType::Knight ==> (hits <==> (size(df) == 1 && size(dr) == 2) || (size(df) == 2 && size(dr)
                == 1))
            &&& p.pt == PieceType::Pawn && p.color == Color::White ==> (hits <==> size(df) == 1 && dr == 1)
            &&& p.pt == PieceType::Pawn && p.color == Color::Black ==> (hits <==> size(df) == 1 && dr == -1)
            &&& p.pt == PieceType::Rook ==> (hits <==> straight && nothing_between(b, from, to))
            &&& p.pt == PieceType::Bishop ==> (hits <==> slanted && nothing_between(b, from, to))
            &&& p.pt == PieceType::Queen ==> (hits <==> (straight || slanted) && nothing_between(b, from, to))
            &&& p.pt == PieceType::Empty ==> !hits
        }),
{
    if from != to {
        lemma_path(b, from, to);
    }
}

proof fn lemma_find_king(b: Board, c: Color, i: int)
    requires
        0 <= i <= 64,
    ensures
        i <= model::find_king(b, c, i) <= 64,
        model::find_king(b, c, i) < 64 ==> b[model::find_king(b, c, i)] == Some(
            Piece { pt: PieceType::King, color: c },
        ),
        forall|k: int|
            i <= k < model::find_king(b, c, i) ==> #[trigger] b[k] != Some(Piece { pt: PieceType::King, color: c }),
    decreases 64 - i,
{
    if i < 64 {
        lemma_find_king(b, c, i + 1);
    }
}

/// A side is in check exactly when an enemy piece attacks the square of its king.
pub proof fn law_check(b: Board, c: Color, k: int)
    requires
        0 <= k < 64,
        b[k] == Some(Piece { pt: PieceType::King, color: c }),
        forall|i: int| 0 <= i < 64 && i != k ==> #[trigger] b[i] != Some(Piece { pt: PieceType::King, color: c }),
    ensures
        model::king_at(b, c) == k,
        model::in_check(b, c) <==> exists|s: int|
            0 <= s < 64 && (#[trigger] b[s] matches Some(x) && x.color != c && model::reaches(b, 0, x, s, k)),
{
    lemma_find_king(b, c, 0);
    if model::in_check(b, c) {
        let s = choose|s: int| #[trigger] model::attacks_from(b, 0, s, k, c.other());
        assert(b[s] is Some);
    }
    if exists|s: int| 0 <= s < 64 && (#[trigger] b[s] matches Some(x) && x.color != c && model::reaches(b, 0, x, s, k)) {
        let s = choose|s: int|
            0 <= s < 64 && (#[trigger] b[s] matches Some(x) && x.color != c && model::reaches(b, 0, x, s, k));
        assert(model::attacks_from(b, 0, s, k, c.other()));
    }
}

spec fn along(x: int, d: int, n: int) -> int {
    if d == 1 {
        x + n
    } else if d == -1 {
        x - n
    } else {
        x
    }
}

proof fn lemma_run_without(b: Board, s: int, f: int, r: int, df: int, dr: int, n: nat)
    requires
        0 <= s < 64,
        b.len() == 64,
        -1 <= df <= 1,
        -1 <= dr <= 1,
        n > 0 ==> 0 <= f < 8 && 0 <= r < 8 && 0 <= along(f, df, n - 1) < 8 && 0 <= along(r, dr, n - 1) < 8,
    ensures
        model::free_run(b, 1u64 << (s as u64), f, r, df, dr, n) == model::free_run(
            b.update(s, None),
            0,
            f,
            r,
            df,
            dr,
            n,
        ),
    decreases n,
{
    if n > 0 {
        lemma_run_without(b, s, f + df, r + dr, df, dr, (n - 1) as nat);
        bits::lemma_member_ops();
        let k = s as u8;
        assert(1u64 << (s as u64) == 1u64 << k);
        assert(bits::member(1u64 << k, r * 8 + f) == (r * 8 + f == s));
    }
}

proof fn lemma_reaches_without(b: Board, p: Piece, e: int, k: int, s: int)
    requires
        b.len() == 64,
        0 <= s < 64,
        0 <= e < 64,
        0 <= k < 64,
    ensures
        model::reaches(b, 1u64 << (s as u64), p, e, k) == model::reaches(b.update(s, None), 0, p, e, k),
{
    let (df, dr) = (
        model::toward(types::file_of(e), types::file_of(k)),
        model::toward(types::rank_of(e), types::rank_of(k)),
    );
    if model::on_line(e, k) || model::on_diagonal(e, k) {
        lemma_run_without(
            b,
            s,
            types::file_of(e) + df,
            types::rank_of(e) + dr,
            df,
            dr,
            (model::king_steps(e, k) - 1) as nat,
        );
    }
}

/// A piece is pinned exactly when it is not the king and, were it taken off the board, an enemy piece would
/// attack the king that does not attack it now.
pub proof fn law_pin(b: Board, c: Color, s: int, k: int)
    requires
        b.len() == 64,
        0 <= s < 64,
        0 <= k < 64,
        b[k] == Some(Piece { pt: PieceType::King, color: c }),
        forall|i: int| 0 <= i < 64 && i != k ==> #[trigger] b[i] != Some(Piece { pt: PieceType::King, color: c }),
    ensures
        model::pinned(b, c, s) <==> (b[s] matches Some(x) && x.color == c) && s != k && exists|e: int|
            #![trigger b[e]]
            0 <= e < 64 && e != s && (b[e] matches Some(y) && y.color != c && model::reaches(
                b.update(s, None),
                0,
                y,
                e,
                k,
            ) && !model::reaches(b, 0, y, e, k)),
{
    lemma_find_king(b, c, 0);
    let off = 1u64 << (s as u64);
    if model::pinned(b, c, s) {
        let e = choose|e: int|
            #![trigger model::attacks_from(b, 0, e, k, c.other())]
            model::attacks_from(b, off, e, k, c.other()) && !model::attacks_from(b, 0, e, k, c.other());
        lemma_reaches_without(b, b[e].unwrap(), e, k, s);
        assert(b[e] is Some);
    }
    if (b[s] matches Some(x) && x.color == c) && s != k && exists|e: int|
        #![trigger b[e]]
        0 <= e < 64 && e != s && (b[e] matches Some(y) && y.color != c && model::reaches(b.update(s, None), 0, y, e, k)
            && !model::reaches(b, 0, y, e, k)) {
        let e = choose|e: int|
            #![trigger b[e]]
            0 <= e < 64 && e != s && (b[e] matches Some(y) && y.color != c && model::reaches(
                b.update(s, None),
                0,
                y,
                e,
                k,
            ) && !model::reaches(b, 0, y, e, k));
        lemma_reaches_without(b, b[e].unwrap(), e, k, s);
        assert(model::attacks_from(b, off, e, k, c.other()) && !model::attacks_from(b, 0, e, k, c.other()));
    }
}

/// An en passant capture is possible exactly when the square is empty, an enemy pawn stands on the square behind
/// it, and some own pawn on a neighbouring file, one rank back, can go there without its king being in check once
/// both squares are vacated.
pub proof fn law_en_passant_possible(b: Board, ep: int, c: Color)
    requires
        0 <= ep < 64,
    ensures
        ({
            let up = if c == Color::White {
                1int
            } else {
                -1int
            };
            let behind = if (ep / 8) % 2 == 0 {
                ep + 8
            } else {
                ep - 8
            };
            model::ep_possible(b, ep, c) <==> {
                &&& b[ep] is None
                &&& b[behind] matches Some(x) && x.pt == PieceType::Pawn && x.color != c
                &&& exists|s: int|
                    #![trigger b[s]]
                    0 <= s < 64 && b[s] == Some(Piece { pt: PieceType::Pawn, color: c }) && size(ep % 8 - s % 8) == 1
                        && ep / 8 - s / 8 == up && !model::in_check(
                        b.update(behind, None).update(s, None).update(
                            ep,
                            Some(Piece { pt: PieceType::Pawn, color: c }),
                        ),
                        c,
                    )
            }
        }),
{
    if model::ep_possible(b, ep, c) {
        let s = choose|s: int| #[trigger] model::ep_from(b, s, ep, c);
        assert(b[s] is Some);
    }
    let up = if c == Color::White {
        1int
    } else {
        -1int
    };
    let behind = types::rank_mate(ep);
    if b[ep] is None && (b[behind] matches Some(x) && x.pt == PieceType::Pawn && x.color != c) && exists|s: int|
        #![trigger b[s]]
        0 <= s < 64 && b[s] == Some(Piece { pt: PieceType::Pawn, color: c }) && size(ep % 8 - s % 8) == 1 && ep / 8 - s
            / 8 == up && !model::in_check(
            b.update(behind, None).update(s, None).update(ep, Some(Piece { pt: PieceType::Pawn, color: c })),
            c,
        ) {
        let s = choose|s: int|
            #![trigger b[s]]
            0 <= s < 64 && b[s] == Some(Piece { pt: PieceType::Pawn, color: c }) && size(ep % 8 - s % 8) == 1 && ep / 8
                - s / 8 == up && !model::in_check(
                b.update(behind, None).update(s, None).update(ep, Some(Piece { pt: PieceType::Pawn, color: c })),
                c,
            );
        assert(model::ep_from(b, s, ep, c));
    }
}

/// The squares that pawns of a color attack: those one rank ahead, on a neighbouring file, of such a pawn.
pub proof fn law_pawn_attacks(b: Board, c: Color, i: int)
    requires
        0 <= i < 64,
    ensures
        queries::pawn_attacked(b, c, i) <==> exists|s: int|
            0 <= s < 64 && #[trigger] b[s] == Some(Piece { pt: PieceType::Pawn, color: c }) && size(i % 8 - s % 8) == 1
                && i / 8 - s / 8 == (if c == Color::White {
                1int
            } else {
                -1int
            }),
{
    if queries::pawn_attacked(b, c, i) {
        let s = choose|s: int|
            0 <= s < 64 && #[trigger] b[s] == model::man(PieceType::Pawn, c) && model::reaches(
                b,
                0,
                Piece { pt: PieceType::Pawn, color: c },
                s,
                i,
            );
        assert(b[s] is Some);
    }
}

} // verus!
