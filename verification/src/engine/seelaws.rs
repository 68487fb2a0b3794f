//! What the exchange evaluation says: what a capture is worth once both sides have taken back with their cheapest
//! pieces as long as it pays.

use vstd::prelude::*;
use crate::board::attacklaws;
use crate::board::model;
use crate::board::model::{Board, PositionV};
use crate::engine::chesslaws;
use crate::engine::see;
use crate::moves::Move;
use crate::types::{Color, PieceType};

verus! {

/// The values: a pawn is worth less than a knight, a knight less than a bishop, then rook, queen and king.
pub proof fn law_exchange_values()
    ensures
        see::value_of(PieceType::Pawn) == 100,
        see::value_of(PieceType::Knight) == 320,
        see::value_of(PieceType::Bishop) == 330,
        see::value_of(PieceType::Rook) == 500,
        see::value_of(PieceType::Queen) == 900,
        see::value_of(PieceType::King) == 20_000,
        see::value_of(PieceType::Empty) == 0,
{
}

proof fn lemma_cheapest(b: Board, sq: int, side: Color, k: int)
    requires
        0 <= k <= 384,
    ensures
        k <= see::cheapest(b, sq, side, k) <= 384,
        see::cheapest(b, sq, side, k) < 384 ==> see::strikes(b, sq, side, see::cheapest(b, sq, side, k)),
        forall|j: int| k <= j < see::cheapest(b, sq, side, k) ==> !#[trigger] see::strikes(b, sq, side, j),
    decreases 384 - k,
{
    if k < 384 {
        lemma_cheapest(b, sq, side, k + 1);
    }
}

/// The piece that takes is an attacker of the square, and no attacker is worth less. There is one whenever the
/// square is attacked.
pub proof fn law_cheapest_takes(b: Board, sq: int, side: Color)
    requires
        model::board_ok(b),
    ensures
        ({
            let k = see::cheapest(b, sq, side, 0);
            &&& k < 384 <==> exists|s: int| #[trigger] model::attacks_from(b, 0, s, sq, side)
            &&& k < 384 ==> model::attacks_from(b, 0, k % 64, sq, side)
            &&& k < 384 ==> forall|s: int|
                #[trigger] model::attacks_from(b, 0, s, sq, side) ==> see::value_of(model::type_at(b, k % 64))
                    <= see::value_of(model::type_at(b, s))
        }),
{
    lemma_cheapest(b, sq, side, 0);
    let k = see::cheapest(b, sq, side, 0);
    assert forall|s: int| #[trigger] model::attacks_from(b, 0, s, sq, side) implies k < 384 && see::value_of(
        model::type_at(b, k % 64),
    ) <= see::value_of(model::type_at(b, s)) by {
        assert(b[s] != model::man(PieceType::Empty, Color::White));
        assert(b[s] != model::man(PieceType::Empty, Color::Black));
        let j = model::type_at(b, s).idx() * 64 + s;
        assert(j % 64 == s && j / 64 == model::type_at(b, s).idx());
        assert(see::strikes(b, sq, side, j));
        assert(k <= j);
        assert(k / 64 <= j / 64);
    }
}

/// Taking on a square is voluntary and wins at most what stands there: an exchange is worth nothing when nobody
/// can take, and otherwise what is taken less what the other side then wins by taking back, but never less than
/// nothing.
pub proof fn law_exchange(b: Board, sq: int, side: Color, stake: int, n: nat)
    requires
        model::board_ok(b),
        stake >= 0,
    ensures
        0 <= see::exchange(b, sq, side, stake, n) <= stake,
        (forall|s: int| !#[trigger] model::attacks_from(b, 0, s, sq, side)) ==> see::exchange(b, sq, side, stake, n)
            == 0,
        n > 0 ==> ({
            let s = see::cheapest(b, sq, side, 0) % 64;
            let after = b.update(s, None).update(sq, b[s]);
            let foe = chesslaws::enemy(side);
            let back = see::exchange(after, sq, foe, see::value_of(model::type_at(b, s)), (n - 1) as nat);
            &&& see::cheapest(b, sq, side, 0) < 384 && back <= stake ==> see::exchange(b, sq, side, stake, n) == stake
                - back
            &&& see::cheapest(b, sq, side, 0) < 384 && back > stake ==> see::exchange(b, sq, side, stake, n) == 0
        }),
    decreases n,
{
    law_cheapest_takes(b, sq, side);
    if n > 0 && see::cheapest(b, sq, side, 0) < 384 {
        lemma_reply_bound(b, sq, side, n);
    }
}

proof fn lemma_exchange_floor(b: Board, sq: int, side: Color, stake: int, n: nat)
    ensures
        see::exchange(b, sq, side, stake, n) >= 0,
{
}

proof fn lemma_reply_bound(b: Board, sq: int, side: Color, n: nat)
    requires
        n > 0,
    ensures
        ({
            let s = see::cheapest(b, sq, side, 0) % 64;
            see::exchange(
                see::struck(b, s, sq),
                sq,
                side.other(),
                see::value_of(model::type_at(b, s)),
                (n - 1) as nat,
            ) >= 0
        }),
{
    let s = see::cheapest(b, sq, side, 0) % 64;
    lemma_exchange_floor(
        see::struck(b, s, sq),
        sq,
        side.other(),
        see::value_of(model::type_at(b, s)),
        (n - 1) as nat,
    );
}

/// How many of the squares below `k` other than `sq` are occupied.
spec fn others(b: Board, sq: int, k: nat) -> nat
    decreases k,
{
    if k == 0 {
        0
    } else {
        others(b, sq, (k - 1) as nat) + if b[k - 1] is Some && k - 1 != sq {
            1nat
        } else {
            0nat
        }
    }
}

proof fn lemma_others(b: Board, sq: int, s: int, k: nat)
    requires
        b.len() == 64,
        k <= 64,
        0 <= s < 64,
        0 <= sq < 64,
        s != sq,
        b[s] is Some,
    ensures
        others(see::struck(b, s, sq), sq, k) + (if s < k {
            1int
        } else {
            0int
        }) == others(b, sq, k),
        others(b, sq, k) + (if sq < k {
            1int
        } else {
            0int
        }) <= k,
    decreases k,
{
    if k > 0 {
        lemma_others(b, sq, s, (k - 1) as nat);
    }
}

proof fn lemma_settled(b: Board, sq: int, side: Color, stake: int, n: nat)
    requires
        model::board_ok(b),
        0 <= sq < 64,
        n >= others(b, sq, 64),
    ensures
        see::exchange(b, sq, side, stake, n) == see::exchange(b, sq, side, stake, n + 1),
    decreases n,
{
    law_cheapest_takes(b, sq, side);
    let k = see::cheapest(b, sq, side, 0);
    if k < 384 {
        let s = k % 64;
        assert(model::attacks_from(b, 0, s, sq, side));
        attacklaws::law_attack_geometry(b, b[s].unwrap(), s, sq);
        assert(s != sq);
        lemma_others(b, sq, s, 64);
        let after = see::struck(b, s, sq);
        assert(model::board_ok(after)) by {
            assert forall|i: int| 0 <= i < 64 implies #[trigger] after[i] != model::man(PieceType::Empty, Color::White)
                && after[i] != model::man(PieceType::Empty, Color::Black) by {
                assert(b[i] != model::man(PieceType::Empty, Color::White));
                assert(b[s] != model::man(PieceType::Empty, Color::White));
                assert(b[i] != model::man(PieceType::Empty, Color::Black));
                assert(b[s] != model::man(PieceType::Empty, Color::Black));
            }
        }
        lemma_settled(after, sq, side.other(), see::value_of(model::type_at(b, s)), (n - 1) as nat);
    }
}

proof fn lemma_few_others(b: Board, sq: int, k: nat)
    ensures
        others(b, sq, k) <= k,
    decreases k,
{
    if k > 0 {
        lemma_few_others(b, sq, (k - 1) as nat);
    }
}

/// An exchange goes on until nobody can take or wants to: to allow more than 64 captures changes nothing.
pub proof fn law_exchange_exhaustive(b: Board, sq: int, side: Color, stake: int, n: nat)
    requires
        model::board_ok(b),
        0 <= sq < 64,
        n >= 64,
    ensures
        see::exchange(b, sq, side, stake, n) == see::exchange(b, sq, side, stake, 64),
    decreases n,
{
    if n > 64 {
        law_exchange_exhaustive(b, sq, side, stake, (n - 1) as nat);
        lemma_few_others(b, sq, 64);
        lemma_settled(b, sq, side, stake, (n - 1) as nat);
    }
}

/// The balance of a move. When the enemy cannot take back, it is the value of what is taken, and for a promotion
/// what the new piece is worth more than a pawn. When it can, the exchange that the enemy then begins is taken off,
/// however many captures it has, so that the move loses at most the piece that it puts down. Castling is even.
pub proof fn law_balance(p: PositionV, mv: Move)
    requires
        model::board_ok(p.board),
        model::playable(p.board, p.stm, mv),
    ensures
        ({
            let prize = if mv.kind() == 5 && p.board[mv.dst()] is None {
                100int
            } else {
                match p.board[mv.dst()] {
                    Some(x) => see::value_of(x.pt),
                    None => 0,
                }
            };
            let gain = if mv.kind() == 8 || mv.kind() == 12 {
                220int
            } else if mv.kind() == 9 || mv.kind() == 13 {
                230
            } else if mv.kind() == 10 || mv.kind() == 14 {
                400
            } else if mv.kind() == 11 || mv.kind() == 15 {
                800
            } else {
                0
            };
            let after = model::made(p, mv).board;
            let foe = chesslaws::enemy(p.stm);
            &&& mv.kind() == 2 ==> see::balance(p, mv) == 0
            &&& mv.kind() != 2 && (forall|s: int| !#[trigger] model::attacks_from(after, 0, s, mv.dst(), foe))
                ==> see::balance(p, mv) == prize + gain
            &&& mv.kind() != 2 ==> forall|n: nat|
                n >= 64 ==> see::balance(p, mv) == prize + gain - #[trigger] see::exchange(
                    after,
                    mv.dst(),
                    foe,
                    see::value_of(model::type_at(after, mv.dst())),
                    n,
                )
            &&& mv.kind() != 2 ==> see::balance(p, mv) <= prize + gain
            &&& mv.kind() != 2 ==> see::balance(p, mv) >= prize + gain - see::value_of(
                model::type_at(after, mv.dst()),
            )
        }),
{
    let after = model::made(p, mv).board;
    assert(mv.kind() < 16);
    assert(p.board[mv.dst()] != model::man(PieceType::Empty, Color::White));
    assert(p.board[mv.dst()] != model::man(PieceType::Empty, Color::Black));
    if mv.kind() != 2 {
        let placed = model::put_down(p.board, mv);
        assert(p.board[mv.src()] != model::man(PieceType::Empty, Color::White));
        assert(p.board[mv.src()] != model::man(PieceType::Empty, Color::Black));
        assert(model::board_ok(after)) by {
            assert forall|i: int| 0 <= i < 64 implies #[trigger] after[i] != model::man(PieceType::Empty, Color::White)
                && after[i] != model::man(PieceType::Empty, Color::Black) by {
                assert(p.board[i] != model::man(PieceType::Empty, Color::White));
            }
        }
        assert(after[mv.dst()] == model::man(placed, p.stm));
        law_exchange_values();
        law_exchange(after, mv.dst(), p.stm.other(), see::value_of(placed), 64);
        assert(model::taken(p.board, mv) == model::type_at(p.board, mv.dst()));
        assert(model::type_at(after, mv.dst()) == placed);
        let foe = chesslaws::enemy(p.stm);
        assert(foe == p.stm.other());
        assert forall|n: nat| n >= 64 implies see::balance(p, mv) == see::first_gain(p.board, mv) - #[trigger] see::exchange(
            after,
            mv.dst(),
            foe,
            see::value_of(placed),
            n,
        ) by {
            law_exchange_exhaustive(after, mv.dst(), foe, see::value_of(placed), n);
        }
    }
}

} // verus!
