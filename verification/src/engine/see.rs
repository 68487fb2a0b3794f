//! Static exchange evaluation: what a series of captures on one square wins or loses.

use vstd::prelude::*;
use crate::arith;
use crate::board::attacks;
use crate::board::laws;
use crate::board::model;
use crate::board::model::{Board, PositionV};
use crate::board::position::Position;
use crate::engine::movegen;
use crate::moves::Move;
use crate::types::{Color, PieceType, Square};

verus! {

/// Exchange value of each piece type.
pub const SEE_VALUE: [i32; 7] = [100, 320, 330, 500, 900, 20_000, 0];

pub open spec fn value_of(pt: PieceType) -> int {
    SEE_VALUE[pt.idx()] as int
}

/// Attacker number `k` of `sq`: a piece of `side` of type number `k / 64` on square `k % 64`.
pub open spec fn strikes(b: Board, sq: int, side: Color, k: int) -> bool {
    model::attacks_from(b, 0, k % 64, sq, side) && model::type_at(b, k % 64).idx() == k / 64
}

/// The cheapest attacker of `sq` from number `k` on; 384 when there is none.
pub open spec fn cheapest(b: Board, sq: int, side: Color, k: int) -> int
    decreases 384 - k,
{
    if k >= 384 {
        384
    } else if strikes(b, sq, side, k) {
        k
    } else {
        cheapest(b, sq, side, k + 1)
    }
}

/// The board after the piece on `s` captured on `sq`.
pub open spec fn struck(b: Board, s: int, sq: int) -> Board {
    b.update(s, None).update(sq, b[s])
}

/// What `side` wins by taking a piece worth `stake` on `sq`, both sides taking with their cheapest piece as
/// long as it pays, in at most `n` captures.
pub open spec fn exchange(b: Board, sq: int, side: Color, stake: int, n: nat) -> int
    decreases n,
{
    let k = cheapest(b, sq, side, 0);
    if n == 0 || k >= 384 {
        0
    } else {
        let s = k % 64;
        let reply = exchange(
            struck(b, s, sq),
            sq,
            side.other(),
            value_of(model::type_at(b, s)),
            (n - 1) as nat,
        );
        arith::larger(0, stake - reply)
    }
}

/// What `mv` takes and gains by promotion.
pub open spec fn first_gain(b: Board, mv: Move) -> int {
    let prize = if model::takes_ep(b, mv) {
        value_of(PieceType::Pawn)
    } else {
        value_of(model::taken(b, mv))
    };
    match mv.promoted() {
        Some(pt) => prize + value_of(pt) - value_of(PieceType::Pawn),
        None => prize,
    }
}

/// The balance of the exchange that `mv` begins.
pub open spec fn balance(p: PositionV, mv: Move) -> int {
    if mv.castles() {
        0
    } else {
        first_gain(p.board, mv) - exchange(
            model::board_after(p.board, p.stm, mv),
            mv.dst(),
            p.stm.other(),
            value_of(model::put_down(p.board, mv)),
            64,
        )
    }
}

fn find_cheapest(pos: &Position, sq: Square, side: Color) -> (k: u16)
    requires
        pos.wf(),
        sq.wf(),
    ensures
        k == cheapest(pos@.board, sq.0 as int, side, 0),
        k <= 384,
        k < 384 ==> strikes(pos@.board, sq.0 as int, side, k as int),
{
    let attackers = attacks::attackers_of(pos, sq, side);
    let mut k: u16 = 0;
    while k < 384
        invariant
            k <= 384,
            pos.wf(),
            forall|i: int|
                0 <= i < 64 ==> #[trigger] attackers.on(i) == model::attacks_from(
                    pos@.board,
                    0,
                    i,
                    sq.0 as int,
                    side,
                ),
            cheapest(pos@.board, sq.0 as int, side, 0) == cheapest(pos@.board, sq.0 as int, side, k as int),
        decreases 384 - k,
    {
        let s = Square((k % 64) as u8);
        if attackers.check_bit(s) && pos.piece_at(s).as_usize() == (k / 64) as usize {
            return k;
        }
        k = k + 1;
    }
    k
}

fn run_exchange(pos: &Position, sq: Square, side: Color, stake: i32, n: u32) -> (r: i32)
    requires
        pos.wf(),
        sq.wf(),
        0 <= stake <= 20_000,
        pos@.board[sq.0 as int] matches Some(m) && m.color == side.other(),
    ensures
        r == exchange(pos@.board, sq.0 as int, side, stake as int, n as nat),
        0 <= r <= 20_000,
    decreases n,
{
    let k: u16 = find_cheapest(pos, sq, side);
    if n == 0 || k >= 384 {
        return 0;
    }
    let s = Square((k % 64) as u8);
    let attacker = pos.piece_at(s);
    let target = pos.piece_at(sq);
    let mut q = *pos;
    q.remove_piece(s, attacker, side);
    q.remove_piece(sq, target, side.opposite());
    q.add_piece(sq, attacker, side);
    proof {
        assert(q@.board =~= struck(pos@.board, s.0 as int, sq.0 as int));
        assert(side.other().other() == side);
    }
    let worth: i32 = SEE_VALUE[attacker.as_usize()];
    let reply: i32 = run_exchange(&q, sq, side.opposite(), worth, n - 1);
    arith::max(0, stake - reply)
}

/// Does the exchange that `mv` begins come out at `threshold` or better?
pub fn see_ge(pos: &Position, mv: Move, threshold: i32) -> (r: bool)
    requires
        pos.wf(),
        movegen::pseudo_legal(pos@, mv),
    ensures
        r == (balance(pos@, mv) >= threshold),
{
    if mv.is_castling() {
        return 0 >= threshold;
    }
    proof {
        movegen::law_pseudo_legal_playable(*pos, mv);
        laws::law_board_ok(*pos);
    }
    let victim = pos.piece_at(mv.to());
    let prize: i32 = if victim == PieceType::Empty && mv.is_en_passant() {
        SEE_VALUE[0]
    } else {
        SEE_VALUE[victim.as_usize()]
    };
    let promo = mv.promo();
    let gain: i32 = match promo {
        Some(pt) => prize + SEE_VALUE[pt.as_usize()] - SEE_VALUE[0],
        None => prize,
    };
    let placed = match promo {
        Some(pt) => pt,
        None => pos.piece_at(mv.from()),
    };
    let q = movegen::board_trial(pos, mv);
    proof {
        assert(pos.stm.other().other() == pos.stm);
    }
    let reply: i32 = run_exchange(&q, mv.to(), pos.stm.opposite(), SEE_VALUE[placed.as_usize()], 64);
    gain - reply >= threshold
}

} // verus!
