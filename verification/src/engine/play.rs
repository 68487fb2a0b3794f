//! Playing a move and taking it back, as the search does.

use vstd::prelude::*;
use crate::board::laws;
use crate::board::model;
use crate::board::model::{InfoV, PositionV};
use crate::board::position::{Position, StateInfo};
use crate::engine::movegen;
use crate::moves::Move;
use crate::psqt::Vi16x8;
use crate::types::{Color, PieceType};

verus! {

/// The position after a move.
#[verifier::opaque]
pub open spec fn after(p: PositionV, mv: Move) -> PositionV {
    model::made(p, mv)
}

/// The accumulator after a move.
#[verifier::opaque]
pub open spec fn acc_after(acc: Seq<i16>, p: PositionV, mv: Move) -> Seq<i16> {
    model::acc_after(acc, p.board, p.stm, mv)
}

/// What is needed to take `mv` back.
#[verifier::opaque]
pub open spec fn receipt(p: PositionV, mv: Move) -> InfoV {
    model::snapshot(p, model::taken(p.board, mv))
}

/// The position after passing the turn.
#[verifier::opaque]
pub open spec fn after_pass(p: PositionV) -> PositionV {
    model::passed(p)
}

/// What is needed to take a pass back.
#[verifier::opaque]
pub open spec fn pass_receipt(p: PositionV) -> InfoV {
    model::snapshot(p, PieceType::Empty)
}

/// The full-move counter has room for `n` more half-moves. Only Black's moves count.
pub open spec fn room(p: PositionV, n: int) -> bool {
    p.fullmove_number + (if p.stm == Color::Black {
        (n + 1) / 2
    } else {
        n / 2
    }) <= u16::MAX
}

/// Plays a pseudo-legal move.
pub fn play(pos: &mut Position, mv: Move, acc: &mut Vi16x8) -> (undo: StateInfo)
    requires
        old(pos).wf(),
        movegen::pseudo_legal(old(pos)@, mv),
        room(old(pos)@, 1),
    ensures
        final(pos).wf(),
        final(pos)@ == after(old(pos)@, mv),
        final(acc)@ == acc_after(old(acc)@, old(pos)@, mv),
        undo@ == receipt(old(pos)@, mv),
        forall|n: int| n >= 1 && #[trigger] room(old(pos)@, n) ==> room(final(pos)@, n - 1),
        final(pos).halfmove_clock <= old(pos).halfmove_clock + 1,
{
    proof {
        movegen::law_pseudo_legal_playable(*pos, mv);
        reveal(after);
        reveal(acc_after);
        reveal(receipt);
    }
    pos.make_move(mv, acc)
}

/// Takes `mv` back, which was played in the position `before`.
pub(crate) fn take_back(pos: &mut Position, mv: Move, undo: &StateInfo, Ghost(before): Ghost<Position>)
    requires
        before.wf(),
        movegen::pseudo_legal(before@, mv),
        room(before@, 1),
        old(pos).wf(),
        old(pos)@ == after(before@, mv),
        undo@ == receipt(before@, mv),
    ensures
        *final(pos) == before,
{
    proof {
        movegen::law_pseudo_legal_playable(before, mv);
        laws::law_board_ok(before);
        laws::law_unmake_restores(before@, mv);
        reveal(after);
        reveal(receipt);
        assert(before.stm.other().other() == before.stm);
    }
    pos.unmake_move(mv, undo);
    proof {
        laws::law_view_faithful(*pos, before);
    }
}

/// Passes the turn.
pub fn pass(pos: &mut Position) -> (undo: StateInfo)
    requires
        old(pos).wf(),
        old(pos).halfmove_clock < 255,
    ensures
        final(pos).wf(),
        final(pos)@ == after_pass(old(pos)@),
        undo@ == pass_receipt(old(pos)@),
        forall|n: int| n >= 1 && #[trigger] room(old(pos)@, n) ==> room(final(pos)@, n - 1),
        final(pos).halfmove_clock == old(pos).halfmove_clock + 1,
{
    proof {
        reveal(after_pass);
        reveal(pass_receipt);
    }
    pos.make_null_move()
}

/// Takes a pass back, which was made in the position `before`.
pub(crate) fn take_back_pass(pos: &mut Position, undo: &StateInfo, Ghost(before): Ghost<Position>)
    requires
        before.wf(),
        old(pos).wf(),
        old(pos)@ == after_pass(before@),
        undo@ == pass_receipt(before@),
    ensures
        *final(pos) == before,
{
    proof {
        reveal(after_pass);
        reveal(pass_receipt);
        assert(before.stm.other().other() == before.stm);
    }
    pos.unmake_null_move(undo);
    proof {
        laws::law_view_faithful(*pos, before);
    }
}

} // verus!
