//! Counting the leaves of the tree of legal moves.

use vstd::prelude::*;
use crate::board::model::PositionV;
use crate::board::position::Position;
use crate::engine::movegen;
use crate::engine::play;
use crate::moves::Move;
use crate::psqt::Vi16x8;

verus! {

/// Number of ways to play `depth` legal moves from `p`.
pub open spec fn leaves(p: PositionV, depth: nat) -> nat
    decreases depth, movegen::legal_moves(p).len() + 1,
{
    if depth == 0 {
        1
    } else {
        leaves_behind(p, movegen::legal_moves(p), movegen::legal_moves(p).len(), depth)
    }
}

/// Number of ways to play `depth` legal moves from `p`, beginning with one of the first `n` of `ms`.
pub open spec fn leaves_behind(p: PositionV, ms: Seq<Move>, n: nat, depth: nat) -> nat
    decreases depth, n,
{
    if n == 0 || depth == 0 {
        0
    } else {
        leaves_behind(p, ms, (n - 1) as nat, depth) + leaves(play::after(p, ms[n - 1]), (depth - 1) as nat)
    }
}

proof fn lemma_last_ply(p: PositionV, ms: Seq<Move>, n: nat)
    ensures
        leaves_behind(p, ms, n, 1) == n,
    decreases n,
{
    if n > 0 {
        assert(leaves(play::after(p, ms[n - 1]), 0) == 1);
        lemma_last_ply(p, ms, (n - 1) as nat);
    }
}

/// Counts the ways to play `depth` legal moves, modulo the range of the counter.
pub fn perft(pos: &mut Position, depth: u8, acc: &mut Vi16x8) -> (r: u64)
    requires
        old(pos).wf(),
        play::room(old(pos)@, depth as int),
    ensures
        final(pos).wf(),
        final(pos)@ == old(pos)@,
        *final(acc) == *old(acc),
        r as int == leaves(old(pos)@, depth as nat) as int % 0x1_0000_0000_0000_0000,
    decreases depth,
{
    if depth == 0 {
        return 1;
    }
    let ghost p = pos@;
    let moves = movegen::gen_legal_moves(pos);
    if depth == 1 {
        proof {
            lemma_last_ply(p, moves@, moves@.len());
        }
        return moves.len() as u64;
    }
    let mut total: u64 = 0;
    let mut i: usize = 0;
    proof {
        movegen::law_legal_moves_exact(p);
    }
    while i < moves.len()
        invariant
            i <= moves.len(),
            depth > 1,
            pos.wf(),
            pos@ == p,
            p == old(pos)@,
            play::room(p, depth as int),
            *acc == *old(acc),
            moves@ == movegen::legal_moves(p),
            forall|mv: Move| movegen::legal_moves(p).contains(mv) <==> #[trigger] movegen::legal(p, mv),
            total as int == leaves_behind(p, moves@, i as nat, depth as nat) as int % 0x1_0000_0000_0000_0000,
        decreases moves.len() - i,
    {
        let mv = moves[i];
        proof {
            assert(moves@.contains(mv));
            assert(movegen::legal(p, mv));
        }
        let ghost before = *pos;
        let saved = *acc;
        let undo = play::play(pos, mv, acc);
        let below: u64 = perft(pos, depth - 1, acc);
        play::take_back(pos, mv, &undo, Ghost(before));
        *acc = saved;
        total = total.wrapping_add(below);
        i = i + 1;
    }
    total
}

} // verus!
