//! Changes to the per-ply stack.

use vstd::prelude::*;
use crate::engine::search::line;
use crate::engine::search::line::{Stack, StackV, MAX_TRACKED_QUIETS};
use crate::moves::Move;
use crate::types::{PieceType, Square, MAX_PLY};

verus! {

/// Ply `ply` changed to `s`, and no other.
pub open spec fn only_ply(a: Seq<Stack>, b: Seq<Stack>, ply: int, s: StackV) -> bool {
    line::stack_ok(b) && line::stack_of(b) == line::stack_of(a).update(ply, s)
}

proof fn lemma_only_ply(a: Seq<Stack>, b: Seq<Stack>, ply: int, s: StackV)
    requires
        line::stack_ok(a),
        0 <= ply < a.len(),
        b.len() == a.len(),
        b[ply].wf(),
        b[ply]@ == s,
        forall|i: int| 0 <= i < a.len() && i != ply ==> b[i] == a[i],
    ensures
        only_ply(a, b, ply, s),
{
    assert forall|i: int| 0 <= i < b.len() implies (#[trigger] b[i]).wf() by {
        if i != ply {
            assert(b[i] == a[i]);
        }
    }
    assert(line::stack_of(b) =~= line::stack_of(a).update(ply, s));
}

/// Forgets the line of a ply.
pub fn clear_line(stack: &mut Vec<Stack>, ply: usize)
    requires
        line::stack_ok(old(stack)@),
        ply <= MAX_PLY,
    ensures
        only_ply(
            old(stack)@,
            final(stack)@,
            ply as int,
            (StackV { pv: Seq::empty(), ..old(stack)@[ply as int]@ }),
        ),
{
    stack[ply].pv.len = 0;
    proof {
        assert(stack@[ply as int].pv@ =~= Seq::<Move>::empty());
        lemma_only_ply(
            old(stack)@,
            stack@,
            ply as int,
            StackV { pv: Seq::empty(), ..old(stack)@[ply as int]@ },
        );
    }
}

/// Notes the static evaluation of a ply.
pub fn set_static_eval(stack: &mut Vec<Stack>, ply: usize, ev: i32)
    requires
        line::stack_ok(old(stack)@),
        ply <= MAX_PLY,
    ensures
        only_ply(
            old(stack)@,
            final(stack)@,
            ply as int,
            (StackV { static_eval: ev, ..old(stack)@[ply as int]@ }),
        ),
{
    stack[ply].static_eval = ev;
    proof {
        lemma_only_ply(
            old(stack)@,
            stack@,
            ply as int,
            StackV { static_eval: ev, ..old(stack)@[ply as int]@ },
        );
    }
}

/// Forgets the quiet moves of a ply.
pub fn clear_quiets(stack: &mut Vec<Stack>, ply: usize)
    requires
        line::stack_ok(old(stack)@),
        ply <= MAX_PLY,
    ensures
        only_ply(
            old(stack)@,
            final(stack)@,
            ply as int,
            (StackV { quiets: Seq::empty(), ..old(stack)@[ply as int]@ }),
        ),
{
    stack[ply].quiet_count = 0;
    proof {
        assert(stack@[ply as int]@.quiets =~= Seq::<Move>::empty());
        lemma_only_ply(
            old(stack)@,
            stack@,
            ply as int,
            StackV { quiets: Seq::empty(), ..old(stack)@[ply as int]@ },
        );
    }
}

/// Remembers a quiet move of a ply.
pub fn push_quiet(stack: &mut Vec<Stack>, ply: usize, mv: Move)
    requires
        line::stack_ok(old(stack)@),
        ply <= MAX_PLY,
        old(stack)@[ply as int].quiet_count < MAX_TRACKED_QUIETS,
    ensures
        only_ply(
            old(stack)@,
            final(stack)@,
            ply as int,
            (StackV { quiets: old(stack)@[ply as int]@.quiets.push(mv), ..old(stack)@[ply as int]@ }),
        ),
{
    let count: usize = stack[ply].quiet_count;
    stack[ply].quiet_moves[count] = mv;
    stack[ply].quiet_count = count + 1;
    proof {
        let before = old(stack)@[ply as int]@.quiets;
        assert(stack@[ply as int]@.quiets =~= before.push(mv));
        lemma_only_ply(
            old(stack)@,
            stack@,
            ply as int,
            StackV { quiets: before.push(mv), ..old(stack)@[ply as int]@ },
        );
    }
}

/// Notes the piece that moves at a ply, and where it goes.
pub fn set_moved(stack: &mut Vec<Stack>, ply: usize, pt: PieceType, to: Square)
    requires
        line::stack_ok(old(stack)@),
        ply <= MAX_PLY,
        to.wf(),
    ensures
        only_ply(
            old(stack)@,
            final(stack)@,
            ply as int,
            (StackV { moved_pt: pt, moved_to: to, ..old(stack)@[ply as int]@ }),
        ),
{
    stack[ply].moved_pt = pt;
    stack[ply].moved_to = to;
    proof {
        lemma_only_ply(
            old(stack)@,
            stack@,
            ply as int,
            StackV { moved_pt: pt, moved_to: to, ..old(stack)@[ply as int]@ },
        );
    }
}

/// Notes that no piece moves at a ply.
pub fn set_moved_pt(stack: &mut Vec<Stack>, ply: usize, pt: PieceType)
    requires
        line::stack_ok(old(stack)@),
        ply <= MAX_PLY,
    ensures
        only_ply(
            old(stack)@,
            final(stack)@,
            ply as int,
            (StackV { moved_pt: pt, ..old(stack)@[ply as int]@ }),
        ),
{
    stack[ply].moved_pt = pt;
    proof {
        lemma_only_ply(old(stack)@, stack@, ply as int, StackV { moved_pt: pt, ..old(stack)@[ply as int]@ });
    }
}

/// Notes whether a ply was reached by passing the turn.
pub fn set_null(stack: &mut Vec<Stack>, ply: usize, flag: bool)
    requires
        line::stack_ok(old(stack)@),
        ply <= MAX_PLY,
    ensures
        only_ply(
            old(stack)@,
            final(stack)@,
            ply as int,
            (StackV { is_null: flag, ..old(stack)@[ply as int]@ }),
        ),
{
    stack[ply].is_null = flag;
    proof {
        lemma_only_ply(old(stack)@, stack@, ply as int, StackV { is_null: flag, ..old(stack)@[ply as int]@ });
    }
}

/// Notes the killers of a ply.
pub fn set_killers(stack: &mut Vec<Stack>, ply: usize, killers: (Move, Move))
    requires
        line::stack_ok(old(stack)@),
        ply <= MAX_PLY,
    ensures
        only_ply(
            old(stack)@,
            final(stack)@,
            ply as int,
            (StackV { killers, ..old(stack)@[ply as int]@ }),
        ),
{
    stack[ply].killers = killers;
    proof {
        lemma_only_ply(old(stack)@, stack@, ply as int, StackV { killers, ..old(stack)@[ply as int]@ });
    }
}

/// Makes `mv`, followed by the line of the next ply, the line of a ply.
pub fn adopt_line(stack: &mut Vec<Stack>, ply: usize, mv: Move)
    requires
        line::stack_ok(old(stack)@),
        ply < MAX_PLY,
    ensures
        only_ply(
            old(stack)@,
            final(stack)@,
            ply as int,
            (StackV { pv: line::joined(mv, old(stack)@[ply + 1]@.pv), ..old(stack)@[ply as int]@ }),
        ),
{
    let tail = stack[ply + 1].pv;
    proof {
        assert(stack@[ply + 1].wf());
    }
    stack[ply].pv.compose(mv, &tail);
    proof {
        lemma_only_ply(
            old(stack)@,
            stack@,
            ply as int,
            StackV { pv: line::joined(mv, old(stack)@[ply + 1]@.pv), ..old(stack)@[ply as int]@ },
        );
    }
}

} // verus!
