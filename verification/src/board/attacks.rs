//! Attack and threat detection.

use vstd::prelude::*;
use crate::bits;
use crate::board::model;
use crate::board::model::{Board, Piece};
use crate::board::position;
use crate::board::position::Position;
use crate::types;
use crate::types::{Bitboard, Color, PieceType, Square};

verus! {

fn span(a: u8, b: u8) -> (d: u8)
    ensures
        d == model::gap(a as int, b as int),
{
    if a <= b {
        b - a
    } else {
        a - b
    }
}

fn direction(a: u8, b: u8) -> (d: i8)
    ensures
        d == model::toward(a as int, b as int),
{
    if a < b {
        1
    } else if a > b {
        -1
    } else {
        0
    }
}

/// Does every step from `cur` for `n` steps of direction `d` stay on the board and end on `end`?
spec fn leads(cur: int, d: int, n: int, end: int) -> bool {
    &&& 0 <= cur < 8
    &&& 0 <= end < 8
    &&& d == 1 ==> cur + n == end
    &&& d == -1 ==> cur - n == end
    &&& d == 0 ==> cur == end
    &&& -1 <= d <= 1
}

/// Nothing in `occ` stands between two different squares on a common line or diagonal.
fn path_is_open(occ: Bitboard, from: Square, to: Square, Ghost(b): Ghost<Board>, Ghost(off): Ghost<u64>) -> (r: bool)
    requires
        from.wf(),
        to.wf(),
        model::on_line(from.0 as int, to.0 as int) || model::on_diagonal(from.0 as int, to.0 as int),
        forall|i: int| 0 <= i < 64 ==> occ.on(i) == model::blocks(b, off, i),
    ensures
        r == model::open_path(b, off, from.0 as int, to.0 as int),
{
    let df: i8 = direction(from.file(), to.file());
    let dr: i8 = direction(from.rank(), to.rank());
    let fs: u8 = span(from.file(), to.file());
    let rs: u8 = span(from.rank(), to.rank());
    let steps: u8 = if fs >= rs {
        fs
    } else {
        rs
    };
    let mut f: i8 = from.file() as i8 + df;
    let mut r: i8 = from.rank() as i8 + dr;
    let mut n: u8 = steps - 1;
    let ghost target = model::open_path(b, off, from.0 as int, to.0 as int);
    while n > 0
        invariant
            forall|i: int| 0 <= i < 64 ==> occ.on(i) == model::blocks(b, off, i),
            leads(f as int, df as int, n as int, types::file_of(to.0 as int)),
            leads(r as int, dr as int, n as int, types::rank_of(to.0 as int)),
            target == model::open_path(b, off, from.0 as int, to.0 as int),
            target == model::free_run(b, off, f as int, r as int, df as int, dr as int, n as nat),
        decreases n,
    {
        if occ.check_bit(Square((r * 8 + f) as u8)) {
            return false;
        }
        f = f + df;
        r = r + dr;
        n = n - 1;
    }
    true
}

/// Does piece `p` on `from` attack `to`, given the occupied squares?
pub(crate) fn piece_reaches(
    occ: Bitboard,
    p: Piece,
    from: Square,
    to: Square,
    Ghost(b): Ghost<Board>,
    Ghost(off): Ghost<u64>,
) -> (r: bool)
    requires
        from.wf(),
        to.wf(),
        forall|i: int| 0 <= i < 64 ==> occ.on(i) == model::blocks(b, off, i),
    ensures
        r == model::reaches(b, off, p, from.0 as int, to.0 as int),
{
    let fg: u8 = span(from.file(), to.file());
    let rg: u8 = span(from.rank(), to.rank());
    let line = from.0 != to.0 && (fg == 0 || rg == 0);
    let diagonal = from.0 != to.0 && fg == rg;
    match p.pt {
        PieceType::Pawn => fg == 1 && match p.color {
            Color::White => to.rank() == from.rank() + 1,
            Color::Black => from.rank() == to.rank() + 1,
        },
        PieceType::Knight => (fg == 1 && rg == 2) || (fg == 2 && rg == 1),
        PieceType::Bishop => diagonal && path_is_open(occ, from, to, Ghost(b), Ghost(off)),
        PieceType::Rook => line && path_is_open(occ, from, to, Ghost(b), Ghost(off)),
        PieceType::Queen => (line || diagonal) && path_is_open(occ, from, to, Ghost(b), Ghost(off)),
        PieceType::King => (fg == 1 && rg <= 1) || (rg == 1 && fg <= 1),
        PieceType::Empty => false,
    }
}

/// The squares of `pos` that block a line when those of `off` count as empty.
fn blockers(pos: &Position, off: Bitboard) -> (occ: Bitboard)
    requires
        pos.wf(),
    ensures
        forall|i: int| 0 <= i < 64 ==> occ.on(i) == model::blocks(pos@.board, off.0, i),
{
    let occ = pos.occ.without(off);
    proof {
        assert forall|i: int| 0 <= i < 64 implies occ.on(i) == model::blocks(pos@.board, off.0, i) by {
            assert(pos.square_ok(i));
        }
    }
    occ
}

/// Is `sq` attacked by any piece of `attacker`'s color?
///
/// With `VIRTUAL` the squares of `mask_out` do not block lines.
pub fn is_attacked<const VIRTUAL: bool>(pos: &Position, sq: Square, attacker: Color, mask_out: Bitboard) -> (r: bool)
    requires
        pos.wf(),
        sq.wf(),
    ensures
        r == model::attacked(
            pos@.board,
            if VIRTUAL {
                mask_out.0
            } else {
                0
            },
            sq.0 as int,
            attacker,
        ),
{
    let off = if VIRTUAL {
        mask_out
    } else {
        Bitboard::empty()
    };
    let occ = blockers(pos, off);
    let mut s: u8 = 0;
    while s < 64
        invariant
            s <= 64,
            sq.wf(),
            pos.wf(),
            off.0 == (if VIRTUAL {
                mask_out.0
            } else {
                0
            }),
            forall|i: int| 0 <= i < 64 ==> occ.on(i) == model::blocks(pos@.board, off.0, i),
            forall|i: int| 0 <= i < s ==> !model::attacks_from(pos@.board, off.0, i, sq.0 as int, attacker),
        decreases 64 - s,
    {
        match pos.man_at(Square(s)) {
            Some(p) => {
                if p.color == attacker && piece_reaches(
                    occ,
                    p,
                    Square(s),
                    sq,
                    Ghost(pos@.board),
                    Ghost(off.0),
                ) {
                    proof {
                        assert(model::attacks_from(pos@.board, off.0, s as int, sq.0 as int, attacker));
                    }
                    return true;
                }
            },
            None => {},
        }
        s = s + 1;
    }
    false
}

/// All pieces of `attacker`'s color that attack `sq`.
pub fn attackers_of(pos: &Position, sq: Square, attacker: Color) -> (r: Bitboard)
    requires
        pos.wf(),
        sq.wf(),
    ensures
        forall|i: int|
            0 <= i < 64 ==> #[trigger] r.on(i) == model::attacks_from(pos@.board, 0, i, sq.0 as int, attacker),
{
    let occ = blockers(pos, Bitboard::empty());
    let mut r = Bitboard::empty();
    let mut s: u8 = 0;
    while s < 64
        invariant
            s <= 64,
            sq.wf(),
            pos.wf(),
            forall|i: int| 0 <= i < 64 ==> occ.on(i) == model::blocks(pos@.board, 0, i),
            forall|i: int|
                0 <= i < 64 ==> #[trigger] r.on(i) == (i < s && model::attacks_from(
                    pos@.board,
                    0,
                    i,
                    sq.0 as int,
                    attacker,
                )),
        decreases 64 - s,
    {
        match pos.man_at(Square(s)) {
            Some(p) => {
                if p.color == attacker && piece_reaches(occ, p, Square(s), sq, Ghost(pos@.board), Ghost(0)) {
                    r.set_bit(Square(s));
                }
            },
            None => {},
        }
        s = s + 1;
    }
    r
}

pub proof fn lemma_find_king(b: Board, c: Color, i: int)
    requires
        0 <= i <= 64,
    ensures
        i <= model::find_king(b, c, i) <= 64,
        model::find_king(b, c, i) < 64 ==> b[model::find_king(b, c, i)] == model::man(PieceType::King, c),
        forall|j: int| i <= j < model::find_king(b, c, i) ==> b[j] != model::man(PieceType::King, c),
    decreases 64 - i,
{
    if i < 64 && b[i] != model::man(PieceType::King, c) {
        lemma_find_king(b, c, i + 1);
    }
}

/// The square of `color`'s king; `None` when it has no king.
pub fn king_square(pos: &Position, color: Color) -> (k: Option<Square>)
    ensures
        k matches Some(sq) ==> sq.wf() && sq.0 == model::king_at(pos@.board, color),
        k is None ==> model::king_at(pos@.board, color) == 64,
{
    let mut s: u8 = 0;
    while s < 64
        invariant
            s <= 64,
            model::king_at(pos@.board, color) == model::find_king(pos@.board, color, s as int),
        decreases 64 - s,
    {
        match pos.man_at(Square(s)) {
            Some(p) => {
                if p.pt == PieceType::King && p.color == color {
                    return Some(Square(s));
                }
            },
            None => {},
        }
        s = s + 1;
    }
    None
}

/// Is `color`'s king attacked?
pub fn king_in_check(pos: &Position, color: Color) -> (r: bool)
    requires
        pos.wf(),
    ensures
        r == model::in_check(pos@.board, color),
{
    match king_square(pos, color) {
        Some(k) => is_attacked::<false>(pos, k, color.opposite(), Bitboard::empty()),
        None => false,
    }
}

/// The enemy pieces that give check to the side to move.
pub fn checkers(pos: &Position) -> (r: Bitboard)
    requires
        pos.wf(),
    ensures
        forall|i: int|
            0 <= i < 64 ==> #[trigger] r.on(i) == (model::king_at(pos@.board, pos.stm) < 64 && model::attacks_from(
                pos@.board,
                0,
                i,
                model::king_at(pos@.board, pos.stm),
                pos.stm.other(),
            )),
        (r.0 != 0) == model::in_check(pos@.board, pos.stm),
{
    let r = match king_square(pos, pos.stm) {
        Some(k) => attackers_of(pos, k, pos.stm.opposite()),
        None => Bitboard::empty(),
    };
    proof {
        bits::lemma_zero_iff_empty(r.0);
        bits::lemma_member_ops();
        let k = model::king_at(pos@.board, pos.stm);
        if r.0 != 0 {
            let i = choose|i: int| bits::member(r.0, i);
            assert(r.on(i));
            assert(model::attacks_from(pos@.board, 0, i, k, pos.stm.other()));
        }
        if model::in_check(pos@.board, pos.stm) {
            let i = choose|i: int| model::attacks_from(pos@.board, 0, i, k, pos.stm.other());
            assert(r.on(i));
        }
    }
    r
}

/// Can any pawn of `color` legally capture en passant on `ep_sq`?
pub fn can_capture_ep(pos: &Position, ep_sq: Square, color: Color) -> (r: bool)
    requires
        pos.wf(),
        ep_sq.wf(),
    ensures
        r == model::ep_possible(pos@.board, ep_sq.0 as int, color),
{
    let victim = ep_sq.toggle_rank();
    let pawn = Piece { pt: PieceType::Pawn, color };
    if pos.man_at(ep_sq).is_some() {
        return false;
    }
    match pos.man_at(victim) {
        Some(p) => {
            if p.pt != PieceType::Pawn || p.color != color.opposite() {
                return false;
            }
        },
        None => {
            return false;
        },
    }
    let occ = blockers(pos, Bitboard::empty());
    let ghost b = pos@.board;
    let mut s: u8 = 0;
    while s < 64
        invariant
            s <= 64,
            pos.wf(),
            ep_sq.wf(),
            victim.wf(),
            victim.0 == types::rank_mate(ep_sq.0 as int),
            b == pos@.board,
            b[ep_sq.0 as int] is None,
            b[victim.0 as int] == model::man(PieceType::Pawn, color.other()),
            pawn == (Piece { pt: PieceType::Pawn, color }),
            forall|i: int| 0 <= i < 64 ==> occ.on(i) == model::blocks(b, 0, i),
            forall|i: int| 0 <= i < s ==> !model::ep_from(b, i, ep_sq.0 as int, color),
        decreases 64 - s,
    {
        match pos.man_at(Square(s)) {
            Some(p) => {
                if p.pt == PieceType::Pawn && p.color == color && piece_reaches(
                    occ,
                    pawn,
                    Square(s),
                    ep_sq,
                    Ghost(b),
                    Ghost(0),
                ) {
                    let mut after = *pos;
                    position::update_piece::<false>(&mut after, victim, PieceType::Pawn, color.opposite());
                    position::update_piece::<false>(&mut after, Square(s), PieceType::Pawn, color);
                    position::update_piece::<true>(&mut after, ep_sq, PieceType::Pawn, color);
                    if !king_in_check(&after, color) {
                        proof {
                            assert(model::ep_from(b, s as int, ep_sq.0 as int, color));
                        }
                        return true;
                    }
                }
            },
            None => {},
        }
        s = s + 1;
    }
    false
}

/// Does the piece on `s` shield the king on `k` from a piece of `enemy`?
fn is_shield(pos: &Position, k: Square, s: Square, enemy: Color) -> (r: bool)
    requires
        pos.wf(),
        k.wf(),
        s.wf(),
    ensures
        r == exists|e: int|
            #![trigger model::attacks_from(pos@.board, 0, e, k.0 as int, enemy)]
            model::attacks_from(pos@.board, 1u64 << (s.0 as u64), e, k.0 as int, enemy) && !model::attacks_from(
                pos@.board,
                0,
                e,
                k.0 as int,
                enemy,
            ),
{
    let mask = Bitboard(1u64 << (s.0 as u64));
    let full = blockers(pos, Bitboard::empty());
    let lifted = blockers(pos, mask);
    let ghost b = pos@.board;
    let mut e: u8 = 0;
    while e < 64
        invariant
            e <= 64,
            pos.wf(),
            k.wf(),
            b == pos@.board,
            mask.0 == 1u64 << (s.0 as u64),
            forall|i: int| 0 <= i < 64 ==> full.on(i) == model::blocks(b, 0, i),
            forall|i: int| 0 <= i < 64 ==> lifted.on(i) == model::blocks(b, mask.0, i),
            forall|i: int|
                #![trigger model::attacks_from(b, 0, i, k.0 as int, enemy)]
                0 <= i < e ==> !(model::attacks_from(b, mask.0, i, k.0 as int, enemy) && !model::attacks_from(
                    b,
                    0,
                    i,
                    k.0 as int,
                    enemy,
                )),
        decreases 64 - e,
    {
        match pos.man_at(Square(e)) {
            Some(p) => {
                if p.color == enemy && piece_reaches(lifted, p, Square(e), k, Ghost(b), Ghost(mask.0))
                    && !piece_reaches(full, p, Square(e), k, Ghost(b), Ghost(0)) {
                    proof {
                        assert(model::attacks_from(b, mask.0, e as int, k.0 as int, enemy) && !model::attacks_from(
                            b,
                            0,
                            e as int,
                            k.0 as int,
                            enemy,
                        ));
                    }
                    return true;
                }
            },
            None => {},
        }
        e = e + 1;
    }
    false
}

/// The pieces of `color` that are pinned to their king.
pub fn pinned_pieces(pos: &Position, color: Color) -> (r: Bitboard)
    requires
        pos.wf(),
    ensures
        forall|i: int| 0 <= i < 64 ==> #[trigger] r.on(i) == model::pinned(pos@.board, color, i),
{
    let mut r = Bitboard::empty();
    let k = match king_square(pos, color) {
        Some(k) => k,
        None => {
            return r;
        },
    };
    let mut s: u8 = 0;
    while s < 64
        invariant
            s <= 64,
            pos.wf(),
            k.wf(),
            k.0 == model::king_at(pos@.board, color),
            forall|i: int| 0 <= i < 64 ==> #[trigger] r.on(i) == (i < s && model::pinned(pos@.board, color, i)),
        decreases 64 - s,
    {
        match pos.man_at(Square(s)) {
            Some(p) => {
                if p.color == color && s != k.0 && is_shield(pos, k, Square(s), color.opposite()) {
                    r.set_bit(Square(s));
                }
            },
            None => {},
        }
        s = s + 1;
    }
    r
}

} // verus!
