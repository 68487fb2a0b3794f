//! Pseudo-legal and legal moves.

use vstd::prelude::*;
use crate::bits;
use crate::board::attacks;
use crate::board::laws;
use crate::board::model;
use crate::board::model::{Board, Piece, PositionV};
use crate::board::position::Position;
use crate::board::queries;
use crate::moves;
use crate::moves::Move;
use crate::types;
use crate::types::{Bitboard, Color, PieceType, Square};

verus! {

/// King origin, rook origin, king destination and rook destination of the four usual castling moves,
/// in the order of the rights.
pub const CASTLE_DATA: [[u8; 4]; 4] = [[4, 7, 6, 5], [4, 0, 2, 3], [60, 63, 62, 61], [60, 56, 58, 59]];

/// The squares on which the king must not be attacked in the usual castling moves.
pub const CASTLE_PATH: [[u8; 3]; 4] = [[4, 5, 6], [4, 3, 2], [60, 61, 62], [60, 59, 58]];

/// The squares that must be empty in the usual castling moves.
pub const CASTLE_GAP: [u64; 4] = [0x60, 0x0e, 0x6000_0000_0000_0000, 0x0e00_0000_0000_0000];

/// The move of kind `kind` from `s` to `d`.
pub open spec fn encoded(s: int, d: int, kind: int) -> Move {
    Move((s + d * 64 + kind * 4096) as u16)
}

/// The slot of the castling right that a king of color `c` on `s` uses with a rook on `d`.
pub open spec fn castle_slot(c: Color, s: int, d: int) -> int {
    let long = if d < s {
        1int
    } else {
        0int
    };
    2 * c.idx() + long
}

/// The bit of a castling right.
pub open spec fn right_bit(slot: int) -> u8 {
    if slot == 0 {
        1
    } else if slot == 1 {
        2
    } else if slot == 2 {
        4
    } else {
        8
    }
}

/// All occupied squares of a board, as a bitboard.
pub open spec fn is_occupancy(b: Board, occ: u64) -> bool {
    forall|i: int| 0 <= i < 64 ==> #[trigger] bits::member(occ, i) == (b[i] is Some)
}

/// The occupied squares, as a bitboard.
pub open spec fn occupancy_of(b: Board) -> u64 {
    choose|occ: u64| is_occupancy(b, occ)
}

/// The king on `s` may castle with the rook on `d`: both stand on the home rank, the right is held for
/// that rook, and the way is clear and safe.
pub open spec fn may_castle(p: PositionV, s: int, d: int) -> bool {
    let slot = castle_slot(p.stm, s, d);
    let home = p.stm.home_rank();
    &&& p.board[s] == model::man(PieceType::King, p.stm)
    &&& p.board[d] == model::man(PieceType::Rook, p.stm)
    &&& types::rank_of(s) == home
    &&& types::rank_of(d) == home
    &&& p.castling_rights & right_bit(slot) != 0
    &&& p.castling_rooks[slot].0 == d
    &&& queries::castle_legal(
        p.board,
        occupancy_of(p.board),
        s,
        d,
        CASTLE_DATA[slot]@,
        CASTLE_PATH[slot]@,
        CASTLE_GAP[slot],
        p.stm.other(),
    )
}

/// One step forward for a pawn of color `c`.
pub open spec fn forward(c: Color) -> int {
    match c {
        Color::White => 1,
        Color::Black => -1,
    }
}

/// The rank that pawns of color `c` start on.
pub open spec fn pawn_rank(c: Color) -> int {
    match c {
        Color::White => 1,
        Color::Black => 6,
    }
}

/// The four promotions from `s` to `d`, or the plain move of kind `plain` where `d` is not on the last rank.
pub open spec fn pawn_arrivals(c: Color, s: int, d: int, plain: int) -> Seq<Move> {
    if types::rank_of(d) == c.other().home_rank() {
        seq![
            encoded(s, d, 8 + plain),
            encoded(s, d, 9 + plain),
            encoded(s, d, 10 + plain),
            encoded(s, d, 11 + plain),
        ]
    } else {
        seq![encoded(s, d, plain)]
    }
}

/// The moves of the pawn on `s` to `d`.
pub open spec fn pawn_moves(p: PositionV, s: int, d: int) -> Seq<Move> {
    let (b, c) = (p.board, p.stm);
    let up = types::rank_of(d) - types::rank_of(s);
    let slant = model::reaches(b, 0, Piece { pt: PieceType::Pawn, color: c }, s, d);
    if slant && b[d] is Some {
        pawn_arrivals(c, s, d, 4)
    } else if slant && p.en_passant == Some(Square(d as u8)) && b[types::rank_mate(d)] == model::man(
        PieceType::Pawn,
        c.other(),
    ) {
        seq![encoded(s, d, 5)]
    } else if model::file_gap(s, d) == 0 && up == forward(c) && b[d] is None {
        pawn_arrivals(c, s, d, 0)
    } else if model::file_gap(s, d) == 0 && up == 2 * forward(c) && types::rank_of(s) == pawn_rank(c) && b[d] is None
        && b[s + 8 * forward(c)] is None {
        seq![encoded(s, d, 1)]
    } else {
        Seq::empty()
    }
}

/// The pseudo-legal moves from `s` to `d`.
pub open spec fn moves_between(p: PositionV, s: int, d: int) -> Seq<Move> {
    let b = p.board;
    if b[s] is None || b[s].unwrap().color != p.stm {
        Seq::empty()
    } else if b[d] matches Some(t) && t.color == p.stm {
        if may_castle(p, s, d) {
            seq![encoded(s, d, 2)]
        } else {
            Seq::empty()
        }
    } else if b[s].unwrap().pt == PieceType::Pawn {
        pawn_moves(p, s, d)
    } else if model::reaches(b, 0, b[s].unwrap(), s, d) {
        seq![encoded(
            s,
            d,
            if b[d] is Some {
                4
            } else {
                0
            },
        )]
    } else {
        Seq::empty()
    }
}

/// `mv` follows the way its piece moves; it may leave the own king in check.
pub open spec fn pseudo_legal(p: PositionV, mv: Move) -> bool {
    moves_between(p, mv.src(), mv.dst()).contains(mv)
}

/// The pseudo-legal moves of the first `n` of the 4096 pairs of squares.
pub open spec fn pseudo_upto(p: PositionV, n: int) -> Seq<Move>
    decreases n,
{
    if n <= 0 {
        Seq::empty()
    } else {
        pseudo_upto(p, n - 1) + moves_between(p, (n - 1) / 64, (n - 1) % 64)
    }
}

/// All pseudo-legal moves, by origin square and then by destination square.
pub open spec fn pseudo_moves(p: PositionV) -> Seq<Move> {
    pseudo_upto(p, 4096)
}

/// The move does not leave the own king in check.
pub open spec fn safe(p: PositionV, mv: Move) -> bool {
    !model::in_check(model::board_after(p.board, p.stm, mv), p.stm)
}

/// `mv` is a legal move.
pub open spec fn legal(p: PositionV, mv: Move) -> bool {
    pseudo_legal(p, mv) && safe(p, mv)
}

/// The safe ones among the first `n` of `ms`.
pub open spec fn safe_upto(p: PositionV, ms: Seq<Move>, n: int) -> Seq<Move>
    decreases n,
{
    if n <= 0 {
        Seq::empty()
    } else if safe(p, ms[n - 1]) {
        safe_upto(p, ms, n - 1).push(ms[n - 1])
    } else {
        safe_upto(p, ms, n - 1)
    }
}

/// All legal moves, in the order of the pseudo-legal ones.
pub open spec fn legal_moves(p: PositionV) -> Seq<Move> {
    safe_upto(p, pseudo_moves(p), pseudo_moves(p).len() as int)
}

// ──────── Laws ────────

pub proof fn lemma_encoded(s: int, d: int, kind: int)
    requires
        0 <= s < 64,
        0 <= d < 64,
        0 <= kind < 16,
    ensures
        encoded(s, d, kind).src() == s,
        encoded(s, d, kind).dst() == d,
        encoded(s, d, kind).kind() == kind,
{
}

proof fn lemma_arrivals(c: Color, s: int, d: int, plain: int)
    requires
        0 <= s < 64,
        0 <= d < 64,
        plain == 0 || plain == 4,
    ensures
        ({
            let ms = pawn_arrivals(c, s, d, plain);
            &&& ms.len() <= 4
            &&& forall|i: int| 0 <= i < ms.len() ==> (#[trigger] ms[i]).src() == s && ms[i].dst() == d
            &&& forall|i: int, j: int| 0 <= i < j < ms.len() ==> #[trigger] ms[i] != #[trigger] ms[j]
        }),
{
    assert forall|k: int| 0 <= k < 16 implies {
        &&& #[trigger] encoded(s, d, k).src() == s
        &&& encoded(s, d, k).dst() == d
        &&& encoded(s, d, k).kind() == k
    } by {
        lemma_encoded(s, d, k);
    }
}

/// What every move between two squares has in common.
proof fn lemma_between(p: PositionV, s: int, d: int, i: int)
    requires
        0 <= s < 64,
        0 <= d < 64,
        0 <= i < moves_between(p, s, d).len(),
    ensures
        moves_between(p, s, d)[i].src() == s,
        moves_between(p, s, d)[i].dst() == d,
        moves_between(p, s, d).len() <= 4,
        forall|j: int|
            0 <= j < moves_between(p, s, d).len() && j != i ==> moves_between(p, s, d)[j] != moves_between(p, s, d)[i],
{
    lemma_arrivals(p.stm, s, d, 0);
    lemma_arrivals(p.stm, s, d, 4);
    lemma_encoded(s, d, 0);
    lemma_encoded(s, d, 1);
    lemma_encoded(s, d, 2);
    lemma_encoded(s, d, 4);
    lemma_encoded(s, d, 5);
}

proof fn lemma_pseudo_upto_has(p: PositionV, n: int, mv: Move)
    requires
        0 <= n <= 4096,
    ensures
        pseudo_upto(p, n).contains(mv) == (pseudo_legal(p, mv) && mv.src() * 64 + mv.dst() < n),
    decreases n,
{
    if n > 0 {
        let (s, d) = ((n - 1) / 64, (n - 1) % 64);
        let before = pseudo_upto(p, n - 1);
        let here = moves_between(p, s, d);
        lemma_pseudo_upto_has(p, n - 1, mv);
        if pseudo_upto(p, n).contains(mv) {
            let i = choose|i: int| 0 <= i < pseudo_upto(p, n).len() && pseudo_upto(p, n)[i] == mv;
            if i < before.len() {
                assert(before[i] == mv);
            } else {
                assert(here[i - before.len()] == mv);
                lemma_between(p, s, d, i - before.len());
            }
        }
        if pseudo_legal(p, mv) && mv.src() * 64 + mv.dst() < n {
            if mv.src() * 64 + mv.dst() < n - 1 {
                let i = choose|i: int| 0 <= i < before.len() && before[i] == mv;
                assert(pseudo_upto(p, n)[i] == mv);
            } else {
                assert(mv.src() == s && mv.dst() == d);
                let i = choose|i: int| 0 <= i < here.len() && here[i] == mv;
                assert(pseudo_upto(p, n)[before.len() + i] == mv);
            }
        }
    }
}

proof fn lemma_pseudo_upto_distinct(p: PositionV, n: int)
    requires
        0 <= n <= 4096,
    ensures
        pseudo_upto(p, n).no_duplicates(),
    decreases n,
{
    if n > 0 {
        let (s, d) = ((n - 1) / 64, (n - 1) % 64);
        let before = pseudo_upto(p, n - 1);
        let here = moves_between(p, s, d);
        let all = pseudo_upto(p, n);
        lemma_pseudo_upto_distinct(p, n - 1);
        assert forall|i: int, j: int| 0 <= i < all.len() && 0 <= j < all.len() && i != j implies all[i] != all[j] by {
            if i >= before.len() && j >= before.len() {
                assert(all[i] == here[i - before.len()]);
                assert(all[j] == here[j - before.len()]);
                lemma_between(p, s, d, i - before.len());
            } else if i >= before.len() || j >= before.len() {
                let (old_at, new_at) = if i < before.len() {
                    (i, j)
                } else {
                    (j, i)
                };
                let mv = all[old_at];
                assert(before[old_at] == mv);
                assert(before.contains(mv));
                lemma_pseudo_upto_has(p, n - 1, mv);
                lemma_between(p, s, d, new_at - before.len());
                assert(all[new_at] == here[new_at - before.len()]);
            }
        }
    }
}

/// The list of pseudo-legal moves holds every pseudo-legal move, nothing else, and none twice.
pub proof fn law_pseudo_moves_exact(p: PositionV)
    ensures
        forall|mv: Move| pseudo_moves(p).contains(mv) <==> #[trigger] pseudo_legal(p, mv),
        pseudo_moves(p).no_duplicates(),
{
    assert forall|mv: Move| pseudo_moves(p).contains(mv) <==> #[trigger] pseudo_legal(p, mv) by {
        lemma_pseudo_upto_has(p, 4096, mv);
    }
    lemma_pseudo_upto_distinct(p, 4096);
}

proof fn lemma_safe_upto(p: PositionV, ms: Seq<Move>, n: int)
    requires
        0 <= n <= ms.len(),
        ms.no_duplicates(),
    ensures
        safe_upto(p, ms, n).no_duplicates(),
        safe_upto(p, ms, n).len() <= n,
        forall|mv: Move|
            #[trigger] safe_upto(p, ms, n).contains(mv) <==> (safe(p, mv) && ms.take(n).contains(mv)),
    decreases n,
{
    if n > 0 {
        let rest = safe_upto(p, ms, n - 1);
        let all = safe_upto(p, ms, n);
        let x = ms[n - 1];
        lemma_safe_upto(p, ms, n - 1);
        assert(!ms.take(n - 1).contains(x)) by {
            if ms.take(n - 1).contains(x) {
                let head = ms.take(n - 1);
                let i = choose|i: int| 0 <= i < head.len() && head[i] == x;
                assert(ms[i] == x);
            }
        }
        assert(!rest.contains(x));
        assert(ms.take(n) =~= ms.take(n - 1).push(x));
        assert forall|mv: Move| #[trigger] all.contains(mv) <==> (safe(p, mv) && ms.take(n).contains(mv)) by {
            assert(rest.contains(mv) <==> (safe(p, mv) && ms.take(n - 1).contains(mv)));
            lemma_push_contains(ms.take(n - 1), x, mv);
            lemma_push_contains(rest, x, mv);
        }
        assert(all.no_duplicates()) by {
            assert forall|i: int, j: int| 0 <= i < all.len() && 0 <= j < all.len() && i != j implies all[i]
                != all[j] by {
                if safe(p, x) {
                    if i == rest.len() {
                        assert(rest.contains(rest[j]));
                    } else if j == rest.len() {
                        assert(rest.contains(rest[i]));
                    }
                }
            }
        }
    } else {
        assert(ms.take(0) =~= Seq::empty());
    }
}

proof fn lemma_push_contains(s: Seq<Move>, x: Move, y: Move)
    ensures
        s.push(x).contains(y) <==> (s.contains(y) || y == x),
{
    let t = s.push(x);
    if t.contains(y) {
        let i = choose|i: int| 0 <= i < t.len() && t[i] == y;
        if i < s.len() {
            assert(s[i] == y);
        }
    }
    if s.contains(y) {
        let i = choose|i: int| 0 <= i < s.len() && s[i] == y;
        assert(t[i] == y);
    }
    if y == x {
        assert(t[s.len() as int] == y);
    }
}

/// The list of legal moves holds every legal move, nothing else, and none twice.
pub proof fn law_legal_moves_exact(p: PositionV)
    ensures
        forall|mv: Move| legal_moves(p).contains(mv) <==> #[trigger] legal(p, mv),
        legal_moves(p).no_duplicates(),
{
    let ms = pseudo_moves(p);
    law_pseudo_moves_exact(p);
    lemma_safe_upto(p, ms, ms.len() as int);
    assert(ms.take(ms.len() as int) =~= ms);
    assert forall|mv: Move| legal_moves(p).contains(mv) <==> #[trigger] legal(p, mv) by {
        assert(safe_upto(p, ms, ms.len() as int).contains(mv) <==> (safe(p, mv) && ms.take(
            ms.len() as int,
        ).contains(mv)));
        assert(pseudo_legal(p, mv) <==> ms.contains(mv));
    }
}

proof fn lemma_castle_playable(p: PositionV, s: int, d: int)
    requires
        model::board_ok(p.board),
        0 <= s < 64,
        0 <= d < 64,
        may_castle(p, s, d),
        is_occupancy(p.board, occupancy_of(p.board)),
    ensures
        model::playable(p.board, p.stm, encoded(s, d, 2)),
{
    let slot = castle_slot(p.stm, s, d);
    let (b, occ) = (p.board, occupancy_of(p.board));
    let (k, r) = moves::castle_landing(s, d);
    let data = CASTLE_DATA[slot]@;
    lemma_encoded(s, d, 2);
    assert(k == data[2] && r == data[3]);
    if queries::canonical_castle(occ, s, d, data, CASTLE_GAP[slot]) {
        let x = occ;
        reveal(bits::member);
        assert({
            &&& x & 0x60 == 0 ==> (x >> 6u64) & 1 != 1 && (x >> 5u64) & 1 != 1
            &&& x & 0x0e == 0 ==> (x >> 2u64) & 1 != 1 && (x >> 3u64) & 1 != 1
            &&& x & 0x6000_0000_0000_0000 == 0 ==> (x >> 62u64) & 1 != 1 && (x >> 61u64) & 1 != 1
            &&& x & 0x0e00_0000_0000_0000 == 0 ==> (x >> 58u64) & 1 != 1 && (x >> 59u64) & 1 != 1
        }) by (bit_vector);
        assert(!bits::member(occ, k));
        assert(!bits::member(occ, r));
    } else {
        if k != s && k != d {
            assert(!bits::member(occ, k));
        }
        if r != s && r != d {
            assert(!bits::member(occ, r));
        }
    }
}

/// Every pseudo-legal move of a position can be carried out and taken back.
pub proof fn law_pseudo_legal_playable(pos: Position, mv: Move)
    requires
        pos.wf(),
        pseudo_legal(pos@, mv),
    ensures
        model::playable(pos@.board, pos.stm, mv),
        laws::promotes_pawn(pos@.board, mv),
        mv.0 != 0,
        mv.castles() ==> pos@.board[mv.src()] == model::man(PieceType::King, pos.stm),
{
    let p = pos@;
    let (s, d) = (mv.src(), mv.dst());
    laws::law_board_ok(pos);
    let i = choose|i: int| 0 <= i < moves_between(p, s, d).len() && moves_between(p, s, d)[i] == mv;
    assert forall|k: int| 0 <= k < 16 implies {
        &&& #[trigger] encoded(s, d, k).src() == s
        &&& encoded(s, d, k).dst() == d
        &&& encoded(s, d, k).kind() == k
    } by {
        lemma_encoded(s, d, k);
    }
    if may_castle(p, s, d) {
        lemma_occupancy(pos);
        lemma_castle_playable(p, s, d);
    }
    if mv.0 == 0 {
        assert(s == d);
    }
}

pub(crate) proof fn lemma_occupancy(pos: Position)
    requires
        pos.wf(),
    ensures
        is_occupancy(pos@.board, pos.occ.0),
        is_occupancy(pos@.board, occupancy_of(pos@.board)),
        occupancy_of(pos@.board) == pos.occ.0,
{
    assert forall|i: int| 0 <= i < 64 implies #[trigger] bits::member(pos.occ.0, i) == (pos@.board[i] is Some) by {
        assert(pos.square_ok(i));
    }
    assert(is_occupancy(pos@.board, pos.occ.0));
    let a = occupancy_of(pos@.board);
    assert(is_occupancy(pos@.board, a));
    assert forall|i: int| 0 <= i < 64 implies bits::member(a, i) == bits::member(pos.occ.0, i) by {
        assert(bits::member(a, i) == (pos@.board[i] is Some));
    }
    bits::lemma_member_ext(a, pos.occ.0);
}

// ──────── Generation ────────

fn encode(s: Square, d: Square, kind: u16) -> (mv: Move)
    requires
        s.wf(),
        d.wf(),
        kind < 16,
    ensures
        mv == encoded(s.0 as int, d.0 as int, kind as int),
{
    Move::new(s, d, kind)
}

fn can_castle(pos: &Position, s: Square, d: Square) -> (r: bool)
    requires
        pos.wf(),
        s.wf(),
        d.wf(),
    ensures
        r == may_castle(pos@, s.0 as int, d.0 as int),
{
    proof {
        lemma_occupancy(*pos);
    }
    let home: u8 = pos.stm.back_rank();
    let (king, rook) = (pos.man_at(s), pos.man_at(d));
    let at_home = s.rank() == home && d.rank() == home;
    let ready = match (king, rook) {
        (Some(k), Some(r)) => k.pt == PieceType::King && k.color == pos.stm && r.pt == PieceType::Rook && r.color
            == pos.stm && at_home,
        _ => false,
    };
    if !ready {
        return false;
    }
    let long: usize = if d.0 < s.0 {
        1
    } else {
        0
    };
    let slot: usize = 2 * pos.stm.as_usize() + long;
    let bit: u8 = if slot == 0 {
        1
    } else if slot == 1 {
        2
    } else if slot == 2 {
        4
    } else {
        8
    };
    let occ = pos.occ;
    proof {
        let sl = slot as int;
        assert(0 <= sl < 4);
        assert forall|i: int| 0 <= i < 4 implies #[trigger] CASTLE_DATA[sl][i] < 64 by {}
        assert forall|i: int| 0 <= i < 3 implies #[trigger] CASTLE_PATH[sl][i] < 64 by {}
    }
    pos.castling_rights & bit != 0 && pos.castling_rooks[slot].0 == d.0 && pos.is_castle_legal(
        occ,
        s,
        d,
        &CASTLE_DATA[slot],
        &CASTLE_PATH[slot],
        Bitboard(CASTLE_GAP[slot]),
        pos.stm.opposite(),
    )
}

fn push_arrivals(out: &mut Vec<Move>, c: Color, s: Square, d: Square, plain: u16)
    requires
        s.wf(),
        d.wf(),
        plain <= 4,
    ensures
        final(out)@ == old(out)@ + pawn_arrivals(c, s.0 as int, d.0 as int, plain as int),
{
    if d.rank() == c.opposite().back_rank() {
        out.push(encode(s, d, 8 + plain));
        out.push(encode(s, d, 9 + plain));
        out.push(encode(s, d, 10 + plain));
        out.push(encode(s, d, 11 + plain));
    } else {
        out.push(encode(s, d, plain));
    }
    proof {
        assert(out@ =~= old(out)@ + pawn_arrivals(c, s.0 as int, d.0 as int, plain as int));
    }
}

fn push_pawn_moves(out: &mut Vec<Move>, pos: &Position, s: Square, d: Square)
    requires
        pos.wf(),
        s.wf(),
        d.wf(),
    ensures
        final(out)@ == old(out)@ + pawn_moves(pos@, s.0 as int, d.0 as int),
{
    let c = pos.stm;
    let ghost b = pos@.board;
    let fs: i8 = s.file() as i8;
    let fd: i8 = d.file() as i8;
    let up: i8 = d.rank() as i8 - s.rank() as i8;
    let step: i8 = match c {
        Color::White => 1,
        Color::Black => -1,
    };
    let slant = (fs - fd == 1 || fd - fs == 1) && up == step;
    let target = pos.man_at(d);
    let start: u8 = match c {
        Color::White => 1,
        Color::Black => 6,
    };
    if slant && target.is_some() {
        push_arrivals(out, c, s, d, Move::CAPTURE);
    } else if slant && pos.en_passant == Some(d) && pos.man_at(d.toggle_rank()) == Some(
        Piece { pt: PieceType::Pawn, color: c.opposite() },
    ) {
        out.push(encode(s, d, Move::EP_CAPTURE));
    } else if fs == fd && up == step && target.is_none() {
        push_arrivals(out, c, s, d, Move::QUIET);
    } else if fs == fd && up == 2 * step && s.rank() == start && target.is_none() && pos.man_at(
        Square((s.0 as i8 + 8 * step) as u8),
    ).is_none() {
        out.push(encode(s, d, Move::DOUBLE_PUSH));
    }
    proof {
        assert(out@ =~= old(out)@ + pawn_moves(pos@, s.0 as int, d.0 as int));
    }
}

/// Appends the pseudo-legal moves from `s` to `d`.
fn push_moves(out: &mut Vec<Move>, pos: &Position, s: Square, d: Square)
    requires
        pos.wf(),
        s.wf(),
        d.wf(),
    ensures
        final(out)@ == old(out)@ + moves_between(pos@, s.0 as int, d.0 as int),
{
    let ghost b = pos@.board;
    match pos.man_at(s) {
        Some(m) => {
            if m.color == pos.stm {
                let target = pos.man_at(d);
                let own = match target {
                    Some(t) => t.color == pos.stm,
                    None => false,
                };
                if own {
                    if can_castle(pos, s, d) {
                        out.push(encode(s, d, Move::CASTLE));
                    }
                } else if m.pt == PieceType::Pawn {
                    push_pawn_moves(out, pos, s, d);
                } else {
                    proof {
                        bits::lemma_member_ops();
                        assert forall|i: int| 0 <= i < 64 implies pos.occ.on(i) == model::blocks(b, 0, i) by {
                            assert(pos.square_ok(i));
                        }
                    }
                    if attacks::piece_reaches(pos.occ, m, s, d, Ghost(b), Ghost(0)) {
                        let kind: u16 = if target.is_some() {
                            Move::CAPTURE
                        } else {
                            Move::QUIET
                        };
                        out.push(encode(s, d, kind));
                    }
                }
            }
        },
        None => {},
    }
    proof {
        assert(out@ =~= old(out)@ + moves_between(pos@, s.0 as int, d.0 as int));
    }
}

/// Could `mv` be played in `pos`, own check left aside?
pub fn is_pseudo_legal(pos: &Position, mv: Move) -> (r: bool)
    requires
        pos.wf(),
    ensures
        r == pseudo_legal(pos@, mv),
{
    let mut ms: Vec<Move> = Vec::new();
    push_moves(&mut ms, pos, mv.from(), mv.to());
    let mut i: usize = 0;
    proof {
        assert(ms@ =~= moves_between(pos@, mv.src(), mv.dst()));
    }
    while i < ms.len()
        invariant
            i <= ms.len(),
            ms@ == moves_between(pos@, mv.src(), mv.dst()),
            forall|j: int| 0 <= j < i ==> ms@[j] != mv,
        decreases ms.len() - i,
    {
        if ms[i] == mv {
            proof {
                assert(ms@[i as int] == mv);
            }
            return true;
        }
        i = i + 1;
    }
    false
}

/// All pseudo-legal moves.
pub fn gen_pseudo_moves(pos: &Position) -> (r: Vec<Move>)
    requires
        pos.wf(),
    ensures
        r@ == pseudo_moves(pos@),
{
    let mut out: Vec<Move> = Vec::new();
    let mut n: u16 = 0;
    while n < 4096
        invariant
            n <= 4096,
            pos.wf(),
            out@ == pseudo_upto(pos@, n as int),
        decreases 4096 - n,
    {
        push_moves(&mut out, pos, Square((n / 64) as u8), Square((n % 64) as u8));
        n = n + 1;
    }
    out
}

/// The position with the pieces of `mv` moved and nothing else changed.
pub fn board_trial(pos: &Position, mv: Move) -> (q: Position)
    requires
        pos.wf(),
        model::playable(pos@.board, pos.stm, mv),
    ensures
        q.wf(),
        q@ == (PositionV { board: model::board_after(pos@.board, pos.stm, mv), ..pos@ }),
{
    let mut q = *pos;
    let (s, d) = (mv.from(), mv.to());
    let us = pos.stm;
    let them = us.opposite();
    let ghost b = pos@.board;
    if mv.is_castling() {
        let (k, r) = moves::castling_targets(s, d);
        q.remove_piece(s, PieceType::King, us);
        q.remove_piece(d, PieceType::Rook, us);
        q.add_piece(k, PieceType::King, us);
        q.add_piece(r, PieceType::Rook, us);
        q.hash = pos.hash;
        proof {
            assert(q@.board =~= model::board_after(b, us, mv));
        }
        return q;
    }
    let moved = pos.piece_at(s);
    let placed = match mv.promo() {
        Some(pt) => pt,
        None => moved,
    };
    let victim = pos.piece_at(d);
    if victim != PieceType::Empty {
        q.remove_piece(d, victim, them);
    } else if mv.is_en_passant() {
        q.remove_piece(d.toggle_rank(), PieceType::Pawn, them);
    }
    q.remove_piece(s, moved, us);
    q.add_piece(d, placed, us);
    q.hash = pos.hash;
    proof {
        assert(q@.board =~= model::board_after(b, us, mv));
    }
    q
}

/// Does a pseudo-legal move keep the own king out of check?
pub fn is_legal(pos: &Position, mv: Move) -> (r: bool)
    requires
        pos.wf(),
        pseudo_legal(pos@, mv),
    ensures
        r == legal(pos@, mv),
{
    proof {
        law_pseudo_legal_playable(*pos, mv);
    }
    let q = board_trial(pos, mv);
    !attacks::king_in_check(&q, pos.stm)
}

/// All legal moves.
pub fn gen_legal_moves(pos: &Position) -> (r: Vec<Move>)
    requires
        pos.wf(),
    ensures
        r@ == legal_moves(pos@),
{
    let all = gen_pseudo_moves(pos);
    let mut out: Vec<Move> = Vec::new();
    let mut i: usize = 0;
    proof {
        law_pseudo_moves_exact(pos@);
    }
    while i < all.len()
        invariant
            i <= all.len(),
            pos.wf(),
            all@ == pseudo_moves(pos@),
            forall|mv: Move| pseudo_moves(pos@).contains(mv) <==> #[trigger] pseudo_legal(pos@, mv),
            out@ == safe_upto(pos@, all@, i as int),
        decreases all.len() - i,
    {
        let mv = all[i];
        proof {
            assert(all@.contains(mv));
            assert(pseudo_legal(pos@, mv));
        }
        if is_legal(pos, mv) {
            out.push(mv);
        }
        i = i + 1;
    }
    out
}

} // verus!
