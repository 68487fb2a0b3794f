//! Construction, state transitions and game-rule queries of a position.

use vstd::prelude::*;
use crate::bits;
use crate::board::attacks;
use crate::board::make;
use crate::board::model;
use crate::board::model::{Board, InfoV, Piece, PositionV};
use crate::board::position::{Position, StateInfo};
use crate::moves::Move;
use crate::psqt;
use crate::psqt::Vi16x8;
use crate::types::{Bitboard, Color, PieceType, Square};
use crate::zobrist;

verus! {

/// How many of the squares below `n` hold a piece of type `pt`.
pub open spec fn census(b: Board, pt: PieceType, n: nat) -> nat
    decreases n,
{
    if n == 0 {
        0
    } else {
        census(b, pt, (n - 1) as nat) + if model::type_at(b, n - 1) == pt {
            1nat
        } else {
            0nat
        }
    }
}

/// Number of pieces of type `pt` on the board, both colors together.
pub open spec fn tally(b: Board, pt: PieceType) -> nat {
    census(b, pt, 64)
}

/// How often `key` occurs among the entries at `i`, `i - 2`, `i - 4` and so on, down to `lo`.
pub open spec fn recurrences(h: Seq<u64>, key: u64, i: int, lo: int) -> nat
    decreases i - lo + 2,
{
    if i < lo {
        0
    } else {
        recurrences(h, key, i - 2, lo) + if h[i] == key {
            1nat
        } else {
            0nat
        }
    }
}

/// Where the part of a game's history begins that can still repeat: `clock + 1` entries from its end.
pub open spec fn horizon(len: int, clock: int) -> int {
    if len > clock + 1 {
        len - (clock + 1)
    } else {
        0
    }
}

/// The position occurred at least twice before with the same side to move, since the last move that
/// cannot be taken back. The last entry of `h` is the position itself.
pub open spec fn threefold(p: PositionV, h: Seq<u64>) -> bool {
    h.len() >= 4 && recurrences(h, p.hash, h.len() - 3, horizon(h.len() as int, p.halfmove_clock as int)) >= 2
}

/// A hundred half-moves were played without a capture and without a pawn move.
pub open spec fn fifty_moves(p: PositionV) -> bool {
    p.halfmove_clock >= 100
}

/// No pawn, rook or queen is left, and at most one knight or bishop.
pub open spec fn dead_material(b: Board) -> bool {
    &&& forall|i: int|
        0 <= i < 64 ==> !(#[trigger] model::type_at(b, i) == PieceType::Pawn || model::type_at(b, i)
            == PieceType::Rook || model::type_at(b, i) == PieceType::Queen)
    &&& tally(b, PieceType::Knight) + tally(b, PieceType::Bishop) <= 1
}

/// The value of all pieces on the board, kings left out.
pub open spec fn material(b: Board) -> nat {
    tally(b, PieceType::Pawn) + 3 * tally(b, PieceType::Knight) + 3 * tally(b, PieceType::Bishop) + 5 * tally(
        b,
        PieceType::Rook,
    ) + 9 * tally(b, PieceType::Queen)
}

pub open spec fn least(a: int, b: int) -> int {
    if a <= b {
        a
    } else {
        b
    }
}

pub open spec fn most(a: int, b: int) -> int {
    if a >= b {
        a
    } else {
        b
    }
}

/// King and rook of a castling move stand on their usual squares and nothing is between them.
pub open spec fn canonical_castle(occ: u64, k: int, r: int, data: Seq<u8>, empty_mask: u64) -> bool {
    k == data[0] && r == data[1] && occ & empty_mask == 0
}

/// Castling is legal. With king and rook on their usual squares, when the king is not attacked on the
/// squares `check_sqs`. Else, when every square from the outermost to the innermost of the four squares
/// involved is free but for king and rook, the king is attacked on none of the squares from its own to its
/// destination, its own square counted as empty, and not on its destination once the rook has left as well.
pub open spec fn castle_legal(
    b: Board,
    occ: u64,
    k: int,
    r: int,
    data: Seq<u8>,
    check_sqs: Seq<u8>,
    empty_mask: u64,
    opp: Color,
) -> bool {
    if canonical_castle(occ, k, r, data, empty_mask) {
        forall|i: int| 0 <= i < check_sqs.len() ==> !#[trigger] model::attacked(b, 0, check_sqs[i] as int, opp)
    } else {
        let (kd, rd) = (data[2] as int, data[3] as int);
        let lo = least(least(least(k, r), kd), rd);
        let hi = most(most(most(k, r), kd), rd);
        &&& forall|i: int| lo <= i <= hi && i != k && i != r ==> !#[trigger] bits::member(occ, i)
        &&& forall|i: int|
            least(k, kd) <= i <= most(k, kd) ==> !#[trigger] model::attacked(b, 1u64 << (k as u64), i, opp)
        &&& !model::attacked(b, 1u64 << (k as u64) | 1u64 << (r as u64), kd, opp)
    }
}

/// An empty board with White to move.
pub open spec fn blank_position() -> PositionV {
    PositionV {
        board: Seq::new(64, |i: int| None),
        stm: Color::White,
        castling_rights: 0,
        castling_rooks: Seq::new(4, |i: int| Square(0)),
        en_passant: None,
        halfmove_clock: 0,
        fullmove_number: 1,
        is_frc: false,
        hash: 0,
        pawn_hash: 0,
    }
}

/// The position before the turn was passed.
pub open spec fn unpassed(p: PositionV, info: InfoV) -> PositionV {
    PositionV {
        stm: p.stm.other(),
        hash: info.hash,
        pawn_hash: info.pawn_hash,
        en_passant: info.en_passant,
        halfmove_clock: info.halfmove_clock,
        ..p
    }
}

/// Undoing a passed turn restores the position.
pub proof fn law_null_move_restores(p: PositionV)
    ensures
        unpassed(model::passed(p), model::snapshot(p, PieceType::Empty)) == p,
{
    assert(p.stm.other().other() == p.stm);
}

proof fn lemma_role_census(pos: Position, pt: PieceType, n: nat)
    requires
        pos.wf(),
        pt != PieceType::Empty,
        n <= 64,
    ensures
        bits::count(pos.role_bb[pt.idx()].0, n) == census(pos@.board, pt, n),
    decreases n,
{
    if n > 0 {
        lemma_role_census(pos, pt, (n - 1) as nat);
        assert(pos.square_ok(n - 1));
        assert(pos.role_bb[pt.idx()].on(n - 1) == (pos.pieces[n - 1].idx() == pt.idx()));
    }
}

/// A square is attacked by a pawn of `color`.
pub open spec fn pawn_attacked(b: Board, color: Color, i: int) -> bool {
    exists|s: int|
        0 <= s < 64 && #[trigger] b[s] == model::man(PieceType::Pawn, color) && model::reaches(
            b,
            0,
            Piece { pt: PieceType::Pawn, color },
            s,
            i,
        )
}

proof fn lemma_pawn_shift(x: u64, i: int)
    requires
        0 <= i < 64,
    ensures
        bits::member((x << 9u64) & !0x0101_0101_0101_0101u64, i) == (i % 8 != 0 && i >= 9 && bits::member(x, i - 9)),
        bits::member((x << 7u64) & !0x8080_8080_8080_8080u64, i) == (i % 8 != 7 && i >= 7 && bits::member(x, i - 7)),
        bits::member((x >> 9u64) & !0x8080_8080_8080_8080u64, i) == (i % 8 != 7 && i + 9 < 64 && bits::member(
            x,
            i + 9,
        )),
        bits::member((x >> 7u64) & !0x0101_0101_0101_0101u64, i) == (i % 8 != 0 && i + 7 < 64 && bits::member(
            x,
            i + 7,
        )),
{
    reveal(bits::member);
    let k = i as u64;
    assert(k < 64 ==> {
        &&& ((((x << 9u64) & !0x0101_0101_0101_0101u64) >> k) & 1 == 1) == (k % 8 != 0 && k >= 9 && (x >> ((k - 9)
            as u64)) & 1 == 1)
        &&& ((((x << 7u64) & !0x8080_8080_8080_8080u64) >> k) & 1 == 1) == (k % 8 != 7 && k >= 7 && (x >> ((k - 7)
            as u64)) & 1 == 1)
        &&& ((((x >> 9u64) & !0x8080_8080_8080_8080u64) >> k) & 1 == 1) == (k % 8 != 7 && k + 9 < 64 && (x >> ((k
            + 9) as u64)) & 1 == 1)
        &&& ((((x >> 7u64) & !0x0101_0101_0101_0101u64) >> k) & 1 == 1) == (k % 8 != 0 && k + 7 < 64 && (x >> ((k
            + 7) as u64)) & 1 == 1)
    }) by (bit_vector);
}

pub const FILE_A: u64 = 0x0101_0101_0101_0101;

pub const FILE_H: u64 = 0x8080_8080_8080_8080;

impl Position {
    /// An empty board with White to move.
    pub fn new() -> (pos: Position)
        ensures
            pos.wf(),
            pos@ == blank_position(),
            model::hashes_ok(pos@),
    {
        let nowhere = Bitboard(0);
        let nobody = PieceType::Empty;
        let corner = Square(0);
        let sides: [Bitboard; 2] = [nowhere, nowhere];
        let roles: [Bitboard; 6] = [nowhere, nowhere, nowhere, nowhere, nowhere, nowhere];
        let rooks: [Square; 4] = [corner, corner, corner, corner];
        let mut mailbox: [PieceType; 64] = [nobody;64];
        let mut i: usize = 0;
        while i < 64
            invariant
                i <= 64,
                nobody == PieceType::Empty,
                forall|j: int| 0 <= j < i ==> mailbox[j] == nobody,
            decreases 64 - i,
        {
            mailbox[i] = nobody;
            i = i + 1;
        }
        let mut pos = Position {
            side_bb: sides,
            role_bb: roles,
            occ: nowhere,
            hash: 0,
            pawn_hash: 0,
            pieces: mailbox,
            castling_rooks: rooks,
            castling_rights: 0,
            stm: Color::White,
            halfmove_clock: 0,
            en_passant: None,
            is_frc: false,
            fullmove_number: 1,
        };
        proof {
            bits::lemma_member_ops();
            assert(pos@.board =~= Seq::new(64, |i: int| None));
            assert(pos@.castling_rooks =~= Seq::new(4, |i: int| Square(0)));
            lemma_empty_keys(pos@.board, 64);
            assert(model::pawns_only(pos@.board) =~= pos@.board);
            zobrist::lemma_xor_zero(0);
            reveal(zobrist::castling_key);
        }
        pos.hash = pos.calc_zobrist();
        pos.pawn_hash = pos.calc_pawn_hash();
        pos
    }

    /// Apply `mv` to the position. Returns the undo packet needed by `unmake_move`.
    pub fn make_move(&mut self, mv: Move, acc: &mut Vi16x8) -> (info: StateInfo)
        requires
            old(self).wf(),
            model::playable(old(self)@.board, old(self).stm, mv),
            old(self).stm == Color::Black ==> old(self).fullmove_number < u16::MAX,
        ensures
            final(self).wf(),
            final(self)@ == model::made(old(self)@, mv),
            final(acc)@ == model::acc_after(old(acc)@, old(self)@.board, old(self).stm, mv),
            info@ == model::snapshot(old(self)@, model::taken(old(self)@.board, mv)),
    {
        make::make_move(self, mv, acc)
    }

    /// Restore the position to its state before `mv` was played.
    pub fn unmake_move(&mut self, mv: Move, info: &StateInfo)
        requires
            old(self).wf(),
            model::takeback_ok(old(self)@.board, old(self).stm.other(), mv, info.captured),
            old(self).stm == Color::White ==> old(self).fullmove_number > 0,
            info.castling_rights < 16,
            info.en_passant matches Some(sq) ==> sq.wf(),
        ensures
            final(self).wf(),
            final(self)@ == model::unmade(old(self)@, mv, info@),
    {
        make::unmake_move(self, mv, info);
    }

    /// Pass the turn without moving. Returns the undo packet.
    pub fn make_null_move(&mut self) -> (info: StateInfo)
        requires
            old(self).wf(),
            old(self).halfmove_clock < 255,
        ensures
            final(self).wf(),
            final(self)@ == model::passed(old(self)@),
            info@ == model::snapshot(old(self)@, PieceType::Empty),
    {
        let info = StateInfo {
            hash: self.hash,
            pawn_hash: self.pawn_hash,
            en_passant: self.en_passant,
            castling_rights: self.castling_rights,
            captured: PieceType::Empty,
            halfmove_clock: self.halfmove_clock,
        };
        proof {
            zobrist::lemma_xor_zero(self.hash);
        }
        match self.en_passant {
            Some(ep) => {
                self.en_passant = None;
                self.hash = self.hash ^ zobrist::key_ep(ep);
            },
            None => {},
        }
        self.stm = self.stm.opposite();
        self.hash = self.hash ^ zobrist::key_side();
        self.halfmove_clock = self.halfmove_clock + 1;
        info
    }

    /// Undo a null move.
    pub fn unmake_null_move(&mut self, info: &StateInfo)
        requires
            old(self).wf(),
            info.en_passant matches Some(sq) ==> sq.wf(),
        ensures
            final(self).wf(),
            final(self)@ == unpassed(old(self)@, info@),
    {
        self.stm = self.stm.opposite();
        self.hash = info.hash;
        self.pawn_hash = info.pawn_hash;
        self.en_passant = info.en_passant;
        self.halfmove_clock = info.halfmove_clock;
    }

    /// Does the given side have any pieces beyond pawns and king?
    pub fn has_non_pawn_material(&self, side: Color) -> (r: bool)
        requires
            self.wf(),
        ensures
            r == exists|i: int|
                0 <= i < 64 && (#[trigger] self@.board[i] matches Some(p) && p.color == side && p.pt
                    != PieceType::Pawn && p.pt != PieceType::King),
    {
        let light = self.role_bb[0].or(self.role_bb[5]);
        let heavy = self.side_bb[side.as_usize()].without(light);
        proof {
            bits::lemma_member_ops();
            assert forall|i: int| 0 <= i < 64 implies #[trigger] heavy.on(i) == (self@.board[i] matches Some(p)
                && p.color == side && p.pt != PieceType::Pawn && p.pt != PieceType::King) by {
                assert(self.square_ok(i));
                assert(self.role_bb[0].on(i) == (self.pieces[i].idx() == 0));
                assert(self.role_bb[5].on(i) == (self.pieces[i].idx() == 5));
                assert(light.on(i) == (self.role_bb[0].on(i) || self.role_bb[5].on(i)));
            }
            if exists|i: int| #[trigger] heavy.on(i) {
                let i = choose|i: int| #[trigger] heavy.on(i);
                assert(self@.board[i] is Some);
            }
            if exists|i: int|
                0 <= i < 64 && (#[trigger] self@.board[i] matches Some(p) && p.color == side && p.pt
                    != PieceType::Pawn && p.pt != PieceType::King) {
                let i = choose|i: int|
                    0 <= i < 64 && (#[trigger] self@.board[i] matches Some(p) && p.color == side && p.pt
                        != PieceType::Pawn && p.pt != PieceType::King);
                assert(heavy.on(i));
            }
        }
        heavy.is_not_empty()
    }

    /// Incrementally update the accumulator for `mv`, before the move is applied.
    pub fn update_accumulator(
        &self,
        acc: &mut Vi16x8,
        mv: Move,
        pt: PieceType,
        captured: PieceType,
        placed: PieceType,
    )
        ensures
            final(acc)@ == model::acc_step(old(acc)@, self.stm, mv, pt, captured, placed),
    {
        make::update_accumulator(self, acc, mv, pt, captured, placed);
    }

    /// The accumulator from scratch: the sum of the vectors of all pieces on the board.
    pub fn get_initial_accumulator(&self) -> (acc: Vi16x8)
        requires
            self.wf(),
        ensures
            acc@ == model::acc_of(self@.board),
    {
        let mut acc = Vi16x8::splat(0);
        let mut s: u8 = 0;
        let ghost b = self@.board;
        while s < 64
            invariant
                s <= 64,
                self.wf(),
                b == self@.board,
                acc@.len() == 8,
                forall|l: int| 0 <= l < 8 ==> #[trigger] acc@[l] == psqt::wrap(model::lane_sum(b, l, s as nat)),
            decreases 64 - s,
        {
            match self.man_at(Square(s)) {
                Some(p) => {
                    let v = psqt::get_vec(p.pt, Square(s), p.color);
                    let ghost before = acc@;
                    acc.increase(&v);
                    proof {
                        reveal(psqt::plus);
                        assert forall|l: int| 0 <= l < 8 implies #[trigger] acc@[l] == psqt::wrap(
                            model::lane_sum(b, l, (s + 1) as nat),
                        ) by {
                            assert(before[l] == psqt::wrap(model::lane_sum(b, l, s as nat)));
                        }
                    }
                },
                None => {
                    proof {
                        assert forall|l: int| 0 <= l < 8 implies #[trigger] acc@[l] == psqt::wrap(
                            model::lane_sum(b, l, (s + 1) as nat),
                        ) by {
                            assert(acc@[l] == psqt::wrap(model::lane_sum(b, l, s as nat)));
                        }
                    }
                },
            }
            s = s + 1;
        }
        proof {
            reveal(model::acc_of);
            assert(acc@ =~= model::acc_of(b));
        }
        acc
    }

    /// Detects threefold repetition. The last entry of `history` is the current position.
    pub fn is_threefold_repetition(&self, history: &[u64]) -> (r: bool)
        ensures
            r == threefold(self@, history@),
    {
        let n: usize = history.len();
        if n < 4 {
            return false;
        }
        let keep: usize = self.halfmove_clock as usize + 1;
        let limit: usize = if n > keep {
            n - keep
        } else {
            0
        };
        let mut count: u32 = 1;
        let mut i: usize = n - 2;
        let ghost all = recurrences(history@, self.hash, n - 3, limit as int);
        while i > limit
            invariant
                n == history.len(),
                n >= 4,
                i <= n - 2,
                limit == horizon(n as int, self.halfmove_clock as int),
                1 <= count < 3,
                all == recurrences(history@, self.hash, n - 3, limit as int),
                all == count - 1 + recurrences(history@, self.hash, i - 1, limit as int),
            decreases i,
        {
            proof {
                reveal_with_fuel(recurrences, 3);
            }
            if history[i - 1] == self.hash {
                count = count + 1;
                if count >= 3 {
                    return true;
                }
            }
            i = if i >= 2 {
                i - 2
            } else {
                0
            };
        }
        false
    }

    pub fn is_fifty_move_draw(&self) -> (r: bool)
        ensures
            r == (self.halfmove_clock >= 100),
            r == fifty_moves(self@),
    {
        self.halfmove_clock >= 100
    }

    /// Detects a draw by insufficient mating material: K vs K, K+N vs K and K+B vs K.
    pub fn is_draw_by_material(&self) -> (r: bool)
        requires
            self.wf(),
        ensures
            r == dead_material(self@.board),
    {
        let force = self.role_bb[0].or(self.role_bb[3]).or(self.role_bb[4]);
        proof {
            bits::lemma_member_ops();
            assert forall|i: int| 0 <= i < 64 implies #[trigger] force.on(i) == (model::type_at(self@.board, i)
                == PieceType::Pawn || model::type_at(self@.board, i) == PieceType::Rook || model::type_at(
                self@.board,
                i,
            ) == PieceType::Queen) by {
                assert(self.square_ok(i));
                assert(self.role_bb[0].on(i) == (self.pieces[i].idx() == 0));
                assert(self.role_bb[3].on(i) == (self.pieces[i].idx() == 3));
                assert(self.role_bb[4].on(i) == (self.pieces[i].idx() == 4));
            }
            lemma_role_census(*self, PieceType::Knight, 64);
            lemma_role_census(*self, PieceType::Bishop, 64);
        }
        if force.is_not_empty() {
            proof {
                let i = choose|i: int| #[trigger] force.on(i);
                assert(0 <= i < 64);
                assert(model::type_at(self@.board, i) == PieceType::Pawn || model::type_at(self@.board, i)
                    == PieceType::Rook || model::type_at(self@.board, i) == PieceType::Queen);
            }
            return false;
        }
        proof {
            assert forall|i: int| 0 <= i < 64 implies !(#[trigger] model::type_at(self@.board, i) == PieceType::Pawn
                || model::type_at(self@.board, i) == PieceType::Rook || model::type_at(self@.board, i)
                == PieceType::Queen) by {
                assert(!force.on(i));
            }
        }
        let minors: u32 = self.role_bb[1].popcount() + self.role_bb[2].popcount();
        minors <= 1
    }

    /// Evaluates if a castling maneuver is legal. `data` holds king origin, rook origin, king
    /// destination and rook destination of the usual castling move.
    pub fn is_castle_legal(
        &self,
        occ: Bitboard,
        ksq: Square,
        rsq: Square,
        data: &[u8; 4],
        check_sqs: &[u8],
        empty_mask: Bitboard,
        opp: Color,
    ) -> (r: bool)
        requires
            self.wf(),
            ksq.wf(),
            rsq.wf(),
            forall|i: int| 0 <= i < 4 ==> #[trigger] data[i] < 64,
            forall|i: int| 0 <= i < check_sqs.len() ==> #[trigger] check_sqs[i] < 64,
        ensures
            r == castle_legal(
                self@.board,
                occ.0,
                ksq.0 as int,
                rsq.0 as int,
                data@,
                check_sqs@,
                empty_mask.0,
                opp,
            ),
    {
        if ksq.0 == data[0] && rsq.0 == data[1] && occ.and(empty_mask).is_empty() {
            let mut i: usize = 0;
            while i < check_sqs.len()
                invariant
                    i <= check_sqs.len(),
                    self.wf(),
                    forall|j: int| 0 <= j < check_sqs.len() ==> #[trigger] check_sqs[j] < 64,
                    canonical_castle(occ.0, ksq.0 as int, rsq.0 as int, data@, empty_mask.0),
                    forall|j: int|
                        0 <= j < i ==> !#[trigger] model::attacked(self@.board, 0, check_sqs[j] as int, opp),
                decreases check_sqs.len() - i,
            {
                if self.is_attacked::<false>(Square(check_sqs[i]), opp, Bitboard::empty()) {
                    return false;
                }
                i = i + 1;
            }
            return true;
        }
        let king_dst: u8 = data[2];
        let rook_dst: u8 = data[3];
        let lo: u8 = lower(lower(lower(ksq.0, rsq.0), king_dst), rook_dst);
        let hi: u8 = upper(upper(upper(ksq.0, rsq.0), king_dst), rook_dst);
        let mut sq: u8 = lo;
        while sq <= hi
            invariant
                lo <= sq <= hi + 1,
                hi < 64,
                !canonical_castle(occ.0, ksq.0 as int, rsq.0 as int, data@, empty_mask.0),
                lo == least(least(least(ksq.0 as int, rsq.0 as int), data[2] as int), data[3] as int),
                hi == most(most(most(ksq.0 as int, rsq.0 as int), data[2] as int), data[3] as int),
                forall|i: int| lo <= i < sq && i != ksq.0 && i != rsq.0 ==> !#[trigger] bits::member(occ.0, i),
            decreases hi + 1 - sq,
        {
            if sq != ksq.0 && sq != rsq.0 && occ.check_bit(Square(sq)) {
                proof {
                    assert(bits::member(occ.0, sq as int));
                }
                return false;
            }
            sq = sq + 1;
        }
        let k_lo: u8 = lower(ksq.0, king_dst);
        let k_hi: u8 = upper(ksq.0, king_dst);
        let king_bb = Bitboard(1u64 << (ksq.0 as u64));
        let mut sq: u8 = k_lo;
        while sq <= k_hi
            invariant
                k_lo <= sq <= k_hi + 1,
                k_hi < 64,
                self.wf(),
                ksq.wf(),
                king_bb.0 == 1u64 << (ksq.0 as u64),
                !canonical_castle(occ.0, ksq.0 as int, rsq.0 as int, data@, empty_mask.0),
                k_lo == least(ksq.0 as int, data[2] as int),
                k_hi == most(ksq.0 as int, data[2] as int),
                forall|i: int| k_lo <= i < sq ==> !#[trigger] model::attacked(self@.board, king_bb.0, i, opp),
            decreases k_hi + 1 - sq,
        {
            if self.is_attacked::<true>(Square(sq), opp, king_bb) {
                proof {
                    assert(model::attacked(self@.board, king_bb.0, sq as int, opp));
                }
                return false;
            }
            sq = sq + 1;
        }
        let both = Bitboard(1u64 << (ksq.0 as u64) | 1u64 << (rsq.0 as u64));
        !self.is_attacked::<true>(Square(king_dst), opp, both)
    }

    /// Material total of both sides: pawn 1, knight and bishop 3, rook 5, queen 9.
    pub fn material_count(&self) -> (n: u32)
        requires
            self.wf(),
        ensures
            n == material(self@.board),
    {
        proof {
            lemma_role_census(*self, PieceType::Pawn, 64);
            lemma_role_census(*self, PieceType::Knight, 64);
            lemma_role_census(*self, PieceType::Bishop, 64);
            lemma_role_census(*self, PieceType::Rook, 64);
            lemma_role_census(*self, PieceType::Queen, 64);
        }
        let p: u32 = self.role_bb[0].popcount();
        let n: u32 = self.role_bb[1].popcount();
        let b: u32 = self.role_bb[2].popcount();
        let r: u32 = self.role_bb[3].popcount();
        let q: u32 = self.role_bb[4].popcount();
        p + 3 * n + 3 * b + 5 * r + 9 * q
    }

    /// Number of pieces of type `pt` on the board, both colors combined.
    pub fn piece_count(&self, pt: PieceType) -> (n: i32)
        requires
            self.wf(),
        ensures
            pt == PieceType::Empty ==> n == 0,
            pt != PieceType::Empty ==> n == tally(self@.board, pt),
    {
        if pt.is_none() {
            return 0;
        }
        proof {
            lemma_role_census(*self, pt, 64);
        }
        self.role_bb[pt.as_usize()].popcount() as i32
    }

    /// Is `sq` attacked by any piece of `attacker`'s color? With `VIRTUAL` the squares of `mask_out`
    /// do not block lines.
    pub fn is_attacked<const VIRTUAL: bool>(&self, sq: Square, attacker: Color, mask_out: Bitboard) -> (r: bool)
        requires
            self.wf(),
            sq.wf(),
        ensures
            r == model::attacked(
                self@.board,
                if VIRTUAL {
                    mask_out.0
                } else {
                    0
                },
                sq.0 as int,
                attacker,
            ),
    {
        attacks::is_attacked::<VIRTUAL>(self, sq, attacker, mask_out)
    }

    /// The enemy pieces that give check to the side to move.
    pub fn checkers(&self) -> (r: Bitboard)
        requires
            self.wf(),
        ensures
            forall|i: int|
                0 <= i < 64 ==> #[trigger] r.on(i) == (model::king_at(self@.board, self.stm) < 64
                    && model::attacks_from(
                    self@.board,
                    0,
                    i,
                    model::king_at(self@.board, self.stm),
                    self.stm.other(),
                )),
            (r.0 != 0) == model::in_check(self@.board, self.stm),
    {
        attacks::checkers(self)
    }

    /// All pieces of `attacker`'s color that attack `sq`.
    pub fn get_attackers_on(&self, sq: Square, attacker: Color) -> (r: Bitboard)
        requires
            self.wf(),
            sq.wf(),
        ensures
            forall|i: int|
                0 <= i < 64 ==> #[trigger] r.on(i) == model::attacks_from(
                    self@.board,
                    0,
                    i,
                    sq.0 as int,
                    attacker,
                ),
    {
        attacks::attackers_of(self, sq, attacker)
    }

    /// All squares attacked by any pawn of `color`: one shift per direction covers all pawns.
    pub fn pawn_attacks(&self, color: Color) -> (r: Bitboard)
        requires
            self.wf(),
        ensures
            forall|i: int| 0 <= i < 64 ==> #[trigger] r.on(i) == pawn_attacked(self@.board, color, i),
    {
        let pawns = self.pieces(PieceType::Pawn, color);
        let x: u64 = pawns.0;
        let r = match color {
            Color::White => Bitboard((x << 9u64) & !FILE_A).or(Bitboard((x << 7u64) & !FILE_H)),
            Color::Black => Bitboard((x >> 9u64) & !FILE_H).or(Bitboard((x >> 7u64) & !FILE_A)),
        };
        proof {
            let b = self@.board;
            let pawn = Piece { pt: PieceType::Pawn, color };
            assert forall|i: int| 0 <= i < 64 implies #[trigger] r.on(i) == pawn_attacked(b, color, i) by {
                lemma_pawn_shift(x, i);
                let near = match color {
                    Color::White => i - 9,
                    Color::Black => i + 9,
                };
                let far = match color {
                    Color::White => i - 7,
                    Color::Black => i + 7,
                };
                if 0 <= near < 64 {
                    assert(pawns.on(near) == (b[near] == Some(pawn)));
                }
                if 0 <= far < 64 {
                    assert(pawns.on(far) == (b[far] == Some(pawn)));
                }
                if r.on(i) {
                    if 0 <= near < 64 && pawns.on(near) && model::reaches(b, 0, pawn, near, i) {
                        assert(b[near] == Some(pawn));
                    } else {
                        assert(b[far] == Some(pawn));
                        assert(model::reaches(b, 0, pawn, far, i));
                    }
                }
                if pawn_attacked(b, color, i) {
                    let s = choose|s: int|
                        0 <= s < 64 && #[trigger] b[s] == Some(pawn) && model::reaches(b, 0, pawn, s, i);
                    assert(s == near || s == far);
                }
            }
        }
        r
    }

    /// Can any pawn of `color` legally capture en passant on `ep_sq`?
    pub fn can_capture_ep(&self, ep_sq: Square, color: Color) -> (r: bool)
        requires
            self.wf(),
            ep_sq.wf(),
        ensures
            r == model::ep_possible(self@.board, ep_sq.0 as int, color),
    {
        attacks::can_capture_ep(self, ep_sq, color)
    }

    /// Pieces of the given color pinned to their king.
    pub fn pinned_pieces(&self, color: Color) -> (r: Bitboard)
        requires
            self.wf(),
        ensures
            forall|i: int| 0 <= i < 64 ==> #[trigger] r.on(i) == model::pinned(self@.board, color, i),
    {
        attacks::pinned_pieces(self, color)
    }

    /// Pieces of the side to move pinned to its king.
    pub fn king_blockers(&self) -> (r: Bitboard)
        requires
            self.wf(),
        ensures
            forall|i: int| 0 <= i < 64 ==> #[trigger] r.on(i) == model::pinned(self@.board, self.stm, i),
    {
        attacks::pinned_pieces(self, self.stm)
    }

    /// The Zobrist hash from scratch.
    pub fn calc_zobrist(&self) -> (key: u64)
        requires
            self.wf(),
        ensures
            key == model::zobrist_of(self@),
    {
        let mut key: u64 = 0;
        let mut s: u8 = 0;
        while s < 64
            invariant
                s <= 64,
                key == model::board_key(self@.board, s as nat),
            decreases 64 - s,
        {
            proof {
                zobrist::lemma_xor_zero(key);
            }
            match self.man_at(Square(s)) {
                Some(p) => {
                    key = key ^ zobrist::key_piece(p.pt, p.color, Square(s));
                },
                None => {},
            }
            s = s + 1;
        }
        proof {
            zobrist::lemma_xor_zero(key);
            zobrist::lemma_xor_zero(key ^ model::side_term(self.stm));
            zobrist::lemma_xor_zero(
                key ^ model::side_term(self.stm) ^ zobrist::castling_key(self.castling_rights),
            );
            reveal(zobrist::castling_key);
        }
        if self.stm == Color::Black {
            key = key ^ zobrist::key_side();
        }
        if self.castling_rights != 0 {
            key = key ^ zobrist::key_castling(self.castling_rights);
        }
        match self.en_passant {
            Some(ep) => {
                key = key ^ zobrist::key_ep(ep);
            },
            None => {},
        }
        key
    }

    /// The Zobrist hash of the pawns from scratch.
    pub fn calc_pawn_hash(&self) -> (key: u64)
        requires
            self.wf(),
        ensures
            key == model::pawn_zobrist_of(self@.board),
    {
        let mut key: u64 = 0;
        let mut s: u8 = 0;
        while s < 64
            invariant
                s <= 64,
                key == model::board_key(model::pawns_only(self@.board), s as nat),
            decreases 64 - s,
        {
            proof {
                zobrist::lemma_xor_zero(key);
            }
            match self.man_at(Square(s)) {
                Some(p) => {
                    if p.pt == PieceType::Pawn {
                        key = key ^ zobrist::key_piece(PieceType::Pawn, p.color, Square(s));
                    }
                },
                None => {},
            }
            s = s + 1;
        }
        key
    }
}

impl Default for Position {
    fn default() -> (pos: Self)
        ensures
            pos.wf(),
            pos@ == blank_position(),
            model::hashes_ok(pos@),
    {
        Position::new()
    }
}

fn lower(a: u8, b: u8) -> (r: u8)
    ensures
        r == least(a as int, b as int),
{
    if a <= b {
        a
    } else {
        b
    }
}

fn upper(a: u8, b: u8) -> (r: u8)
    ensures
        r == most(a as int, b as int),
{
    if a >= b {
        a
    } else {
        b
    }
}

pub(crate) proof fn lemma_empty_keys(b: Board, n: nat)
    requires
        b.len() == 64,
        n <= 64,
        forall|i: int| 0 <= i < 64 ==> b[i] is None,
    ensures
        model::board_key(b, n) == 0,
    decreases n,
{
    if n > 0 {
        lemma_empty_keys(b, (n - 1) as nat);
        zobrist::lemma_xor_zero(0);
    }
}

} // verus!
