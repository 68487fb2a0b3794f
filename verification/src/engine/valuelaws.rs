//! What the numbers of the engine mean: evaluation, leaf counts, speed and fullness.

use vstd::prelude::*;
use crate::arith;
use crate::board::model;
use crate::board::model::{Board, PositionV};
use crate::board::queries;
use crate::engine::eval;
use crate::engine::movegen;
use crate::engine::perft;
use crate::engine::play;
use crate::engine::search::report;
use crate::engine::tt;
use crate::engine::tt::Entry;
use crate::moves::Move;
use crate::psqt;
use crate::types;
use crate::types::{Color, PieceType};

verus! {

// ──────── Evaluation ────────

/// The score lies between the middlegame and the endgame score: it is the one with the full army on the board and
/// the other with bare kings, it moves from the one toward the other as pieces leave, and it is White's score for
/// White and its negation for Black.
pub proof fn law_tapered(acc: Seq<i16>, less: Seq<i16>)
    requires
        acc.len() == 8,
        less.len() == 8,
        less[0] == acc[0],
        less[1] == acc[1],
        less[2] <= acc[2],
    ensures
        ({
            let (mg, eg, phase) = (acc[0] as int, acc[1] as int, acc[2] as int);
            let s = eval::score_of(acc, Color::White);
            &&& eval::score_of(acc, Color::Black) == -s
            &&& phase >= 24 ==> s == mg
            &&& phase <= 0 ==> s == eg
            &&& arith::smaller(mg, eg) <= s <= arith::larger(mg, eg)
            &&& mg >= eg ==> eval::score_of(less, Color::White) <= s
            &&& mg <= eg ==> eval::score_of(less, Color::White) >= s
            &&& 0 <= phase <= 24 && s > 0 ==> 24 * s <= mg * phase + eg * (24 - phase) < 24 * s + 24
        }),
{
    let (mg, eg) = (acc[0] as int, acc[1] as int);
    let (p, q) = (eval::phase_of(acc), eval::phase_of(less));
    let (x, y) = (mg * p + eg * (24 - p), mg * q + eg * (24 - q));
    assert(mg >= eg ==> 24 * eg <= x <= 24 * mg) by (nonlinear_arith)
        requires
            x == mg * p + eg * (24 - p),
            0 <= p <= 24,
    ;
    assert(mg <= eg ==> 24 * mg <= x <= 24 * eg) by (nonlinear_arith)
        requires
            x == mg * p + eg * (24 - p),
            0 <= p <= 24,
    ;
    assert(p == 24 ==> x == mg * 24) by (nonlinear_arith)
        requires
            x == mg * p + eg * (24 - p),
    ;
    assert(p == 0 ==> x == eg * 24) by (nonlinear_arith)
        requires
            x == mg * p + eg * (24 - p),
    ;
    assert(mg >= eg ==> y <= x) by (nonlinear_arith)
        requires
            x == mg * p + eg * (24 - p),
            y == mg * q + eg * (24 - q),
            q <= p,
    ;
    assert(mg <= eg ==> y >= x) by (nonlinear_arith)
        requires
            x == mg * p + eg * (24 - p),
            y == mg * q + eg * (24 - q),
            q <= p,
    ;
}

/// What a piece of White's on `s` adds to a lane: 0 is the middlegame's, 1 the endgame's.
pub open spec fn worth(pt: PieceType, s: int, l: int) -> int {
    psqt::vec_of(pt, s, Color::White)[l] as int
}

/// What a piece adds. Wherever they stand, a queen is worth more than a rook, a rook more than a bishop or knight,
/// and those more than a pawn, in the middlegame as in the endgame; a king is worth nothing but where it stands.
pub proof fn law_piece_values(s: int, t: int, l: int)
    requires
        0 <= s < 64,
        0 <= t < 64,
        0 <= l < 2,
    ensures
        worth(PieceType::Queen, s, l) > worth(PieceType::Rook, t, l),
        worth(PieceType::Rook, s, l) > worth(PieceType::Bishop, t, l),
        worth(PieceType::Rook, s, l) > worth(PieceType::Knight, t, l),
        8 <= t < 56 ==> worth(PieceType::Bishop, s, l) > worth(PieceType::Pawn, t, l),
        8 <= t < 56 ==> worth(PieceType::Knight, s, l) > worth(PieceType::Pawn, t, l),
        8 <= s < 56 ==> worth(PieceType::Pawn, s, l) > 0,
        -64 <= worth(PieceType::King, s, l) <= 64,
        psqt::vec_of(PieceType::Queen, s, Color::White)[2] == 4,
        psqt::vec_of(PieceType::Rook, s, Color::White)[2] == 2,
        psqt::vec_of(PieceType::Bishop, s, Color::White)[2] == 1,
        psqt::vec_of(PieceType::Knight, s, Color::White)[2] == 1,
        psqt::vec_of(PieceType::Pawn, s, Color::White)[2] == 0,
        psqt::vec_of(PieceType::King, s, Color::White)[2] == 0,
{
    reveal(psqt::vec_of);
    let (f, r) = (types::file_of(s), types::rank_of(s));
    let (g, q) = (types::file_of(t), types::rank_of(t));
    assert(0 <= f < 8 && 0 <= r < 8 && 0 <= g < 8 && 0 <= q < 8);
    assert(1 <= psqt::rim(f, r) <= 7 && 1 <= psqt::rim(g, q) <= 7);
    assert(1 <= psqt::spread(f) <= 7);
}

/// A pawn is worth more the further it has come in the endgame, and no less in the middlegame.
pub proof fn law_pawns_advance(s: int)
    requires
        8 <= s < 48,
    ensures
        worth(PieceType::Pawn, s + 8, 0) >= worth(PieceType::Pawn, s, 0),
        worth(PieceType::Pawn, s + 8, 1) > worth(PieceType::Pawn, s, 1),
{
    reveal(psqt::vec_of);
    let (f, r) = (types::file_of(s), types::rank_of(s));
    assert(types::file_of(s + 8) == f && types::rank_of(s + 8) == r + 1);
    assert(0 <= f < 8 && 1 <= r < 6);
    assert(psqt::rim(f, r + 1) <= psqt::rim(f, r) + 2);
}

/// How far a square lies from the center, by the farther of its file and its rank.
pub open spec fn off_center(s: int) -> int {
    let file = arith::larger(2 * (s % 8) - 7, 7 - 2 * (s % 8));
    let rank = arith::larger(2 * (s / 8) - 7, 7 - 2 * (s / 8));
    arith::larger(file, rank)
}

/// Knights, bishops and queens are worth more the nearer they stand to the center, and so is a king in the endgame; in
/// the middlegame a king is worth more the further back it stands; and a rook gains on the seventh rank alone, and only
/// in the middlegame.
pub proof fn law_placement_values(s: int, t: int, l: int)
    requires
        0 <= s < 64,
        0 <= t < 64,
        0 <= l < 2,
    ensures
        off_center(s) < off_center(t) ==> {
            &&& worth(PieceType::Knight, s, l) > worth(PieceType::Knight, t, l)
            &&& worth(PieceType::Bishop, s, l) > worth(PieceType::Bishop, t, l)
            &&& worth(PieceType::Queen, s, l) > worth(PieceType::Queen, t, l)
            &&& worth(PieceType::King, s, 1) > worth(PieceType::King, t, 1)
        },
        off_center(s) == off_center(t) ==> {
            &&& worth(PieceType::Knight, s, l) == worth(PieceType::Knight, t, l)
            &&& worth(PieceType::Bishop, s, l) == worth(PieceType::Bishop, t, l)
            &&& worth(PieceType::Queen, s, l) == worth(PieceType::Queen, t, l)
            &&& worth(PieceType::King, s, 1) == worth(PieceType::King, t, 1)
        },
        s % 8 == t % 8 && s / 8 < t / 8 ==> worth(PieceType::King, s, 0) > worth(PieceType::King, t, 0),
        s / 8 == 6 && t / 8 != 6 ==> worth(PieceType::Rook, s, 0) > worth(PieceType::Rook, t, 0),
        s / 8 != 6 && t / 8 != 6 ==> worth(PieceType::Rook, s, 0) == worth(PieceType::Rook, t, 0),
        worth(PieceType::Rook, s, 1) == worth(PieceType::Rook, t, 1),
{
    reveal(psqt::vec_of);
    let (f, r) = (types::file_of(s), types::rank_of(s));
    let (g, q) = (types::file_of(t), types::rank_of(t));
    assert(0 <= f < 8 && 0 <= r < 8 && 0 <= g < 8 && 0 <= q < 8);
    assert(psqt::rim(f, r) == off_center(s) && psqt::rim(g, q) == off_center(t));
}

// ──────── Counting leaves ────────

/// One move deep, the count is the number of legal moves. If each of `n` legal moves leaves the same number of
/// ways to go on, the count is `n` times that number; and a position without a legal move counts nothing.
pub proof fn law_leaves(p: PositionV, depth: nat, each: nat)
    requires
        forall|mv: Move| #[trigger] movegen::legal(p, mv) ==> perft::leaves(play::after(p, mv), depth) == each,
    ensures
        perft::leaves(p, 0) == 1,
        perft::leaves(p, 1) == movegen::legal_moves(p).len(),
        perft::leaves(p, depth + 1) == movegen::legal_moves(p).len() * each,
        movegen::legal_moves(p).len() == 0 ==> perft::leaves(p, depth + 1) == 0,
        movegen::legal_moves(p).no_duplicates(),
        forall|mv: Move| movegen::legal_moves(p).contains(mv) <==> #[trigger] movegen::legal(p, mv),
{
    let ms = movegen::legal_moves(p);
    movegen::law_legal_moves_exact(p);
    assert forall|i: int| 0 <= i < ms.len() implies perft::leaves(play::after(p, #[trigger] ms[i]), depth) == each by {
        assert(ms.contains(ms[i]));
        assert(movegen::legal(p, ms[i]));
    }
    lemma_leaves_each(p, ms, ms.len(), depth, each);
    assert forall|i: int| 0 <= i < ms.len() implies perft::leaves(play::after(p, #[trigger] ms[i]), 0) == 1 by {}
    lemma_leaves_each(p, ms, ms.len(), 0, 1);
}

proof fn lemma_leaves_each(p: PositionV, ms: Seq<Move>, n: nat, depth: nat, each: nat)
    requires
        n <= ms.len(),
        forall|i: int| 0 <= i < n ==> perft::leaves(play::after(p, #[trigger] ms[i]), depth) == each,
    ensures
        perft::leaves_behind(p, ms, n, depth + 1) == n * each,
    decreases n,
{
    if n > 0 {
        let m = (n - 1) as nat;
        lemma_leaves_each(p, ms, m, depth, each);
        assert(perft::leaves(play::after(p, ms[n - 1]), depth) == each);
        assert((depth + 1 - 1) as nat == depth);
        assert(perft::leaves_behind(p, ms, n, depth + 1) == perft::leaves_behind(p, ms, m, depth + 1) + perft::leaves(
            play::after(p, ms[n - 1]),
            depth,
        ));
        assert(m * each + each == n * each) by (nonlinear_arith)
            requires
                m + 1 == n,
        ;
    } else {
        assert(0 * each == 0) by (nonlinear_arith);
    }
}

// ──────── Speed and fullness ────────

/// Nodes per second: as many as fit into the nodes searched, for a time that counts as at least one millisecond,
/// and no more than the counter holds.
pub proof fn law_speed(nodes: u64, ms: u128)
    requires
        ms > 0,
    ensures
        0 <= report::speed(nodes, ms) <= u64::MAX,
        report::speed(nodes, ms) * ms <= nodes * 1000,
        report::speed(nodes, ms) < u64::MAX ==> nodes * 1000 < (report::speed(nodes, ms) + 1) * ms,
{
    let (x, m) = (nodes as int * 1000, ms as int);
    let q = x / m;
    assert(q * m <= x < (q + 1) * m && q >= 0) by (nonlinear_arith)
        requires
            q == x / m,
            m > 0,
            x >= 0,
    ;
    if q > u64::MAX {
        assert(u64::MAX as int * m <= q * m) by (nonlinear_arith)
            requires
                q > u64::MAX as int,
                m > 0,
        ;
    }
}

/// A table is as full as the share of its first thousand entries that are in use: nothing in an empty one, all of it
/// in one without an empty entry, and at most 1000 parts in a thousand.
pub proof fn law_fullness(t: Seq<Entry>)
    requires
        t.len() > 0,
    ensures
        0 <= tt::fullness(t) <= 1000,
        (forall|i: int| 0 <= i < t.len() ==> (#[trigger] t[i]).bound == 0) ==> tt::fullness(t) == 0,
        (forall|i: int| 0 <= i < t.len() ==> (#[trigger] t[i]).bound != 0) ==> tt::fullness(t) == 1000,
        t.len() >= 1000 && tt::fullness(t) == 0 ==> forall|i: int| 0 <= i < 1000 ==> (#[trigger] t[i]).bound == 0,
{
    let n = if t.len() >= 1000 {
        1000int
    } else {
        t.len() as int
    };
    lemma_used(t, n);
    let u = tt::used(t, n);
    assert(0 <= u * 1000 / n <= 1000) by (nonlinear_arith)
        requires
            0 <= u <= n,
            n > 0,
    ;
    assert(u == n ==> u * 1000 / n == 1000) by (nonlinear_arith)
        requires
            n > 0,
    ;
}

proof fn lemma_used(t: Seq<Entry>, n: int)
    requires
        0 <= n <= t.len(),
    ensures
        0 <= tt::used(t, n) <= n,
        tt::used(t, n) == 0 <==> forall|i: int| 0 <= i < n ==> (#[trigger] t[i]).bound == 0,
        tt::used(t, n) == n <==> forall|i: int| 0 <= i < n ==> (#[trigger] t[i]).bound != 0,
    decreases n,
{
    if n > 0 {
        lemma_used(t, n - 1);
        assert(t[n - 1].bound == 0 || t[n - 1].bound != 0);
        if tt::used(t, n) == n {
            assert forall|i: int| 0 <= i < n implies (#[trigger] t[i]).bound != 0 by {}
        }
        if tt::used(t, n) == 0 {
            assert forall|i: int| 0 <= i < n implies (#[trigger] t[i]).bound == 0 by {}
        }
    }
}

/// A quiescence result never replaces a deeper one of the same position; else it can be read back, as one of
/// depth 0.
pub proof fn law_quiet_results(t: Seq<Entry>, key: u64, ply: int, score: int, mv: Move, bound: u8)
    requires
        tt::table_ok(t),
        0 <= ply <= 256,
        -types::INF <= score <= types::INF,
        bound != 0,
    ensures
        ({
            let u = tt::stored_qs(t, key, ply, score, mv, bound);
            match tt::lookup(t, key, ply) {
                Some((m, v, d, b)) => {
                    &&& d > 0 ==> u == t
                    &&& d <= 0 && mv.0 != 0 ==> tt::lookup(u, key, ply) == Some((mv, score as i32, 0i32, bound))
                    &&& d <= 0 && mv.0 == 0 ==> tt::lookup(u, key, ply) == Some((m, score as i32, 0i32, bound))
                },
                None => tt::lookup(u, key, ply) == Some((mv, score as i32, 0i32, bound)),
            }
        }),
{
    tt::law_read_back(t, key, ply, 0, score, mv, bound);
}

// ──────── Material ────────

/// A piece that is put on a free square is one more of its type, and of no other, whoever owns it; and an empty board has
/// none.
pub proof fn law_tally(b: Board, s: int, pt: PieceType, c: Color, k: PieceType)
    requires
        b.len() == 64,
        0 <= s < 64,
        b[s] is None,
        k != PieceType::Empty,
    ensures
        queries::tally(b.update(s, model::man(pt, c)), k) == queries::tally(b, k) + if k == pt {
            1int
        } else {
            0
        },
        (forall|i: int| 0 <= i < 64 ==> #[trigger] b[i] is None) ==> queries::tally(b, k) == 0 && queries::material(b)
            == 0,
{
    lemma_census(b, s, pt, c, k, 64);
    if forall|i: int| 0 <= i < 64 ==> #[trigger] b[i] is None {
        lemma_no_piece(b, k, 64);
        lemma_no_piece(b, PieceType::Pawn, 64);
        lemma_no_piece(b, PieceType::Knight, 64);
        lemma_no_piece(b, PieceType::Bishop, 64);
        lemma_no_piece(b, PieceType::Rook, 64);
        lemma_no_piece(b, PieceType::Queen, 64);
    }
}

proof fn lemma_no_piece(b: Board, k: PieceType, n: nat)
    requires
        n <= 64,
        k != PieceType::Empty,
        forall|i: int| 0 <= i < 64 ==> #[trigger] b[i] is None,
    ensures
        queries::census(b, k, n) == 0,
    decreases n,
{
    if n > 0 {
        lemma_no_piece(b, k, (n - 1) as nat);
        assert(b[n - 1] is None);
    }
}

/// Material counts a pawn as 1, a knight or bishop as 3, a rook as 5 and a queen as 9, whoever owns them: a piece
/// that is put on a free square adds exactly that.
pub proof fn law_material(b: Board, s: int, pt: PieceType, c: Color)
    requires
        b.len() == 64,
        0 <= s < 64,
        b[s] is None,
    ensures
        queries::material(b.update(s, model::man(pt, c))) == queries::material(b) + match pt {
            PieceType::Pawn => 1int,
            PieceType::Knight => 3,
            PieceType::Bishop => 3,
            PieceType::Rook => 5,
            PieceType::Queen => 9,
            PieceType::King => 0,
            PieceType::Empty => 0,
        },
{
    lemma_census(b, s, pt, c, PieceType::Pawn, 64);
    lemma_census(b, s, pt, c, PieceType::Knight, 64);
    lemma_census(b, s, pt, c, PieceType::Bishop, 64);
    lemma_census(b, s, pt, c, PieceType::Rook, 64);
    lemma_census(b, s, pt, c, PieceType::Queen, 64);
}

proof fn lemma_census(b: Board, s: int, pt: PieceType, c: Color, k: PieceType, n: nat)
    requires
        b.len() == 64,
        0 <= s < 64,
        n <= 64,
        b[s] is None,
        k != PieceType::Empty,
    ensures
        queries::census(b.update(s, model::man(pt, c)), k, n) == queries::census(b, k, n) + if s < n && k == pt {
            1int
        } else {
            0int
        },
    decreases n,
{
    if n > 0 {
        lemma_census(b, s, pt, c, k, (n - 1) as nat);
    }
}

} // verus!
