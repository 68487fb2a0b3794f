//! Material and placement terms, and the eight-lane accumulator that sums them.

use vstd::prelude::*;
use crate::types;
use crate::types::{Color, PieceType, Square};

verus! {

/// `x` reduced to the range of a 16-bit lane.
pub open spec fn wrap(x: int) -> int {
    (x + 32768) % 65536 - 32768
}

/// Eight 16-bit lanes: middlegame score, endgame score, game phase; the rest stay zero.
#[derive(Clone, Copy, PartialEq, Eq, Debug)]
pub struct Vi16x8 {
    pub lanes: [i16; 8],
}

fn lane_plus(a: i16, b: i16) -> (r: i16)
    ensures
        r == wrap(a + b),
{
    a.wrapping_add(b)
}

fn lane_minus(a: i16, b: i16) -> (r: i16)
    ensures
        r == wrap(a - b),
{
    a.wrapping_sub(b)
}

impl View for Vi16x8 {
    type V = Seq<i16>;

    open spec fn view(&self) -> Seq<i16> {
        self.lanes@
    }
}

/// Lane-wise wrapping sum.
#[verifier::opaque]
pub open spec fn plus(a: Seq<i16>, b: Seq<i16>) -> Seq<i16> {
    Seq::new(8, |l: int| wrap(a[l] + b[l]) as i16)
}

/// Lane-wise wrapping difference.
#[verifier::opaque]
pub open spec fn minus(a: Seq<i16>, b: Seq<i16>) -> Seq<i16> {
    Seq::new(8, |l: int| wrap(a[l] - b[l]) as i16)
}

impl Vi16x8 {
    pub fn splat(x: i16) -> (v: Vi16x8)
        ensures
            v@ == Seq::new(8, |l: int| x),
    {
        let v = Vi16x8 { lanes: [x; 8] };
        proof {
            assert(v@ =~= Seq::new(8, |l: int| x));
        }
        v
    }

    pub fn to_array(&self) -> (a: [i16; 8])
        ensures
            a@ == self@,
    {
        self.lanes
    }

    pub fn increase(&mut self, other: &Vi16x8)
        ensures
            final(self)@ == plus(old(self)@, other@),
    {
        let mut i: usize = 0;
        while i < 8
            invariant
                i <= 8,
                forall|l: int| 0 <= l < i ==> self.lanes[l] == wrap(old(self).lanes[l] + other.lanes[l]),
                forall|l: int| i <= l < 8 ==> self.lanes[l] == old(self).lanes[l],
            decreases 8 - i,
        {
            let x: i16 = lane_plus(self.lanes[i], other.lanes[i]);
            self.lanes[i] = x;
            i = i + 1;
        }
        proof {
            reveal(plus);
            assert(self@ =~= plus(old(self)@, other@));
        }
    }

    pub fn decrease(&mut self, other: &Vi16x8)
        ensures
            final(self)@ == minus(old(self)@, other@),
    {
        let mut i: usize = 0;
        while i < 8
            invariant
                i <= 8,
                forall|l: int| 0 <= l < i ==> self.lanes[l] == wrap(old(self).lanes[l] - other.lanes[l]),
                forall|l: int| i <= l < 8 ==> self.lanes[l] == old(self).lanes[l],
            decreases 8 - i,
        {
            let x: i16 = lane_minus(self.lanes[i], other.lanes[i]);
            self.lanes[i] = x;
            i = i + 1;
        }
        proof {
            reveal(minus);
            assert(self@ =~= minus(old(self)@, other@));
        }
    }
}

/// Middlegame value of each piece type.
pub const MG_VALUE: [i16; 7] = [82, 337, 365, 477, 1025, 0, 0];

/// Endgame value of each piece type.
pub const EG_VALUE: [i16; 7] = [94, 281, 297, 512, 936, 0, 0];

/// What each piece type adds to the game phase.
pub const PHASE_VALUE: [i16; 7] = [0, 1, 1, 2, 4, 0, 0];

pub open spec fn spread(x: int) -> int {
    if 2 * x >= 7 {
        2 * x - 7
    } else {
        7 - 2 * x
    }
}

/// How far file `f` and rank `r` lie from the center: 1, 3, 5 or 7.
pub open spec fn rim(f: int, r: int) -> int {
    if spread(f) >= spread(r) {
        spread(f)
    } else {
        spread(r)
    }
}

/// Middlegame placement bonus on file `f` and rank `r`, counted from the owner's side.
pub open spec fn mg_bonus(pt: PieceType, f: int, r: int) -> int {
    match pt {
        PieceType::Pawn => 4 * r - 2 * rim(f, r),
        PieceType::Knight => 20 - 8 * rim(f, r),
        PieceType::Bishop => 12 - 4 * rim(f, r),
        PieceType::Rook => if r == 6 {
            15
        } else {
            0
        },
        PieceType::Queen => 4 - rim(f, r),
        PieceType::King => 4 * spread(f) - 8 * r,
        PieceType::Empty => 0,
    }
}

/// Endgame placement bonus on file `f` and rank `r`, counted from the owner's side.
pub open spec fn eg_bonus(pt: PieceType, f: int, r: int) -> int {
    match pt {
        PieceType::Pawn => 9 * r,
        PieceType::Knight => 12 - 6 * rim(f, r),
        PieceType::Bishop => 8 - 3 * rim(f, r),
        PieceType::Rook => 0,
        PieceType::Queen => 10 - 4 * rim(f, r),
        PieceType::King => 24 - 8 * rim(f, r),
        PieceType::Empty => 0,
    }
}

/// The terms of a piece of White's on file `f` and rank `r`: middlegame, endgame, phase.
pub open spec fn terms(pt: PieceType, f: int, r: int) -> (int, int, int) {
    (
        MG_VALUE[pt.idx()] + mg_bonus(pt, f, r),
        EG_VALUE[pt.idx()] + eg_bonus(pt, f, r),
        PHASE_VALUE[pt.idx()] as int,
    )
}

/// The accumulator vector of one piece. Black's scores are White's on the mirrored rank, negated;
/// the phase counts for both.
#[verifier::opaque]
pub open spec fn vec_of(pt: PieceType, sq: int, color: Color) -> Seq<i16> {
    let f = types::file_of(sq);
    let t = match color {
        Color::White => terms(pt, f, types::rank_of(sq)),
        Color::Black => terms(pt, f, 7 - types::rank_of(sq)),
    };
    match color {
        Color::White => seq![t.0 as i16, t.1 as i16, t.2 as i16, 0, 0, 0, 0, 0],
        Color::Black => seq![(-t.0) as i16, (-t.1) as i16, t.2 as i16, 0, 0, 0, 0, 0],
    }
}

fn away(x: i16) -> (d: i16)
    requires
        0 <= x < 8,
    ensures
        d == spread(x as int),
        1 <= d <= 7,
{
    if 2 * x >= 7 {
        2 * x - 7
    } else {
        7 - 2 * x
    }
}

fn bonuses(pt: PieceType, f: i16, r: i16) -> (b: (i16, i16))
    requires
        0 <= f < 8,
        0 <= r < 8,
    ensures
        b.0 == mg_bonus(pt, f as int, r as int),
        b.1 == eg_bonus(pt, f as int, r as int),
        -100 <= b.0 <= 100,
        -100 <= b.1 <= 100,
{
    let df: i16 = away(f);
    let dr: i16 = away(r);
    let d: i16 = if df >= dr {
        df
    } else {
        dr
    };
    match pt {
        PieceType::Pawn => (4 * r - 2 * d, 9 * r),
        PieceType::Knight => (20 - 8 * d, 12 - 6 * d),
        PieceType::Bishop => (12 - 4 * d, 8 - 3 * d),
        PieceType::Rook => if r == 6 {
            (15, 0)
        } else {
            (0, 0)
        },
        PieceType::Queen => (4 - d, 10 - 4 * d),
        PieceType::King => (4 * df - 8 * r, 24 - 8 * d),
        PieceType::Empty => (0, 0),
    }
}

/// The accumulator vector of a piece of `color` on `sq`.
pub fn get_vec(pt: PieceType, sq: Square, color: Color) -> (v: Vi16x8)
    requires
        sq.wf(),
    ensures
        v@ == vec_of(pt, sq.0 as int, color),
{
    let f: i16 = sq.file() as i16;
    let r: i16 = match color {
        Color::White => sq.rank() as i16,
        Color::Black => 7 - sq.rank() as i16,
    };
    let (bm, be) = bonuses(pt, f, r);
    let i: usize = pt.as_usize();
    let mg: i16 = MG_VALUE[i] + bm;
    let eg: i16 = EG_VALUE[i] + be;
    let ph: i16 = PHASE_VALUE[i];
    let v = match color {
        Color::White => Vi16x8 { lanes: [mg, eg, ph, 0, 0, 0, 0, 0] },
        Color::Black => Vi16x8 { lanes: [-mg, -eg, ph, 0, 0, 0, 0, 0] },
    };
    proof {
        reveal(vec_of);
        assert(v@ =~= vec_of(pt, sq.0 as int, color));
    }
    v
}

} // verus!
