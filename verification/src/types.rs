//! Squares, colors, piece types and bitboards.

use vstd::prelude::*;
use crate::bits;

verus! {

/// Longest line of play that the search follows.
pub const MAX_PLY: usize = 256;

/// Deepest iteration of iterative deepening.
pub const MAX_DEPTH: i32 = 128;

/// Larger than any score.
pub const INF: i32 = 50_000;

/// No window reaches further than this, on either side. It leaves room for the distance of a mate and for the
/// difference to an evaluation.
pub const FARTHEST: i32 = 2_147_000_000;

/// Score of delivering mate at the root.
pub const MATE: i32 = 49_000;

/// Scores beyond this bound announce a forced mate.
pub const MATE_BOUND: i32 = 48_000;

/// Game phase of the full starting army.
pub const TOTAL_PHASE: i32 = 24;

#[derive(Clone, Copy, PartialEq, Eq, Debug, Structural)]
pub enum Color {
    White,
    Black,
}

impl Color {
    pub open spec fn other(self) -> Color {
        match self {
            Color::White => Color::Black,
            Color::Black => Color::White,
        }
    }

    pub open spec fn idx(self) -> int {
        match self {
            Color::White => 0,
            Color::Black => 1,
        }
    }

    /// The rank the color's pieces start on.
    pub open spec fn home_rank(self) -> int {
        match self {
            Color::White => 0,
            Color::Black => 7,
        }
    }

    pub fn opposite(self) -> (c: Color)
        ensures
            c == self.other(),
    {
        match self {
            Color::White => Color::Black,
            Color::Black => Color::White,
        }
    }

    pub fn as_usize(self) -> (n: usize)
        ensures
            n == self.idx(),
    {
        match self {
            Color::White => 0,
            Color::Black => 1,
        }
    }

    pub fn back_rank(self) -> (r: u8)
        ensures
            r == self.home_rank(),
    {
        match self {
            Color::White => 0,
            Color::Black => 7,
        }
    }
}

#[derive(Clone, Copy, PartialEq, Eq, Debug, Structural)]
pub enum PieceType {
    Pawn,
    Knight,
    Bishop,
    Rook,
    Queen,
    King,
    /// No piece at all.
    Empty,
}

/// The lower-case letter of a piece type.
pub open spec fn letter(pt: PieceType) -> char {
    match pt {
        PieceType::Pawn => 'p',
        PieceType::Knight => 'n',
        PieceType::Bishop => 'b',
        PieceType::Rook => 'r',
        PieceType::Queen => 'q',
        PieceType::King => 'k',
        PieceType::Empty => '.',
    }
}

/// The letter of a piece in FEN: upper case for White, lower case for Black.
pub open spec fn piece_letter(pt: PieceType, color: Color) -> char {
    match color {
        Color::Black => letter(pt),
        Color::White => match pt {
            PieceType::Pawn => 'P',
            PieceType::Knight => 'N',
            PieceType::Bishop => 'B',
            PieceType::Rook => 'R',
            PieceType::Queen => 'Q',
            PieceType::King => 'K',
            PieceType::Empty => '.',
        },
    }
}

/// The piece type that a FEN letter stands for, in either case.
pub open spec fn letter_type(ch: char) -> PieceType {
    if ch == 'p' || ch == 'P' {
        PieceType::Pawn
    } else if ch == 'n' || ch == 'N' {
        PieceType::Knight
    } else if ch == 'b' || ch == 'B' {
        PieceType::Bishop
    } else if ch == 'r' || ch == 'R' {
        PieceType::Rook
    } else if ch == 'q' || ch == 'Q' {
        PieceType::Queen
    } else if ch == 'k' || ch == 'K' {
        PieceType::King
    } else {
        PieceType::Empty
    }
}

impl PieceType {
    pub open spec fn idx(self) -> int {
        match self {
            PieceType::Pawn => 0,
            PieceType::Knight => 1,
            PieceType::Bishop => 2,
            PieceType::Rook => 3,
            PieceType::Queen => 4,
            PieceType::King => 5,
            PieceType::Empty => 6,
        }
    }

    pub fn as_usize(self) -> (n: usize)
        ensures
            n == self.idx(),
    {
        match self {
            PieceType::Pawn => 0,
            PieceType::Knight => 1,
            PieceType::Bishop => 2,
            PieceType::Rook => 3,
            PieceType::Queen => 4,
            PieceType::King => 5,
            PieceType::Empty => 6,
        }
    }

    pub fn is_none(self) -> (b: bool)
        ensures
            b == (self == PieceType::Empty),
    {
        self == PieceType::Empty
    }

    pub fn to_char(self, color: Color) -> (ch: char)
        ensures
            ch == piece_letter(self, color),
    {
        match (self, color) {
            (PieceType::Pawn, Color::White) => 'P',
            (PieceType::Knight, Color::White) => 'N',
            (PieceType::Bishop, Color::White) => 'B',
            (PieceType::Rook, Color::White) => 'R',
            (PieceType::Queen, Color::White) => 'Q',
            (PieceType::King, Color::White) => 'K',
            (PieceType::Pawn, Color::Black) => 'p',
            (PieceType::Knight, Color::Black) => 'n',
            (PieceType::Bishop, Color::Black) => 'b',
            (PieceType::Rook, Color::Black) => 'r',
            (PieceType::Queen, Color::Black) => 'q',
            (PieceType::King, Color::Black) => 'k',
            (PieceType::Empty, _) => '.',
        }
    }

    pub fn from_char(ch: char) -> (pt: PieceType)
        ensures
            pt == letter_type(ch),
    {
        match ch {
            'p' | 'P' => PieceType::Pawn,
            'n' | 'N' => PieceType::Knight,
            'b' | 'B' => PieceType::Bishop,
            'r' | 'R' => PieceType::Rook,
            'q' | 'Q' => PieceType::Queen,
            'k' | 'K' => PieceType::King,
            _ => PieceType::Empty,
        }
    }
}

/// File of a square index, 0 for the a-file.
pub open spec fn file_of(s: int) -> int {
    s % 8
}

/// Rank of a square index, 0 for the first rank.
pub open spec fn rank_of(s: int) -> int {
    s / 8
}

/// The square one rank away that shares the upper bits of the rank:
/// rank 1 and 2 are paired, 3 and 4, 5 and 6, 7 and 8.
pub open spec fn rank_mate(s: int) -> int {
    if (s / 8) % 2 == 0 {
        s + 8
    } else {
        s - 8
    }
}

/// The two characters that name a square, file letter first.
pub open spec fn square_name(s: int) -> Seq<char> {
    seq![('a' as u8 + file_of(s)) as char, ('1' as u8 + rank_of(s)) as char]
}

/// A square of the board: 0 is a1, 7 is h1, 63 is h8.
#[derive(Clone, Copy, PartialEq, Eq, Debug, Structural)]
pub struct Square(pub u8);

impl Square {
    pub open spec fn wf(self) -> bool {
        self.0 < 64
    }

    pub fn from_coords(file: u8, rank: u8) -> (s: Square)
        requires
            file < 8,
            rank < 8,
        ensures
            s.wf(),
            s.0 == rank * 8 + file,
    {
        Square(rank * 8 + file)
    }

    pub fn file(self) -> (f: u8)
        ensures
            f == file_of(self.0 as int),
            f < 8,
    {
        self.0 % 8
    }

    pub fn rank(self) -> (r: u8)
        ensures
            r == rank_of(self.0 as int),
    {
        self.0 / 8
    }

    /// The same file on the mirrored rank.
    pub fn flip_rank(self) -> (s: Square)
        requires
            self.wf(),
        ensures
            s.wf(),
            file_of(s.0 as int) == file_of(self.0 as int),
            rank_of(s.0 as int) == 7 - rank_of(self.0 as int),
    {
        Square((7 - self.0 / 8) * 8 + self.0 % 8)
    }

    /// The same rank on the mirrored file.
    pub fn flip_file(self) -> (s: Square)
        requires
            self.wf(),
        ensures
            s.wf(),
            file_of(s.0 as int) == 7 - file_of(self.0 as int),
            rank_of(s.0 as int) == rank_of(self.0 as int),
    {
        Square((self.0 / 8) * 8 + (7 - self.0 % 8))
    }

    /// The square of the en passant victim for a capture landing here.
    pub fn toggle_rank(self) -> (s: Square)
        requires
            self.wf(),
        ensures
            s.wf(),
            s.0 == rank_mate(self.0 as int),
    {
        let x: u8 = self.0;
        proof {
            assert(x < 64 ==> (x ^ 8) < 64 && (x ^ 8) == if (x / 8) % 2 == 0 {
                x + 8
            } else {
                x - 8
            }) by (bit_vector);
        }
        Square(x ^ 8)
    }

    /// The letter of this square's file and the digit of its rank.
    pub fn name_chars(self) -> (c: (char, char))
        requires
            self.wf(),
        ensures
            seq![c.0, c.1] == square_name(self.0 as int),
    {
        let f: u8 = self.0 % 8;
        let r: u8 = self.0 / 8;
        (('a' as u8 + f) as char, ('1' as u8 + r) as char)
    }
}

/// A set of squares, one bit per square.
#[derive(Clone, Copy, PartialEq, Eq, Debug, Structural)]
pub struct Bitboard(pub u64);

impl Bitboard {
    pub fn empty() -> (b: Bitboard)
        ensures
            b.0 == 0,
            forall|i: int| !#[trigger] b.on(i),
    {
        proof {
            bits::lemma_member_ops();
        }
        Bitboard(0)
    }

    /// Square `i` is in the set.
    pub open spec fn on(self, i: int) -> bool {
        bits::member(self.0, i)
    }

    /// Number of squares in the set.
    pub open spec fn size(self) -> nat {
        bits::count(self.0, 64)
    }

    pub fn check_bit(self, sq: Square) -> (b: bool)
        requires
            sq.wf(),
        ensures
            b == self.on(sq.0 as int),
    {
        proof {
            reveal(bits::member);
        }
        (self.0 >> (sq.0 as u64)) & 1 == 1
    }

    pub fn set_bit(&mut self, sq: Square)
        requires
            sq.wf(),
        ensures
            forall|i: int|
                #![trigger final(self).on(i)]
                final(self).on(i) == (old(self).on(i) || i == sq.0),
    {
        proof {
            bits::lemma_member_ops();
        }
        self.0 = self.0 | (1u64 << sq.0);
    }

    pub fn clear_bit(&mut self, sq: Square)
        requires
            sq.wf(),
        ensures
            forall|i: int|
                #![trigger final(self).on(i)]
                final(self).on(i) == (old(self).on(i) && i != sq.0),
    {
        proof {
            bits::lemma_member_ops();
        }
        self.0 = self.0 & !(1u64 << sq.0);
    }

    pub fn is_empty(self) -> (b: bool)
        ensures
            b == (forall|i: int| !#[trigger] self.on(i)),
            b == (self.0 == 0),
    {
        proof {
            bits::lemma_zero_iff_empty(self.0);
            if forall|i: int| !#[trigger] self.on(i) {
                assert forall|i: int| !#[trigger] bits::member(self.0, i) by {
                    assert(!self.on(i));
                }
            }
        }
        self.0 == 0
    }

    pub fn is_not_empty(self) -> (b: bool)
        ensures
            b == (exists|i: int| #[trigger] self.on(i)),
            b == (self.0 != 0),
    {
        !self.is_empty()
    }

    pub fn popcount(self) -> (n: u32)
        ensures
            n == self.size(),
            n <= 64,
    {
        let mut n: u32 = 0;
        let mut i: u8 = 0;
        while i < 64
            invariant
                i <= 64,
                n == bits::count(self.0, i as nat),
                n <= i,
            decreases 64 - i,
        {
            if self.check_bit(Square(i)) {
                n = n + 1;
            }
            i = i + 1;
        }
        n
    }

    /// The lowest square of the set; 64 for the empty set.
    pub fn lsb(self) -> (s: Square)
        ensures
            s.0 == bits::first(self.0, 0),
            s.0 <= 64,
            s.0 < 64 ==> self.on(s.0 as int),
            forall|i: int| i < s.0 ==> !self.on(i),
    {
        proof {
            bits::lemma_first(self.0, 0);
            bits::lemma_member_ops();
        }
        let mut i: u8 = 0;
        while i < 64 && !self.check_bit(Square(i))
            invariant
                i <= 64,
                bits::first(self.0, 0) == bits::first(self.0, i as int),
            decreases 64 - i,
        {
            i = i + 1;
        }
        Square(i)
    }

    pub fn and(self, other: Bitboard) -> (r: Bitboard)
        ensures
            forall|i: int| #[trigger] r.on(i) == (self.on(i) && other.on(i)),
            r.0 == self.0 & other.0,
    {
        proof {
            bits::lemma_member_ops();
        }
        Bitboard(self.0 & other.0)
    }

    pub fn or(self, other: Bitboard) -> (r: Bitboard)
        ensures
            forall|i: int| #[trigger] r.on(i) == (self.on(i) || other.on(i)),
            r.0 == self.0 | other.0,
    {
        proof {
            bits::lemma_member_ops();
        }
        Bitboard(self.0 | other.0)
    }

    pub fn without(self, other: Bitboard) -> (r: Bitboard)
        ensures
            forall|i: int| #[trigger] r.on(i) == (self.on(i) && !other.on(i)),
            r.0 == self.0 & !other.0,
    {
        proof {
            bits::lemma_member_ops();
        }
        Bitboard(self.0 & !other.0)
    }
}

} // verus!
