//! What the texts of a position show: the piece placement of a FEN string, the diagram and its facts.

use vstd::prelude::*;
use crate::arith;
use crate::board::diagram;
use crate::board::model::Board;
use crate::board::notation;
use crate::text;
use crate::types;
use crate::types::Color;

verus! {

// ──────── Piece placement ────────

/// What a square shows: the letter of its piece, upper case for White, or a dot.
pub open spec fn shown(b: Board, i: int) -> char {
    match b[i] {
        None => '.',
        Some(p) => {
            let k = p.pt.idx();
            match p.color {
                Color::White => seq!['P', 'N', 'B', 'R', 'Q', 'K', '.'][k],
                Color::Black => seq!['p', 'n', 'b', 'r', 'q', 'k', '.'][k],
            }
        },
    }
}

/// A text with every digit from 1 to 8 spelled out as that many dots.
pub open spec fn spelled(cs: Seq<char>) -> Seq<char>
    decreases cs.len(),
{
    if cs.len() == 0 {
        Seq::empty()
    } else {
        spelled(cs.drop_last()) + if '1' <= cs.last() <= '8' {
            dots(cs.last() as int - '0' as int)
        } else {
            seq![cs.last()]
        }
    }
}

pub open spec fn dots(n: int) -> Seq<char> {
    Seq::new(n as nat, |i: int| '.')
}

/// What rank `r` shows from file `f` on.
pub open spec fn rank_shown(b: Board, r: int, f: int) -> Seq<char> {
    Seq::new((8 - f) as nat, |g: int| shown(b, r * 8 + f + g))
}

/// What the ranks from `r` down to the first show, with a slash between two of them.
pub open spec fn ranks_shown(b: Board, r: int) -> Seq<char>
    decreases r,
{
    if r <= 0 {
        rank_shown(b, 0, 0)
    } else {
        rank_shown(b, r, 0) + seq!['/'] + ranks_shown(b, r - 1)
    }
}

proof fn lemma_spelled_sum(a: Seq<char>, c: Seq<char>)
    ensures
        spelled(a + c) == spelled(a) + spelled(c),
    decreases c.len(),
{
    if c.len() == 0 {
        assert(a + c =~= a);
        assert(spelled(a) + spelled(c) =~= spelled(a));
    } else {
        lemma_spelled_sum(a, c.drop_last());
        assert((a + c).drop_last() =~= a + c.drop_last());
        assert((a + c).last() == c.last());
        let last = if '1' <= c.last() <= '8' {
            dots(c.last() as int - '0' as int)
        } else {
            seq![c.last()]
        };
        assert((spelled(a) + spelled(c.drop_last())) + last =~= spelled(a) + (spelled(c.drop_last()) + last));
    }
}

proof fn lemma_spelled_one(c: char)
    ensures
        '1' <= c <= '8' ==> spelled(seq![c]) == dots(c as int - '0' as int),
        !('1' <= c <= '8') ==> spelled(seq![c]) == seq![c],
{
    let s = seq![c];
    assert(s.drop_last() =~= Seq::<char>::empty());
    assert(spelled(s.drop_last()) =~= Seq::<char>::empty());
    if '1' <= c <= '8' {
        assert(Seq::<char>::empty() + dots(c as int - '0' as int) =~= dots(c as int - '0' as int));
    } else {
        assert(Seq::<char>::empty() + seq![c] =~= seq![c]);
    }
}

proof fn lemma_spelled_skip(empty: int)
    requires
        0 <= empty <= 8,
    ensures
        spelled(notation::skip_text(empty)) == dots(empty),
{
    if empty > 0 {
        lemma_spelled_one(text::digit_char(empty));
    } else {
        assert(dots(0) =~= Seq::<char>::empty());
    }
}

proof fn lemma_rank_spelled(b: Board, r: int, f: int, empty: int)
    requires
        0 <= empty <= f <= 8,
        0 <= r < 8,
    ensures
        spelled(notation::rank_text(b, r, f, empty)) == dots(empty) + rank_shown(b, r, f),
    decreases 8 - f,
{
    if f >= 8 {
        lemma_spelled_skip(empty);
        assert(dots(empty) + rank_shown(b, r, f) =~= dots(empty));
    } else {
        match b[r * 8 + f] {
            None => {
                lemma_rank_spelled(b, r, f + 1, empty + 1);
                assert(shown(b, r * 8 + f) == '.');
                assert(dots(empty + 1) + rank_shown(b, r, f + 1) =~= dots(empty) + rank_shown(b, r, f));
            },
            Some(p) => {
                let c = types::piece_letter(p.pt, p.color);
                lemma_rank_spelled(b, r, f + 1, 0);
                lemma_spelled_skip(empty);
                lemma_spelled_one(c);
                let (head, rest) = (notation::skip_text(empty), notation::rank_text(b, r, f + 1, 0));
                assert(head.push(c) + rest =~= head + (seq![c] + rest));
                lemma_spelled_sum(head, seq![c] + rest);
                lemma_spelled_sum(seq![c], rest);
                assert(c == shown(b, r * 8 + f));
                assert(dots(0) =~= Seq::<char>::empty());
                assert(dots(empty) + (seq![c] + (dots(0) + rank_shown(b, r, f + 1))) =~= dots(empty) + rank_shown(
                    b,
                    r,
                    f,
                ));
            },
        }
    }
}

/// The piece placement of a FEN string. With its digits spelled out it shows the board square by square: the eighth
/// rank first, each from the a-file on, and a slash between two ranks.
pub proof fn law_placement_text(b: Board, r: int)
    requires
        0 <= r < 8,
    ensures
        spelled(notation::ranks_text(b, r)) == ranks_shown(b, r),
        notation::board_text(b) == notation::ranks_text(b, 7),
    decreases r,
{
    lemma_rank_spelled(b, r, 0, 0);
    let line = notation::rank_text(b, r, 0, 0);
    assert(dots(0) + rank_shown(b, r, 0) =~= rank_shown(b, r, 0));
    if r > 0 {
        law_placement_text(b, r - 1);
        let rest = notation::ranks_text(b, r - 1);
        assert(line.push('/') + rest =~= line + (seq!['/'] + rest));
        lemma_spelled_sum(line, seq!['/'] + rest);
        lemma_spelled_sum(seq!['/'], rest);
        lemma_spelled_one('/');
        assert(rank_shown(b, r, 0) + (seq!['/'] + ranks_shown(b, r - 1)) =~= ranks_shown(b, r));
    }
}

// ──────── The diagram ────────

/// A rank of the diagram gives each square three columns, the middle one of which shows what stands there.
pub proof fn law_diagram_squares(b: Board, r: int, n: int, i: int)
    requires
        0 <= i < n <= 8,
        0 <= r < 8,
    ensures
        ({
            let cs = diagram::squares_text(b, r, n);
            &&& cs.len() == 3 * n
            &&& cs[3 * i] == ' '
            &&& cs[3 * i + 1] == shown(b, r * 8 + i)
            &&& cs[3 * i + 2] == ' '
        }),
    decreases n,
{
    let o = b[r * 8 + n - 1];
    assert(o matches Some(p) ==> types::piece_letter(p.pt, p.color) == shown(b, r * 8 + n - 1));
    if n == 1 {
        assert(diagram::squares_text(b, r, 0) =~= Seq::empty());
    } else if i < n - 1 {
        law_diagram_squares(b, r, n - 1, i);
    } else {
        law_diagram_squares(b, r, n - 1, 0);
    }
}

/// The number that hexadecimal digits write.
pub open spec fn hex_value(cs: Seq<char>) -> int
    decreases cs.len(),
{
    if cs.len() == 0 {
        0
    } else {
        16 * hex_value(cs.drop_last()) + if '0' <= cs.last() <= '9' {
            cs.last() as int - '0' as int
        } else {
            cs.last() as int - 'a' as int + 10
        }
    }
}

pub open spec fn sixteens(k: nat) -> int
    decreases k,
{
    if k == 0 {
        1
    } else {
        16 * sixteens((k - 1) as nat)
    }
}

/// The hash is shown in hexadecimal: `k` digits that write its remainder by the `k`-th power of sixteen, so that sixteen
/// digits write all of it.
pub proof fn law_hex(n: int, k: nat)
    requires
        n >= 0,
    ensures
        diagram::hex_text(n, k).len() == k,
        hex_value(diagram::hex_text(n, k)) == n % sixteens(k),
        sixteens(k) > 0,
    decreases k,
{
    if k > 0 {
        let j = (k - 1) as nat;
        law_hex(n / 16, j);
        let cs = diagram::hex_text(n, k);
        assert(cs.drop_last() =~= diagram::hex_text(n / 16, j));
        let s = sixteens(j);
        let (a, r) = ((n / 16) / s, (n / 16) % s);
        assert(n / 16 == a * s + r && 0 <= r < s) by (nonlinear_arith)
            requires
                a == (n / 16) / s,
                r == (n / 16) % s,
                s > 0,
        ;
        let x = 16 * r + n % 16;
        assert(n == a * (16 * s) + x) by (nonlinear_arith)
            requires
                n / 16 == a * s + r,
                x == 16 * r + n % 16,
                n == 16 * (n / 16) + n % 16,
        ;
        assert(n % (16 * s) == x) by (nonlinear_arith)
            requires
                n == a * (16 * s) + x,
                0 <= x < 16 * s,
                s > 0,
        ;
    } else {
        assert(n % 1 == 0);
    }
}

/// A score is shown in pawns: its sign, the whole pawns, a point and two decimals, which together write its magnitude
/// in hundredths.
pub proof fn law_pawns_text(score: int)
    ensures
        ({
            let cs = diagram::pawns_text(score);
            let n = cs.len() as int;
            &&& n >= 5
            &&& cs[0] == if score < 0 {
                '-'
            } else {
                '+'
            }
            &&& cs[n - 3] == '.'
            &&& text::all_digits(cs.subrange(1, n - 3)) && text::is_digit(cs[n - 2]) && text::is_digit(cs[n - 1])
            &&& 100 * text::decimal_value(cs.subrange(1, n - 3)) + 10 * text::digit_value(cs[n - 2])
                + text::digit_value(cs[n - 1]) == arith::magnitude(score)
        }),
{
    let m = arith::magnitude(score);
    text::lemma_decimal_round_trip(m / 100);
    let cs = diagram::pawns_text(score);
    assert(cs.subrange(1, cs.len() - 3) =~= text::decimal(m / 100));
}

/// The letters of the rights that are held are shown, in the order `KQkq`, and no others.
pub proof fn law_rights_shown(rights: u8)
    ensures
        ({
            let cs = diagram::rights_letters(rights);
            &&& cs.contains('K') <==> rights & 1 != 0
            &&& cs.contains('Q') <==> rights & 2 != 0
            &&& cs.contains('k') <==> rights & 4 != 0
            &&& cs.contains('q') <==> rights & 8 != 0
            &&& forall|i: int| 0 <= i < cs.len() ==> #[trigger] cs[i] == 'K' || cs[i] == 'Q' || cs[i] == 'k' || cs[i] == 'q'
        }),
{
    let cs = diagram::rights_letters(rights);
    let (a, b, c) = (
        if rights & 1 != 0 {
            1int
        } else {
            0
        },
        if rights & 2 != 0 {
            1int
        } else {
            0
        },
        if rights & 4 != 0 {
            1int
        } else {
            0
        },
    );
    assert(rights & 1 != 0 ==> cs[0] == 'K');
    assert(rights & 2 != 0 ==> cs[a] == 'Q');
    assert(rights & 4 != 0 ==> cs[a + b] == 'k');
    assert(rights & 8 != 0 ==> cs[a + b + c] == 'q');
}

} // verus!
