//! A board diagram with the facts of a position beside it.

use vstd::prelude::*;
use crate::arith;
use crate::board::attacks;
use crate::board::fen;
use crate::board::make::{BLACK_OO, BLACK_OOO, WHITE_OO, WHITE_OOO};
use crate::board::model;
use crate::board::model::{Board, PositionV};
use crate::board::notation;
use crate::board::position::Position;
use crate::engine::eval;
use crate::text;
use crate::types;
use crate::types::{Color, Square};

verus! {

/// A score in pawns, with its sign and two decimals.
pub open spec fn pawns_text(score: int) -> Seq<char> {
    let m = arith::magnitude(score);
    let sign = if score < 0 {
        '-'
    } else {
        '+'
    };
    seq![sign] + text::decimal(m / 100) + seq!['.', text::digit_char(m / 10 % 10), text::digit_char(m % 10)]
}

pub open spec fn hex_char(d: int) -> char {
    if d < 10 {
        text::digit_char(d)
    } else {
        ('a' as int + d - 10) as char
    }
}

/// The last `k` hexadecimal digits of a number.
pub open spec fn hex_text(n: int, k: nat) -> Seq<char>
    decreases k,
{
    if k == 0 {
        Seq::empty()
    } else {
        hex_text(n / 16, (k - 1) as nat).push(hex_char(n % 16))
    }
}

/// The letters of the rights that are held.
pub open spec fn rights_letters(rights: u8) -> Seq<char> {
    let one = |bit: u8, c: char|
        if rights & bit != 0 {
            seq![c]
        } else {
            Seq::empty()
        };
    one(1, 'K') + one(2, 'Q') + one(4, 'k') + one(8, 'q')
}

/// The names of the first `n` castling rook squares, with a space before each.
pub open spec fn rooks_text(p: PositionV, n: int) -> Seq<char>
    decreases n,
{
    if n <= 0 {
        Seq::empty()
    } else {
        rooks_text(p, n - 1) + seq![' '] + types::square_name(p.castling_rooks[n - 1].0 as int)
    }
}

/// The fact beside rank `r`.
pub open spec fn fact_text(p: PositionV, r: int) -> Seq<char> {
    if r == 0 {
        " Static eval: "@ + pawns_text(eval::score_of(model::acc_of(p.board), p.stm)) + if p.is_frc {
            " | Castling Rooks:"@ + rooks_text(p, 4)
        } else {
            Seq::empty()
        }
    } else if r == 1 {
        " In Check: "@ + if model::in_check(p.board, p.stm) {
            "true"@
        } else {
            "false"@
        }
    } else if r == 2 {
        " Half Moves: "@ + text::decimal(p.halfmove_clock as int)
    } else if r == 3 {
        " En Passant: "@ + notation::ep_text(p.en_passant)
    } else if r == 4 {
        " Side To Move: "@ + match p.stm {
            Color::White => "White"@,
            Color::Black => "Black"@,
        }
    } else if r == 5 {
        " Castle Rights: "@ + if rights_letters(p.castling_rights).len() == 0 {
            "-"@
        } else {
            rights_letters(p.castling_rights)
        }
    } else if r == 6 {
        " Zobrist Hash: 0x"@ + hex_text(p.hash as int, 16)
    } else {
        " FEN: "@ + notation::fen_text(p)
    }
}

/// The first `n` squares of rank `r`: a letter for each piece, a dot for each empty square.
pub open spec fn squares_text(b: Board, r: int, n: int) -> Seq<char>
    decreases n,
{
    if n <= 0 {
        Seq::empty()
    } else {
        let c = match b[r * 8 + n - 1] {
            Some(p) => types::piece_letter(p.pt, p.color),
            None => '.',
        };
        squares_text(b, r, n - 1) + seq![' ', c, ' ']
    }
}

/// The line of rank `r`.
pub open spec fn line_text(p: PositionV, r: int) -> Seq<char> {
    seq![' ', text::digit_char(r + 1), ' ', '|'] + squares_text(p.board, r, 8) + seq!['|'] + fact_text(p, r) + seq![
        '\n',
    ]
}

/// The lines of the ranks from `r` down to the first.
pub open spec fn lines_text(p: PositionV, r: int) -> Seq<char>
    decreases r + 1,
{
    if r < 0 {
        Seq::empty()
    } else {
        line_text(p, r) + lines_text(p, r - 1)
    }
}

/// The whole diagram.
pub open spec fn diagram_text(p: PositionV) -> Seq<char> {
    "   +------------------------+\n"@ + lines_text(p, 7)
        + "   +------------------------+\n     a  b  c  d  e  f  g  h\n\n"@
}

fn push_pawns(out: &mut String, score: i32)
    requires
        score > i32::MIN,
    ensures
        final(out)@ == old(out)@ + pawns_text(score as int),
{
    let m: u32 = if score < 0 {
        (-score) as u32
    } else {
        score as u32
    };
    if score < 0 {
        out.push('-');
    } else {
        out.push('+');
    }
    text::push_number(out, m / 100);
    out.push('.');
    out.push(('0' as u8 + (m / 10 % 10) as u8) as char);
    out.push(('0' as u8 + (m % 10) as u8) as char);
    proof {
        assert(out@ =~= old(out)@ + pawns_text(score as int));
    }
}

fn push_hex(out: &mut String, n: u64, k: u32)
    ensures
        final(out)@ == old(out)@ + hex_text(n as int, k as nat),
    decreases k,
{
    if k > 0 {
        push_hex(out, n / 16, k - 1);
        let d: u8 = (n % 16) as u8;
        if d < 10 {
            out.push(('0' as u8 + d) as char);
        } else {
            out.push(('a' as u8 + (d - 10)) as char);
        }
    }
    proof {
        assert(out@ =~= old(out)@ + hex_text(n as int, k as nat));
    }
}

fn push_rights(out: &mut String, rights: u8)
    ensures
        final(out)@ == old(out)@ + if rights_letters(rights).len() == 0 {
            "-"@
        } else {
            rights_letters(rights)
        },
{
    let ghost start = out@;
    let mut any = false;
    if rights & WHITE_OO != 0 {
        out.push('K');
        any = true;
    }
    if rights & WHITE_OOO != 0 {
        out.push('Q');
        any = true;
    }
    if rights & BLACK_OO != 0 {
        out.push('k');
        any = true;
    }
    if rights & BLACK_OOO != 0 {
        out.push('q');
        any = true;
    }
    proof {
        assert(out@ =~= start + rights_letters(rights));
        assert(any == (rights_letters(rights).len() > 0));
    }
    if !any {
        text::push_str(out, "-");
        proof {
            assert(out@ =~= start + "-"@);
        }
    }
}

fn push_rooks(out: &mut String, pos: &Position)
    requires
        pos.wf(),
    ensures
        final(out)@ == old(out)@ + rooks_text(pos@, 4),
{
    let mut i: usize = 0;
    proof {
        assert(out@ =~= old(out)@ + rooks_text(pos@, 0));
    }
    while i < 4
        invariant
            i <= 4,
            pos.wf(),
            out@ == old(out)@ + rooks_text(pos@, i as int),
        decreases 4 - i,
    {
        let sq = pos.castling_rooks[i];
        proof {
            assert(pos.castling_rooks[i as int].wf());
        }
        out.push(' ');
        text::push_square(out, sq);
        proof {
            assert(out@ =~= old(out)@ + rooks_text(pos@, i + 1));
        }
        i = i + 1;
    }
}

fn push_fact(out: &mut String, pos: &Position, r: u8)
    requires
        pos.wf(),
        r < 8,
    ensures
        final(out)@ == old(out)@ + fact_text(pos@, r as int),
{
    let ghost start = out@;
    if r == 0 {
        let score: i32 = eval::evaluate(pos, &pos.get_initial_accumulator());
        text::push_str(out, " Static eval: ");
        push_pawns(out, score);
        if pos.is_frc {
            text::push_str(out, " | Castling Rooks:");
            push_rooks(out, pos);
        }
    } else if r == 1 {
        text::push_str(out, " In Check: ");
        if attacks::king_in_check(pos, pos.stm) {
            text::push_str(out, "true");
        } else {
            text::push_str(out, "false");
        }
    } else if r == 2 {
        text::push_str(out, " Half Moves: ");
        text::push_number(out, pos.halfmove_clock as u32);
    } else if r == 3 {
        text::push_str(out, " En Passant: ");
        match pos.en_passant {
            Some(sq) => text::push_square(out, sq),
            None => out.push('-'),
        }
    } else if r == 4 {
        text::push_str(out, " Side To Move: ");
        match pos.stm {
            Color::White => text::push_str(out, "White"),
            Color::Black => text::push_str(out, "Black"),
        }
    } else if r == 5 {
        text::push_str(out, " Castle Rights: ");
        push_rights(out, pos.castling_rights);
    } else if r == 6 {
        text::push_str(out, " Zobrist Hash: 0x");
        push_hex(out, pos.hash, 16);
    } else {
        text::push_str(out, " FEN: ");
        let written = fen::as_fen(pos);
        text::push_str(out, written.as_str());
    }
    proof {
        assert(out@ =~= start + fact_text(pos@, r as int));
    }
}

fn push_squares(out: &mut String, pos: &Position, r: u8)
    requires
        pos.wf(),
        r < 8,
    ensures
        final(out)@ == old(out)@ + squares_text(pos@.board, r as int, 8),
{
    let ghost b = pos@.board;
    let mut f: u8 = 0;
    proof {
        assert(out@ =~= old(out)@ + squares_text(b, r as int, 0));
    }
    while f < 8
        invariant
            f <= 8,
            r < 8,
            pos.wf(),
            b == pos@.board,
            out@ == old(out)@ + squares_text(b, r as int, f as int),
        decreases 8 - f,
    {
        let c = match pos.man_at(Square::from_coords(f, r)) {
            Some(p) => p.pt.to_char(p.color),
            None => '.',
        };
        out.push(' ');
        out.push(c);
        out.push(' ');
        proof {
            assert(out@ =~= old(out)@ + squares_text(b, r as int, f + 1));
        }
        f = f + 1;
    }
}

/// The diagram of a position, with its facts beside the ranks.
pub fn pretty_print(pos: &Position) -> (s: String)
    requires
        pos.wf(),
    ensures
        s@ == diagram_text(pos@),
{
    let mut out = String::new();
    text::push_str(&mut out, "   +------------------------+\n");
    let ghost whole = out@ + lines_text(pos@, 7);
    let mut r: u8 = 8;
    while r > 0
        invariant
            r <= 8,
            pos.wf(),
            whole == out@ + lines_text(pos@, r - 1),
        decreases r,
    {
        let ghost before = out@;
        out.push(' ');
        out.push(('0' as u8 + r) as char);
        out.push(' ');
        out.push('|');
        push_squares(&mut out, pos, r - 1);
        out.push('|');
        push_fact(&mut out, pos, r - 1);
        out.push('\n');
        proof {
            assert(out@ =~= before + line_text(pos@, r - 1));
            assert(before + (line_text(pos@, r - 1) + lines_text(pos@, r - 2)) =~= out@ + lines_text(pos@, r - 2));
        }
        r = r - 1;
    }
    proof {
        assert(out@ + Seq::<char>::empty() =~= out@);
    }
    text::push_str(&mut out, "   +------------------------+\n     a  b  c  d  e  f  g  h\n\n");
    proof {
        assert(out@ =~= diagram_text(pos@));
    }
    out
}

impl Position {
    /// A board diagram.
    pub fn pretty_print(&self) -> (s: String)
        requires
            self.wf(),
        ensures
            s@ == diagram_text(self@),
    {
        pretty_print(self)
    }
}

} // verus!
