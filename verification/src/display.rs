//! The board as lines of text, for the eyes of whoever sits at the other
//! end of the protocol.

use crate::moves::{append_square, square_text, PieceKind};
use crate::position::{board_checkers, board_fen, Position};
use vstd::prelude::*;

verus! {

/// Whether the bit of a square is set in a set of squares.
pub open spec fn has_square(bits: u64, square: u8) -> bool {
    (bits >> (square as u64)) & 1 == 1
}

/// The kind of the piece that stands on a square, if one does.
pub open spec fn piece_on_spec(position: Position, square: u8) -> Option<PieceKind> {
    if has_square(position.pieces_spec(PieceKind::Pawn), square) {
        Some(PieceKind::Pawn)
    } else if has_square(position.pieces_spec(PieceKind::Knight), square) {
        Some(PieceKind::Knight)
    } else if has_square(position.pieces_spec(PieceKind::Bishop), square) {
        Some(PieceKind::Bishop)
    } else if has_square(position.pieces_spec(PieceKind::Rook), square) {
        Some(PieceKind::Rook)
    } else if has_square(position.pieces_spec(PieceKind::Queen), square) {
        Some(PieceKind::Queen)
    } else if has_square(position.pieces_spec(PieceKind::King), square) {
        Some(PieceKind::King)
    } else {
        None
    }
}

/// Whether a white piece stands on a square, or a black one, if any does.
pub open spec fn color_on_spec(position: Position, square: u8) -> Option<bool> {
    if has_square(position.color_spec(true), square) {
        Some(true)
    } else if has_square(position.color_spec(false), square) {
        Some(false)
    } else {
        None
    }
}

/// The letter of a piece: upper case for White, lower case for Black.
pub open spec fn piece_letter(kind: PieceKind, white: bool) -> char {
    if white {
        match kind {
            PieceKind::Pawn => 'P',
            PieceKind::Knight => 'N',
            PieceKind::Bishop => 'B',
            PieceKind::Rook => 'R',
            PieceKind::Queen => 'Q',
            PieceKind::King => 'K',
        }
    } else {
        kind.letter()
    }
}

/// How a square shows: the letter of its piece and a blank, or two blanks.
pub open spec fn square_symbol(piece: Option<PieceKind>, color: Option<bool>) -> Seq<char> {
    match (piece, color) {
        (Some(kind), Some(white)) => seq![piece_letter(kind, white), ' '],
        _ => seq![' ', ' '],
    }
}

/// The squares of a rank from file `a` up to, not including, file `upto`.
pub open spec fn rank_squares_text(position: Position, rank: u8, upto: nat) -> Seq<char>
    decreases upto,
{
    if upto == 0 {
        Seq::empty()
    } else {
        let square = (rank * 8 + (upto - 1)) as u8;
        rank_squares_text(position, rank, (upto - 1) as nat) + square_symbol(
            piece_on_spec(position, square),
            color_on_spec(position, square),
        )
    }
}

/// The line of one rank.
pub open spec fn rank_text(position: Position, rank: u8) -> Seq<char> {
    "info string \u{2502} "@ + rank_squares_text(position, rank, 8) + "\u{2502}\n"@
}

/// The lines of the ranks from the eighth down to, not including, rank
/// `down_to`.
pub open spec fn ranks_text(position: Position, down_to: nat) -> Seq<char>
    decreases 8 - down_to,
{
    if down_to >= 8 {
        Seq::empty()
    } else {
        ranks_text(position, down_to + 1) + rank_text(position, down_to as u8)
    }
}

/// The names of the squares of a set among the first `upto` squares, each
/// with a blank before it.
pub open spec fn squares_text(bits: u64, upto: nat) -> Seq<char>
    decreases upto,
{
    if upto == 0 {
        Seq::empty()
    } else {
        let square = (upto - 1) as u8;
        squares_text(bits, (upto - 1) as nat) + if has_square(bits, square) {
            seq![' '] + square_text(square as int)
        } else {
            Seq::empty()
        }
    }
}

/// What `d` shows: the board in a frame, the side to move, the pieces that
/// give check, and the FEN.
pub open spec fn diagram_text(position: Position) -> Seq<char> {
    "info string \u{250c}\u{2500}\u{2500}\u{2500}\u{2500}\u{2500}\u{2500}\u{2500}\u{2500}\u{2500}\u{2500}\u{2500}\u{2500}\u{2500}\u{2500}\u{2500}\u{2500}\u{2500}\u{2510}\n"@
        + ranks_text(position, 0)
        + "info string \u{2514}\u{2500}\u{2500}\u{2500}\u{2500}\u{2500}\u{2500}\u{2500}\u{2500}\u{2500}\u{2500}\u{2500}\u{2500}\u{2500}\u{2500}\u{2500}\u{2500}\u{2500}\u{2518}\n"@
        + "info string "@ + (if position.white_to_move_spec() {
        "White"@
    } else {
        "Black"@
    }) + " to move\n"@ + "info string Checkers:"@ + squares_text(
        board_checkers(position.board_spec()),
        64,
    ) + "\n"@ + "info string FEN: "@ + board_fen(position.board_spec()) + "\n"@
}

/// Whether the bit of a square is set.
pub fn square_is_set(bits: u64, square: u8) -> (r: bool)
    requires
        square < 64,
    ensures
        r == has_square(bits, square),
{
    (bits >> (square as u64)) & 1 == 1
}

/// The kind of the piece on a square.
pub fn piece_on(position: &Position, square: u8) -> (r: Option<PieceKind>)
    requires
        square < 64,
    ensures
        r == piece_on_spec(*position, square),
{
    if square_is_set(position.pieces(PieceKind::Pawn), square) {
        Some(PieceKind::Pawn)
    } else if square_is_set(position.pieces(PieceKind::Knight), square) {
        Some(PieceKind::Knight)
    } else if square_is_set(position.pieces(PieceKind::Bishop), square) {
        Some(PieceKind::Bishop)
    } else if square_is_set(position.pieces(PieceKind::Rook), square) {
        Some(PieceKind::Rook)
    } else if square_is_set(position.pieces(PieceKind::Queen), square) {
        Some(PieceKind::Queen)
    } else if square_is_set(position.pieces(PieceKind::King), square) {
        Some(PieceKind::King)
    } else {
        None
    }
}

/// The colour of the piece on a square: `true` for White.
pub fn color_on(position: &Position, square: u8) -> (r: Option<bool>)
    requires
        square < 64,
    ensures
        r == color_on_spec(*position, square),
{
    if square_is_set(position.color_combined(true), square) {
        Some(true)
    } else if square_is_set(position.color_combined(false), square) {
        Some(false)
    } else {
        None
    }
}

fn symbol_str(piece: Option<PieceKind>, color: Option<bool>) -> (r: &'static str)
    ensures
        r@ == square_symbol(piece, color),
{
    proof {
        reveal_strlit("  ");
        reveal_strlit("K ");
        reveal_strlit("Q ");
        reveal_strlit("R ");
        reveal_strlit("B ");
        reveal_strlit("N ");
        reveal_strlit("P ");
        reveal_strlit("k ");
        reveal_strlit("q ");
        reveal_strlit("r ");
        reveal_strlit("b ");
        reveal_strlit("n ");
        reveal_strlit("p ");
    }
    let r = match (color, piece) {
        (Some(true), Some(PieceKind::King)) => "K ",
        (Some(true), Some(PieceKind::Queen)) => "Q ",
        (Some(true), Some(PieceKind::Rook)) => "R ",
        (Some(true), Some(PieceKind::Bishop)) => "B ",
        (Some(true), Some(PieceKind::Knight)) => "N ",
        (Some(true), Some(PieceKind::Pawn)) => "P ",
        (Some(false), Some(PieceKind::King)) => "k ",
        (Some(false), Some(PieceKind::Queen)) => "q ",
        (Some(false), Some(PieceKind::Rook)) => "r ",
        (Some(false), Some(PieceKind::Bishop)) => "b ",
        (Some(false), Some(PieceKind::Knight)) => "n ",
        (Some(false), Some(PieceKind::Pawn)) => "p ",
        _ => "  ",
    };
    assert(r@ =~= square_symbol(piece, color));
    r
}

/// The text that the command `d` shows for a position.
pub fn board_diagram(position: &Position) -> (r: String)
    ensures
        r@ == diagram_text(*position),
{
    let mut display_str = String::new();
    display_str.append(
        "info string \u{250c}\u{2500}\u{2500}\u{2500}\u{2500}\u{2500}\u{2500}\u{2500}\u{2500}\u{2500}\u{2500}\u{2500}\u{2500}\u{2500}\u{2500}\u{2500}\u{2500}\u{2500}\u{2510}\n",
    );
    let ghost top = display_str@;
    let mut rank: u8 = 8;
    assert(display_str@ =~= top + ranks_text(*position, 8));
    while rank > 0
        invariant
            rank <= 8,
            display_str@ == top + ranks_text(*position, rank as nat),
        decreases rank,
    {
        rank -= 1;
        let ghost before = display_str@;
        display_str.append("info string \u{2502} ");
        let mut file: u8 = 0;
        assert(display_str@ =~= before + "info string \u{2502} "@ + rank_squares_text(
            *position,
            rank,
            0,
        ));
        while file < 8
            invariant
                file <= 8,
                rank < 8,
                display_str@ == before + "info string \u{2502} "@ + rank_squares_text(
                    *position,
                    rank,
                    file as nat,
                ),
            decreases 8 - file,
        {
            let square: u8 = rank * 8 + file;
            let ghost row = display_str@;
            display_str.append(symbol_str(piece_on(position, square), color_on(position, square)));
            file += 1;
            assert(display_str@ =~= before + "info string \u{2502} "@ + rank_squares_text(
                *position,
                rank,
                file as nat,
            ));
        }
        display_str.append("\u{2502}\n");
        assert(display_str@ =~= top + (ranks_text(*position, (rank + 1) as nat) + rank_text(
            *position,
            rank,
        )));
    }
    display_str.append(
        "info string \u{2514}\u{2500}\u{2500}\u{2500}\u{2500}\u{2500}\u{2500}\u{2500}\u{2500}\u{2500}\u{2500}\u{2500}\u{2500}\u{2500}\u{2500}\u{2500}\u{2500}\u{2500}\u{2518}\n",
    );
    display_str.append("info string ");
    if position.white_to_move() {
        display_str.append("White");
    } else {
        display_str.append("Black");
    }
    display_str.append(" to move\n");
    display_str.append("info string Checkers:");
    let ghost head = display_str@;
    let checkers = position.checkers();
    let mut square: u8 = 0;
    assert(display_str@ =~= head + squares_text(checkers, 0));
    while square < 64
        invariant
            square <= 64,
            display_str@ == head + squares_text(checkers, square as nat),
        decreases 64 - square,
    {
        let ghost before = display_str@;
        if square_is_set(checkers, square) {
            proof {
                reveal_strlit(" ");
            }
            display_str.append(" ");
            append_square(&mut display_str, square);
            assert(display_str@ =~= before + (seq![' '] + square_text(square as int)));
        } else {
            assert(display_str@ =~= before + Seq::<char>::empty());
        }
        square += 1;
        assert(display_str@ =~= head + squares_text(checkers, square as nat));
    }
    display_str.append("\n");
    display_str.append("info string FEN: ");
    display_str.append(position.to_fen().as_str());
    display_str.append("\n");
    assert(display_str@ =~= diagram_text(*position));
    display_str
}

} // verus!
