//! Static evaluation: the balance of material, seen from the side to move.

use crate::moves::PieceKind;
use crate::position::Position;
use crate::score::{BoardScore, MATED_RANGE_TOP_VALUE, MATE_RANGE_BOTTOM_VALUE};
use vstd::prelude::*;

verus! {

/// Number of one bits among the lowest `n` bits of `x`.
pub open spec fn bits_set(x: u64, n: nat) -> nat
    decreases n,
{
    if n == 0 {
        0
    } else {
        bits_set(x, (n - 1) as nat) + if (x >> ((n - 1) as u64)) & 1 == 1 {
            1nat
        } else {
            0nat
        }
    }
}

/// At most `n` of the lowest `n` bits are set.
pub proof fn lemma_bits_set_bound(x: u64, n: nat)
    ensures
        bits_set(x, n) <= n,
    decreases n,
{
    if n > 0 {
        lemma_bits_set_bound(x, (n - 1) as nat);
    }
}

/// Number of one bits of `x`.
pub fn count_bits(x: u64) -> (r: u32)
    ensures
        r == bits_set(x, 64),
        r <= 64,
{
    let mut count: u32 = 0;
    let mut i: u32 = 0;
    while i < 64
        invariant
            i <= 64,
            count == bits_set(x, i as nat),
            count <= i,
        decreases 64 - i,
    {
        if (x >> (i as u64)) & 1 == 1 {
            count += 1;
        }
        i += 1;
    }
    count
}

/// What a piece is worth, in hundredths of a pawn. The king has no price.
pub open spec fn piece_value(kind: PieceKind) -> int {
    match kind {
        PieceKind::Pawn => 100,
        PieceKind::Knight => 300,
        PieceKind::Bishop => 300,
        PieceKind::Rook => 500,
        PieceKind::Queen => 900,
        PieceKind::King => 0,
    }
}

/// How many more pieces of a kind the side to move has than its opponent.
pub open spec fn piece_balance_spec(position: Position, kind: PieceKind) -> int {
    let up = position.white_to_move_spec();
    let pieces = position.pieces_spec(kind);
    bits_set(pieces & position.color_spec(up), 64) - bits_set(pieces & position.color_spec(!up), 64)
}

/// The material of the side to move less that of its opponent.
pub open spec fn material_balance(position: Position) -> int {
    piece_value(PieceKind::Queen) * piece_balance_spec(position, PieceKind::Queen) + piece_value(
        PieceKind::Rook,
    ) * piece_balance_spec(position, PieceKind::Rook) + piece_value(PieceKind::Knight)
        * piece_balance_spec(position, PieceKind::Knight) + piece_value(PieceKind::Bishop)
        * piece_balance_spec(position, PieceKind::Bishop) + piece_value(PieceKind::Pawn)
        * piece_balance_spec(position, PieceKind::Pawn)
}

/// A balance as a score: itself, held strictly between the two mate
/// windows, so that no amount of material reads as a mate.
pub open spec fn centipawn_value(balance: int) -> int {
    if balance >= MATE_RANGE_BOTTOM_VALUE {
        MATE_RANGE_BOTTOM_VALUE - 1
    } else if balance <= MATED_RANGE_TOP_VALUE {
        MATED_RANGE_TOP_VALUE + 1
    } else {
        balance
    }
}

/// How many more pieces of a kind the side to move has than its opponent.
pub fn piece_balance(position: &Position, kind: PieceKind) -> (r: i32)
    ensures
        r == piece_balance_spec(*position, kind),
        -64 <= r <= 64,
{
    let up = position.white_to_move();
    let pieces = position.pieces(kind);
    let red = position.color_combined(up);
    let blue = position.color_combined(!up);
    let nbr_red_pieces = count_bits(pieces & red);
    let nbr_blue_pieces = count_bits(pieces & blue);
    (nbr_red_pieces as i32) - (nbr_blue_pieces as i32)
}

/// The evaluation that counts nothing.
pub fn evaluate_always_zero(position: &Position) -> (r: BoardScore)
    ensures
        r@ == 0,
{
    BoardScore::even()
}

/// The evaluation by material alone: queens at 900, rooks at 500, knights
/// and bishops at 300 and pawns at 100, for the side to move and against
/// its opponent.
pub fn evaluate_piece_values(position: &Position) -> (r: BoardScore)
    ensures
        r@ == centipawn_value(material_balance(*position)),
        crate::score::is_centipawn_value(r@),
{
    let mut evaluation: i32 = 0;

    // Queens are worth 900 centipawns
    evaluation += 900 * piece_balance(position, PieceKind::Queen);

    // Rooks are worth 500 centipawns
    evaluation += 500 * piece_balance(position, PieceKind::Rook);

    // Knights and bishops are worth 300 centipawns
    evaluation += 300 * piece_balance(position, PieceKind::Knight);
    evaluation += 300 * piece_balance(position, PieceKind::Bishop);

    // Pawns are worth 100 centipawns
    evaluation += 100 * piece_balance(position, PieceKind::Pawn);

    if evaluation >= MATE_RANGE_BOTTOM_VALUE as i32 {
        BoardScore::evaluation(MATE_RANGE_BOTTOM_VALUE - 1)
    } else if evaluation <= MATED_RANGE_TOP_VALUE as i32 {
        BoardScore::evaluation(MATED_RANGE_TOP_VALUE + 1)
    } else {
        BoardScore::evaluation(evaluation as i16)
    }
}

} // verus!
