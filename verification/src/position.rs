//! Chess positions. The rules of the game are not written here: move
//! generation, move making, hashing and the reading of FEN text are done by
//! the `chess` crate, through the trusted functions at the head of this
//! file. What they return is given a name, and the rest of the library is
//! proved in terms of those names.

use crate::evaluation::{bits_set, count_bits};
use crate::moves::{Move, PieceKind};
use chess::{Board, ChessMove, MoveGen, ALL_COLORS, ALL_PIECES, ALL_SQUARES};
use std::str::FromStr;
use vstd::prelude::*;
use vstd::string::StringSliceAdditionalSpecFns;

verus! {

#[verifier::external_type_specification]
#[verifier::external_body]
pub struct ExBoard(chess::Board);

#[verifier::external_type_specification]
#[verifier::external_body]
pub struct ExBoardError(chess::Error);

/// A move as it crosses over to the `chess` crate: source square, destination
/// square, and the index of the promotion piece in the order pawn, knight,
/// bishop, rook, queen, king.
pub type MoveCode = (u8, u8, Option<u8>);

/// Whether `chess::Board::is_sane` holds of the board.
pub uninterp spec fn board_is_sane(board: Board) -> bool;

/// What `chess::Board::get_hash` returns for the board.
pub uninterp spec fn board_hash(board: Board) -> u64;

/// The moves that `chess::MoveGen::new_legal` yields for the board, in the
/// order in which it yields them.
pub uninterp spec fn board_legal_moves(board: Board) -> Seq<MoveCode>;

/// The board that `chess::Board::make_move_new` returns.
pub uninterp spec fn board_after(board: Board, source: u8, dest: u8, promotion: Option<u8>) -> Board;

/// The bits of `chess::Board::checkers`: the squares of the pieces that give
/// check to the side to move.
pub uninterp spec fn board_checkers(board: Board) -> u64;

/// The bits of `chess::Board::pieces` for the piece with the given index: the
/// squares on which a piece of that kind stands.
pub uninterp spec fn board_pieces(board: Board, piece: u8) -> u64;

/// The bits of `chess::Board::color_combined` for the colour with the given
/// index, 0 for White and 1 for Black: the squares on which a piece of that
/// colour stands.
pub uninterp spec fn board_color(board: Board, color: u8) -> u64;

/// The index of `chess::Board::side_to_move`, 0 for White and 1 for Black.
pub uninterp spec fn board_side_to_move(board: Board) -> u8;

/// The most pieces that a side can have.
pub const MAX_PIECES_PER_SIDE: u32 = 16;

/// Neither side has more than sixteen pieces on the board.
pub open spec fn board_fits(board: Board) -> bool {
    bits_set(board_color(board, 0), 64) <= MAX_PIECES_PER_SIDE && bits_set(
        board_color(board, 1),
        64,
    ) <= MAX_PIECES_PER_SIDE
}

/// The board passes the sanity checks of the `chess` crate, and neither
/// side has more pieces than a game can give it. The move generator is
/// made for such boards: it keeps a list with room for the pieces of one
/// side.
pub open spec fn board_is_playable(board: Board) -> bool {
    board_is_sane(board) && board_fits(board)
}

/// What `chess::Board::from_str` returns for the text: the board that it
/// reads, or the reason why it reads none.
pub uninterp spec fn fen_result(fen: Seq<char>) -> Result<Board, chess::Error>;

/// Whether the error is the variant `InvalidBoard` of `chess::Error`.
pub uninterp spec fn error_is_invalid_board(error: chess::Error) -> bool;

/// The FEN of the initial position.
pub open spec fn start_fen() -> Seq<char> {
    "rnbqkbnr/pppppppp/8/8/8/8/PPPPPPPP/RNBQKBNR w KQkq - 0 1"@
}

/// The board that a FEN text describes, where it describes one.
pub open spec fn fen_board(fen: Seq<char>) -> Option<Board> {
    fen_result(fen).ok()
}

/// How far the reading of the first field of a FEN, the placement of the
/// pieces, has come: the number of ranks that are done, the number of
/// squares of the rank at hand that are done, and whether a king of each
/// colour has been placed.
#[derive(Clone, Copy, PartialEq, Eq, Structural, Debug)]
pub struct Placement {
    pub ranks: u8,
    pub files: u8,
    pub white_king: bool,
    pub black_king: bool,
}

/// Whether the byte is the letter of a piece, of either colour.
pub open spec fn is_piece_letter(byte: u8) -> bool {
    byte == 112 || byte == 110 || byte == 98 || byte == 114 || byte == 113 || byte == 107 || byte
        == 80 || byte == 78 || byte == 66 || byte == 82 || byte == 81 || byte == 75
}

/// Reading one more byte of the placement. A slash ends a rank, a digit
/// leaves that many squares empty, a letter puts a piece on the next
/// square. Nothing comes of a ninth rank, of a ninth square in a rank, or of
/// any other byte.
pub open spec fn placement_step(state: Placement, byte: u8) -> Option<Placement> {
    if byte == 47 {
        if state.ranks >= 7 {
            None
        } else {
            Some(
                Placement {
                    ranks: (state.ranks + 1) as u8,
                    files: 0,
                    white_king: state.white_king,
                    black_king: state.black_king,
                },
            )
        }
    } else if 49 <= byte <= 56 {
        if state.files + (byte - 48) > 8 {
            None
        } else {
            Some(
                Placement {
                    ranks: state.ranks,
                    files: (state.files + (byte - 48)) as u8,
                    white_king: state.white_king,
                    black_king: state.black_king,
                },
            )
        }
    } else if is_piece_letter(byte) {
        if state.files >= 8 {
            None
        } else {
            Some(
                Placement {
                    ranks: state.ranks,
                    files: (state.files + 1) as u8,
                    white_king: state.white_king || byte == 75,
                    black_king: state.black_king || byte == 107,
                },
            )
        }
    } else {
        None
    }
}

/// Reading a whole placement, byte by byte.
pub open spec fn placement_scan(field: Seq<u8>) -> Option<Placement>
    decreases field.len(),
{
    if field.len() == 0 {
        Some(Placement { ranks: 0, files: 0, white_king: false, black_king: false })
    } else {
        match placement_scan(field.drop_last()) {
            Some(state) => placement_step(state, field.last()),
            None => None,
        }
    }
}

/// Where the first field of a FEN ends: at the first blank at or after
/// `from`, or at the end of the text.
pub open spec fn field_end(bytes: Seq<u8>, from: int) -> int
    decreases bytes.len() - from,
{
    if from >= bytes.len() {
        bytes.len() as int
    } else if bytes[from] == 32 {
        from
    } else {
        field_end(bytes, from + 1)
    }
}

/// Whether the byte names a side to move: `w` or `b`, in either case.
pub open spec fn is_side_letter(byte: u8) -> bool {
    byte == 119 || byte == 87 || byte == 98 || byte == 66
}

/// The text has the fields that a FEN must have: four fields or more with
/// one blank between them, the second of which names the side to move.
pub open spec fn has_fen_fields(bytes: Seq<u8>) -> bool {
    let first = field_end(bytes, 0);
    let second = field_end(bytes, first + 1);
    let third = field_end(bytes, second + 1);
    &&& third < bytes.len()
    &&& second == first + 2
    &&& is_side_letter(bytes[first + 1])
}

/// What the reading of the placement of a FEN comes to.
pub open spec fn fen_placement(fen: Seq<char>) -> Option<Placement> {
    let bytes = vstd::utf8::encode_utf8(fen);
    placement_scan(bytes.subrange(0, field_end(bytes, 0)))
}

/// The placement of the FEN puts every piece on a square of its own, and
/// among the pieces are a white king and a black king.
pub open spec fn fen_has_kings(fen: Seq<char>) -> bool {
    fen_placement(fen) matches Some(placement) && placement.white_king && placement.black_king
}

/// The text that the board's `Display` writes: its FEN.
pub uninterp spec fn board_fen(board: Board) -> Seq<char>;

/// Calls `chess::Board::is_sane`, which checks that the bitboards of the
/// board agree with each other, that each side has one king, and that the
/// side that has just moved is not in check.
#[verifier::external_body]
fn is_sane(board: &Board) -> (r: bool)
    ensures
        r == board_is_sane(*board),
{
    board.is_sane()
}

/// Calls `chess::Board::get_hash`, the Zobrist hash of the board. The
/// crate's table of random numbers is generated from a fixed seed, so the
/// hash depends on the board alone.
#[verifier::external_body]
fn zobrist_hash(board: &Board) -> (r: u64)
    ensures
        r == board_hash(*board),
{
    board.get_hash()
}

/// Runs `chess::MoveGen::new_legal` to its end. Every move comes with
/// squares below 64, and promotes, if at all, to one of the six pieces. The
/// generator notes the moves of each piece in a list of eighteen places
/// without looking whether there is room, so the side to move must not have
/// more than sixteen pieces.
#[verifier::external_body]
fn legal_move_codes(board: &Board) -> (r: Vec<MoveCode>)
    requires
        board_is_playable(*board),
    ensures
        r@ == board_legal_moves(*board),
        forall|i: int|
            0 <= i < r@.len() ==> (#[trigger] r@[i]).0 < 64 && r@[i].1 < 64 && (r@[i].2 matches Some(
                piece,
            ) ==> piece < 6),
{
    MoveGen::new_legal(board).map(
        |m| (
            m.get_source().to_int(),
            m.get_dest().to_int(),
            m.get_promotion().map(|p| p.to_index() as u8),
        ),
    ).collect()
}

/// Calls `chess::Board::make_move_new` with a move that the move generator
/// yields for this board. The move takes one piece from its square to
/// another, and may take a piece of the other side off the board or turn a
/// pawn into another piece: no side has more pieces afterwards. Whether the
/// board that comes of it passes `is_sane` is not said here.
#[verifier::external_body]
fn make_move_on(board: &Board, source: u8, dest: u8, promotion: Option<u8>) -> (r: Board)
    requires
        board_is_playable(*board),
        source < 64,
        dest < 64,
        promotion matches Some(piece) ==> piece < 6,
        board_legal_moves(*board).contains((source, dest, promotion)),
    ensures
        r == board_after(*board, source, dest, promotion),
        bits_set(board_color(r, 0), 64) <= bits_set(board_color(*board, 0), 64),
        bits_set(board_color(r, 1), 64) <= bits_set(board_color(*board, 1), 64),
{
    board.make_move_new(
        ChessMove::new(
            ALL_SQUARES[source as usize],
            ALL_SQUARES[dest as usize],
            promotion.map(|p| ALL_PIECES[p as usize]),
        ),
    )
}

/// Reads the bits of `chess::Board::checkers`.
#[verifier::external_body]
fn checkers_bits(board: &Board) -> (r: u64)
    ensures
        r == board_checkers(*board),
{
    board.checkers().0
}

/// Reads the bits of `chess::Board::pieces`.
#[verifier::external_body]
fn pieces_bits(board: &Board, piece: u8) -> (r: u64)
    requires
        piece < 6,
    ensures
        r == board_pieces(*board, piece),
{
    board.pieces(ALL_PIECES[piece as usize]).0
}

/// Reads the bits of `chess::Board::color_combined`.
#[verifier::external_body]
fn color_bits(board: &Board, color: u8) -> (r: u64)
    requires
        color < 2,
    ensures
        r == board_color(*board, color),
{
    board.color_combined(ALL_COLORS[color as usize]).0
}

/// Calls `chess::Board::side_to_move` and gives the index of the colour.
#[verifier::external_body]
fn side_to_move_index(board: &Board) -> (r: u8)
    ensures
        r == board_side_to_move(*board),
        r < 2,
{
    board.side_to_move().to_index() as u8
}

/// Calls `chess::Board::from_str`, which reads a FEN and returns the board
/// only if it passes `is_sane`. Before it comes to that check it looks for
/// the king of the side to move, and goes astray if there is none: the
/// text must place both kings.
#[verifier::external_body]
fn parse_fen(fen: &str) -> (r: Result<Board, chess::Error>)
    requires
        fen_has_kings(fen@),
    ensures
        r == fen_result(fen@),
        r matches Ok(board) ==> board_is_sane(board),
{
    Board::from_str(fen)
}

/// Tells the variant `InvalidBoard` of `chess::Error` from the others.
#[verifier::external_body]
fn is_invalid_board(error: &chess::Error) -> (r: bool)
    ensures
        r == error_is_invalid_board(*error),
{
    match error {
        chess::Error::InvalidBoard => true,
        chess::Error::InvalidFen { .. } => false,
        chess::Error::InvalidSquare => false,
        chess::Error::InvalidSanMove => false,
        chess::Error::InvalidUciMove => false,
        chess::Error::InvalidRank => false,
        chess::Error::InvalidFile => false,
    }
}

/// Calls `chess::Board::default`, which reads the FEN of the initial
/// position with `from_str` and returns the board that comes of it: a board
/// that passes `is_sane`, with sixteen pieces on either side.
#[verifier::external_body]
fn initial_board() -> (r: Board)
    ensures
        Some(r) == fen_board(start_fen()),
        board_is_playable(r),
{
    Board::default()
}

/// Writes the board through its `Display`, which gives its FEN.
#[verifier::external_body]
fn fen_of(board: &Board) -> (r: String)
    ensures
        r@ == board_fen(*board),
{
    board.to_string()
}

/// Whether neither side has more than sixteen pieces on the board.
fn fits(board: &Board) -> (r: bool)
    ensures
        r == board_fits(*board),
{
    count_bits(color_bits(board, 0)) <= MAX_PIECES_PER_SIDE && count_bits(color_bits(board, 1))
        <= MAX_PIECES_PER_SIDE
}

/// The code under which a move crosses over to the `chess` crate.
pub open spec fn code_of(m: Move) -> MoveCode {
    (
        m.source_spec(),
        m.dest_spec(),
        match m.promotion_spec() {
            Some(kind) => Some(kind.index_spec()),
            None => None,
        },
    )
}

/// The move that a code stands for.
pub open spec fn move_of(code: MoveCode) -> Move {
    Move::from_parts(
        code.0,
        code.1,
        match code.2 {
            Some(piece) => PieceKind::from_index_spec(piece),
            None => None,
        },
    )
}

/// Turning a move into its code and back gives the move.
pub proof fn lemma_move_of_code(m: Move)
    ensures
        move_of(code_of(m)) == m,
{
    broadcast use Move::lemma_parts, Move::lemma_from_parts;

}

/// Why a FEN text gives no position.
#[derive(Clone, Copy, PartialEq, Eq, Structural, Debug)]
pub enum FenError {
    /// The text is not a FEN.
    InvalidFen,
    /// The text is a FEN, but of a board that cannot come up in a game: a
    /// king is missing, or the side to move could capture a king.
    InvalidBoard,
}

/// The position that a FEN text describes, or why it describes none.
///
/// The placement of the pieces must fit the board, rank by rank. Where it
/// lacks a king, the text is no FEN if it lacks a field or names no side to
/// move, and else the FEN of an invalid board. A text that places both
/// kings is read by the `chess` crate, which decides on the rest; a board
/// with more than sixteen pieces on one side is then turned down.
pub open spec fn fen_position(fen: Seq<char>) -> Result<Position, FenError> {
    match fen_placement(fen) {
        None => Err(FenError::InvalidFen),
        Some(placement) => if !(placement.white_king && placement.black_king) {
            if has_fen_fields(vstd::utf8::encode_utf8(fen)) {
                Err(FenError::InvalidBoard)
            } else {
                Err(FenError::InvalidFen)
            }
        } else {
            match fen_result(fen) {
                Ok(board) => if board_fits(board) {
                    Ok(Position::on(board))
                } else {
                    Err(FenError::InvalidBoard)
                },
                Err(error) => if error_is_invalid_board(error) {
                    Err(FenError::InvalidBoard)
                } else {
                    Err(FenError::InvalidFen)
                },
            }
        },
    }
}

/// The initial position of a game.
pub open spec fn start_position() -> Position {
    Position::on(fen_board(start_fen()).unwrap())
}

/// Reads the placement of a FEN.
pub fn scan_placement(bytes: &[u8]) -> (r: Option<Placement>)
    ensures
        r == placement_scan(bytes@.subrange(0, field_end(bytes@, 0))),
{
    let mut state = Placement { ranks: 0, files: 0, white_king: false, black_king: false };
    let mut i: usize = 0;
    assert(bytes@.subrange(0, 0) =~= Seq::<u8>::empty());
    while i < bytes.len() && bytes[i] != 32
        invariant
            i <= bytes@.len(),
            field_end(bytes@, 0) == field_end(bytes@, i as int),
            Some(state) == placement_scan(bytes@.subrange(0, i as int)),
            state.ranks <= 7,
            state.files <= 8,
        decreases bytes@.len() - i,
    {
        let byte = bytes[i];
        proof {
            lemma_field_end(bytes@, i as int);
            let upto = bytes@.subrange(0, i + 1);
            assert(upto.drop_last() =~= bytes@.subrange(0, i as int));
            assert(upto.last() == byte);
        }
        if byte == 47 {
            if state.ranks >= 7 {
                proof {
                    lemma_scan_stays_none(bytes@, i + 1, field_end(bytes@, 0));
                }
                return None;
            }
            state.ranks += 1;
            state.files = 0;
        } else if 49 <= byte && byte <= 56 {
            if state.files + (byte - 48) > 8 {
                proof {
                    lemma_scan_stays_none(bytes@, i + 1, field_end(bytes@, 0));
                }
                return None;
            }
            state.files += byte - 48;
        } else if byte == 112 || byte == 110 || byte == 98 || byte == 114 || byte == 113 || byte
            == 107 || byte == 80 || byte == 78 || byte == 66 || byte == 82 || byte == 81 || byte
            == 75 {
            if state.files >= 8 {
                proof {
                    lemma_scan_stays_none(bytes@, i + 1, field_end(bytes@, 0));
                }
                return None;
            }
            state.files += 1;
            if byte == 75 {
                state.white_king = true;
            }
            if byte == 107 {
                state.black_king = true;
            }
        } else {
            proof {
                lemma_scan_stays_none(bytes@, i + 1, field_end(bytes@, 0));
            }
            return None;
        }
        i += 1;
    }
    Some(state)
}

/// The first blank at or after `from`, or the length of the text.
pub fn find_blank(bytes: &[u8], from: usize) -> (r: usize)
    ensures
        r == field_end(bytes@, from as int),
        r <= bytes@.len(),
        from <= bytes@.len() ==> from <= r,
{
    if from >= bytes.len() {
        return bytes.len();
    }
    let mut i: usize = from;
    while i < bytes.len() && bytes[i] != 32
        invariant
            from <= i <= bytes@.len(),
            field_end(bytes@, from as int) == field_end(bytes@, i as int),
        decreases bytes@.len() - i,
    {
        i += 1;
    }
    i
}

/// Whether the text has the fields that a FEN must have.
pub fn check_fen_fields(bytes: &[u8]) -> (r: bool)
    ensures
        r == has_fen_fields(bytes@),
{
    let first = find_blank(bytes, 0);
    if first >= bytes.len() {
        proof {
            assert(field_end(bytes@, first + 1) == bytes@.len());
            assert(field_end(bytes@, bytes@.len() as int + 1) == bytes@.len());
        }
        return false;
    }
    let second = find_blank(bytes, first + 1);
    if second >= bytes.len() {
        proof {
            assert(field_end(bytes@, second + 1) == bytes@.len());
        }
        return false;
    }
    let third = find_blank(bytes, second + 1);
    if third >= bytes.len() {
        return false;
    }
    if second != first + 2 {
        return false;
    }
    let side = bytes[first + 1];
    side == 119 || side == 87 || side == 98 || side == 66
}

/// The first field ends at or after the place from which its end is
/// looked for.
pub proof fn lemma_field_end(bytes: Seq<u8>, from: int)
    requires
        0 <= from <= bytes.len(),
    ensures
        from <= field_end(bytes, from) <= bytes.len(),
        from < bytes.len() && bytes[from] != 32 ==> from < field_end(bytes, from),
    decreases bytes.len() - from,
{
    if from < bytes.len() && bytes[from] != 32 {
        lemma_field_end(bytes, from + 1);
    }
}

/// Once the reading of a placement has come to nothing, more bytes do not
/// help.
pub proof fn lemma_scan_stays_none(bytes: Seq<u8>, failed: int, end: int)
    requires
        0 <= failed <= end <= bytes.len(),
        placement_scan(bytes.subrange(0, failed)) is None,
    ensures
        placement_scan(bytes.subrange(0, end)) is None,
    decreases end - failed,
{
    if failed < end {
        lemma_scan_stays_none(bytes, failed, end - 1);
        assert(bytes.subrange(0, end).drop_last() =~= bytes.subrange(0, end - 1));
    }
}

/// The legal moves of a board from place `from` of the generator's list on:
/// the moves that the generator yields and that lead to a board which
/// passes the sanity checks. The generator lets a capture en passant
/// through that leaves the king in check; such a move is not legal.
pub open spec fn playable_moves(board: Board, from: nat) -> Seq<Move>
    decreases board_legal_moves(board).len() - from,
{
    let codes = board_legal_moves(board);
    if from >= codes.len() {
        Seq::empty()
    } else if code_is_playable(board, codes[from as int]) {
        seq![move_of(codes[from as int])] + playable_moves(board, from + 1)
    } else {
        playable_moves(board, from + 1)
    }
}

/// The move behind the code leads to a board that passes the sanity
/// checks.
pub open spec fn code_is_playable(board: Board, code: MoveCode) -> bool {
    board_is_sane(board_after(board, code.0, code.1, code.2))
}

/// No move of the generator's list that leads to a sane board is missing
/// among the legal moves.
pub proof fn lemma_playable_moves(board: Board, from: nat)
    ensures
        forall|j: int|
            from <= j < board_legal_moves(board).len() && code_is_playable(
                board,
                #[trigger] board_legal_moves(board)[j],
            ) ==> playable_moves(board, from).contains(move_of(board_legal_moves(board)[j])),
    decreases board_legal_moves(board).len() - from,
{
    let codes = board_legal_moves(board);
    if from < codes.len() {
        lemma_playable_moves(board, from + 1);
        let rest = playable_moves(board, from + 1);
        let all = playable_moves(board, from);
        if code_is_playable(board, codes[from as int]) {
            assert forall|j: int|
                from <= j < codes.len() && code_is_playable(
                    board,
                    #[trigger] codes[j],
                ) implies all.contains(move_of(codes[j])) by {
                if j == from {
                    assert(all[0] == move_of(codes[j]));
                } else {
                    let i = choose|i: int| 0 <= i < rest.len() && rest[i] == move_of(codes[j]);
                    assert(all[i + 1] == move_of(codes[j]));
                }
            }
        }
    }
}

/// A position of a game of chess: a board that passes the sanity checks of
/// the `chess` crate and has no more than sixteen pieces on either side.
#[derive(Clone, Copy, Debug)]
pub struct Position {
    board: Board,
}

impl Position {
    #[verifier::type_invariant]
    pub closed spec fn sane(self) -> bool {
        board_is_playable(self.board)
    }

    /// The board of the position.
    pub closed spec fn board_spec(self) -> Board {
        self.board
    }

    /// The position that stands on a board.
    pub closed spec fn on(board: Board) -> Position {
        Position { board }
    }

    /// The Zobrist hash of the position.
    pub open spec fn hash_spec(self) -> u64 {
        board_hash(self.board_spec())
    }

    /// The legal moves of the position, in the order in which the move
    /// generator yields them.
    pub open spec fn legal_moves_spec(self) -> Seq<Move> {
        playable_moves(self.board_spec(), 0)
    }

    /// The move is legal in this position: the move generator yields it,
    /// and it leads to a board that passes the sanity checks.
    pub open spec fn is_legal(self, m: Move) -> bool {
        board_legal_moves(self.board_spec()).contains(code_of(m)) && code_is_playable(
            self.board_spec(),
            code_of(m),
        )
    }

    /// The side to move is in check.
    pub open spec fn in_check_spec(self) -> bool {
        board_checkers(self.board_spec()) != 0
    }

    /// The position after a move.
    pub open spec fn after(self, m: Move) -> Position {
        Position::on(
            board_after(self.board_spec(), code_of(m).0, code_of(m).1, code_of(m).2),
        )
    }

    /// White is to move.
    pub open spec fn white_to_move_spec(self) -> bool {
        board_side_to_move(self.board_spec()) == 0
    }

    /// The squares on which a piece of the given kind stands, as bits: bit
    /// 0 is a1, bit 63 is h8.
    pub open spec fn pieces_spec(self, kind: PieceKind) -> u64 {
        board_pieces(self.board_spec(), kind.index_spec())
    }

    /// The squares on which a white piece stands, or a black one, as bits.
    pub open spec fn color_spec(self, white: bool) -> u64 {
        board_color(
            self.board_spec(),
            if white {
                0
            } else {
                1
            },
        )
    }

    /// A position is its board.
    pub broadcast proof fn lemma_board(self)
        ensures
            #![trigger self.board_spec()]
            Position::on(self.board_spec()) == self,
    {
    }

    /// The board of `on(board)` is `board`.
    pub broadcast proof fn lemma_on(board: Board)
        ensures
            (#[trigger] Position::on(board)).board_spec() == board,
    {
    }

    /// A legal move is among the legal moves.
    pub proof fn lemma_legal_is_listed(self, m: Move)
        requires
            self.is_legal(m),
        ensures
            self.legal_moves_spec().contains(m),
    {
        let codes = board_legal_moves(self.board_spec());
        let j = choose|j: int| 0 <= j < codes.len() && codes[j] == code_of(m);
        lemma_move_of_code(m);
        lemma_playable_moves(self.board_spec(), 0);
        assert(code_is_playable(self.board_spec(), codes[j]));
    }

    /// The position on `board`, or `None` where the board does not pass
    /// the sanity checks or has more than sixteen pieces on one side.
    pub fn new(board: Board) -> (r: Option<Position>)
        ensures
            r is Some <==> board_is_playable(board),
            r matches Some(position) ==> position == Position::on(board) && position.board_spec()
                == board,
    {
        if is_sane(&board) && fits(&board) {
            Some(Position { board })
        } else {
            None
        }
    }

    /// The initial position of a game.
    pub fn startpos() -> (r: Position)
        ensures
            r == start_position(),
    {
        Position { board: initial_board() }
    }

    /// The position that a FEN text describes.
    pub fn from_fen(fen: &str) -> (r: Result<Position, FenError>)
        ensures
            r == fen_position(fen@),
    {
        let placement = match scan_placement(fen.as_bytes()) {
            Some(placement) => placement,
            None => {
                return Err(FenError::InvalidFen);
            },
        };
        if !(placement.white_king && placement.black_king) {
            if check_fen_fields(fen.as_bytes()) {
                return Err(FenError::InvalidBoard);
            }
            return Err(FenError::InvalidFen);
        }
        match parse_fen(fen) {
            Ok(board) => if fits(&board) {
                Ok(Position { board })
            } else {
                Err(FenError::InvalidBoard)
            },
            Err(error) => {
                if is_invalid_board(&error) {
                    Err(FenError::InvalidBoard)
                } else {
                    Err(FenError::InvalidFen)
                }
            },
        }
    }

    /// The FEN of the position.
    pub fn to_fen(&self) -> (r: String)
        ensures
            r@ == board_fen(self.board_spec()),
    {
        fen_of(&self.board)
    }

    /// The board of the position.
    pub fn board(&self) -> (r: Board)
        ensures
            r == self.board_spec(),
            board_is_playable(r),
    {
        proof {
            use_type_invariant(self);
        }
        self.board
    }

    /// The Zobrist hash of the position.
    pub fn hash(&self) -> (r: u64)
        ensures
            r == self.hash_spec(),
    {
        zobrist_hash(&self.board)
    }

    /// The legal moves of the position.
    pub fn legal_moves(&self) -> (r: Vec<Move>)
        ensures
            r@ == self.legal_moves_spec(),
            forall|i: int| 0 <= i < r@.len() ==> self.is_legal(#[trigger] r@[i]),
    {
        proof {
            use_type_invariant(self);
        }
        let codes = legal_move_codes(&self.board);
        let mut moves: Vec<Move> = Vec::new();
        let mut i: usize = 0;
        while i < codes.len()
            invariant
                i <= codes@.len(),
                board_is_playable(self.board_spec()),
                codes@ == board_legal_moves(self.board_spec()),
                forall|j: int|
                    0 <= j < codes@.len() ==> (#[trigger] codes@[j]).0 < 64 && codes@[j].1 < 64 && (
                    codes@[j].2 matches Some(piece) ==> piece < 6),
                self.legal_moves_spec() == moves@ + playable_moves(self.board_spec(), i as nat),
                forall|j: int| 0 <= j < moves@.len() ==> self.is_legal(#[trigger] moves@[j]),
            decreases codes@.len() - i,
        {
            broadcast use Move::lemma_parts, Move::lemma_from_parts;

            let code = codes[i];
            let ghost before = moves@;
            let ghost rest = playable_moves(self.board_spec(), (i + 1) as nat);
            assert(codes@.contains(code));
            let after = make_move_on(&self.board, code.0, code.1, code.2);
            if is_sane(&after) {
                let promotion = match code.2 {
                    Some(piece) => PieceKind::from_index(piece),
                    None => None,
                };
                match Move::new(code.0, code.1, promotion) {
                    Some(m) => {
                        assert(m == move_of(code));
                        assert(code_of(m) == code);
                        moves.push(m);
                        assert(moves@ + rest =~= before + (seq![m] + rest));
                    },
                    None => {
                        assert(false);
                    },
                }
            }
            i += 1;
        }
        assert(moves@ + Seq::<Move>::empty() =~= moves@);
        moves
    }

    /// Whether the side to move is in check.
    pub fn is_in_check(&self) -> (r: bool)
        ensures
            r == self.in_check_spec(),
    {
        checkers_bits(&self.board) != 0
    }

    /// The squares of the pieces that give check to the side to move.
    pub fn checkers(&self) -> (r: u64)
        ensures
            r == board_checkers(self.board_spec()),
    {
        checkers_bits(&self.board)
    }

    /// Whether White is to move.
    pub fn white_to_move(&self) -> (r: bool)
        ensures
            r == self.white_to_move_spec(),
    {
        side_to_move_index(&self.board) == 0
    }

    /// The squares on which a piece of the given kind stands.
    pub fn pieces(&self, kind: PieceKind) -> (r: u64)
        ensures
            r == self.pieces_spec(kind),
    {
        pieces_bits(&self.board, kind.index())
    }

    /// The squares on which a white piece stands, or a black one.
    pub fn color_combined(&self, white: bool) -> (r: u64)
        ensures
            r == self.color_spec(white),
    {
        color_bits(
            &self.board,
            if white {
                0
            } else {
                1
            },
        )
    }

    /// The position after a legal move.
    pub fn make_move(&self, m: Move) -> (r: Position)
        requires
            self.is_legal(m),
        ensures
            r == self.after(m),
    {
        proof {
            use_type_invariant(self);
        }
        let promotion = match m.get_promotion() {
            Some(kind) => Some(kind.index()),
            None => None,
        };
        Position { board: make_move_on(&self.board, m.get_source(), m.get_dest(), promotion) }
    }

    /// Whether the move is legal in this position.
    pub fn is_legal_move(&self, m: Move) -> (r: bool)
        ensures
            r == self.is_legal(m),
    {
        let moves = self.legal_moves();
        let mut i: usize = 0;
        while i < moves.len()
            invariant
                i <= moves@.len(),
                moves@ == self.legal_moves_spec(),
                forall|j: int| 0 <= j < moves@.len() ==> self.is_legal(#[trigger] moves@[j]),
                forall|j: int| 0 <= j < i ==> moves@[j] != m,
            decreases moves@.len() - i,
        {
            if moves[i] == m {
                return true;
            }
            i += 1;
        }
        proof {
            if self.is_legal(m) {
                self.lemma_legal_is_listed(m);
            }
        }
        false
    }

    /// The position after the move, or `None` where the move is not legal.
    pub fn play(&self, m: Move) -> (r: Option<Position>)
        ensures
            r is Some <==> self.is_legal(m),
            r matches Some(position) ==> position == self.after(m),
    {
        if self.is_legal_move(m) {
            Some(self.make_move(m))
        } else {
            None
        }
    }
}

} // verus!
