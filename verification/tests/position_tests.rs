use chess::{Board, MoveGen};
use chess_search::evaluation::{
    count_bits, evaluate_always_zero, evaluate_piece_values, piece_balance,
};
use chess_search::moveorder::MoveGenerator;
use chess_search::moves::{Move, PieceKind};
use chess_search::position::{
    check_fen_fields, find_blank, scan_placement, FenError, Placement, Position,
};
use std::str::FromStr;

const START_FEN: &str = "rnbqkbnr/pppppppp/8/8/8/8/PPPPPPPP/RNBQKBNR w KQkq - 0 1";

fn mv(text: &str) -> Move {
    let bytes = text.as_bytes();
    let square = |file: u8, rank: u8| (rank - b'1') * 8 + (file - b'a');
    let promotion = match bytes.get(4) {
        Some(b'q') => Some(PieceKind::Queen),
        Some(b'r') => Some(PieceKind::Rook),
        Some(b'b') => Some(PieceKind::Bishop),
        Some(b'n') => Some(PieceKind::Knight),
        _ => None,
    };
    Move::new(square(bytes[0], bytes[1]), square(bytes[2], bytes[3]), promotion).unwrap()
}

fn all(generator: &mut MoveGenerator) -> Vec<Move> {
    let mut moves = Vec::new();
    while let Some(m) = generator.next() {
        moves.push(m);
    }
    moves
}

#[test]
fn start_position_is_the_initial_board() {
    let position = Position::startpos();
    assert_eq!(position.hash(), Board::default().get_hash());
    assert_eq!(position.board(), Board::default());
    assert_eq!(position.to_fen(), START_FEN);
    assert!(position.white_to_move());
    assert!(!position.is_in_check());
    assert_eq!(position.checkers(), 0);
    let from_fen = Position::from_fen(START_FEN).unwrap();
    assert_eq!(from_fen.hash(), position.hash());
}

#[test]
fn positions_are_read_from_fen() {
    let fen = "r1bqkbnr/pppp1ppp/2n5/4p3/4P3/5N2/PPPP1PPP/RNBQKB1R w KQkq - 0 1";
    let position = Position::from_fen(fen).unwrap();
    assert_eq!(position.board(), Board::from_str(fen).unwrap());
    assert_eq!(position.hash(), Board::from_str(fen).unwrap().get_hash());
    assert_eq!(position.to_fen(), fen);
    assert_ne!(position.hash(), Position::startpos().hash());
}

#[test]
fn bad_fen_is_told_from_bad_board() {
    assert_eq!(Position::from_fen("hello").err(), Some(FenError::InvalidFen));
    assert_eq!(
        Position::from_fen("rnbqkbnr/ppppxppp/8/8/8/8/PPPPPPPP/RNBQKBNR w KQkq - 0 1").err(),
        Some(FenError::InvalidFen)
    );
    // The fields after the placement are missing, or make no sense
    assert_eq!(
        Position::from_fen("rnbqkbnr/pppppppp/8/8/8/8/PPPPPPPP/RNBQKBNR").err(),
        Some(FenError::InvalidFen)
    );
    assert_eq!(
        Position::from_fen("rnbqkbnr/pppppppp/8/8/8/8/PPPPPPPP/RNBQKBNR x KQkq - 0 1").err(),
        Some(FenError::InvalidFen)
    );
    // The side that is not to move is in check
    assert_eq!(
        Position::from_fen("4k3/8/8/8/8/8/8/4K2r b - - 0 1").err(),
        Some(FenError::InvalidBoard)
    );
    // Two white kings
    assert_eq!(
        Position::from_fen("4k3/8/8/8/8/8/8/K3K3 w - - 0 1").err(),
        Some(FenError::InvalidBoard)
    );
}

#[test]
fn placement_must_hold_both_kings() {
    assert_eq!(
        Position::from_fen("8/8/8/8/8/8/8/8 w - - 0 1").err(),
        Some(FenError::InvalidBoard)
    );
    assert_eq!(
        Position::from_fen("4k3/8/8/8/8/8/8/8 w - - 0 1").err(),
        Some(FenError::InvalidBoard)
    );
    assert_eq!(
        Position::from_fen("8/8/8/8/8/8/8/4K3 b - - 0 1").err(),
        Some(FenError::InvalidBoard)
    );
    assert_eq!(
        Position::from_fen("8/8/8/8/8/8/8/4K3 B - -").err(),
        Some(FenError::InvalidBoard)
    );
    assert!(Position::from_fen("4k3/8/8/8/8/8/8/4K3 w - - 0 1").is_ok());
}

#[test]
fn text_without_kings_that_is_no_fen() {
    // Fewer than four fields, or no side to move
    assert_eq!(Position::from_fen("").err(), Some(FenError::InvalidFen));
    assert_eq!(Position::from_fen("8/8/8/8/8/8/8/8").err(), Some(FenError::InvalidFen));
    assert_eq!(Position::from_fen("8/8/8/8/8/8/8/8 w -").err(), Some(FenError::InvalidFen));
    assert_eq!(
        Position::from_fen("8/8/8/8/8/8/8/8 x - - 0 1").err(),
        Some(FenError::InvalidFen)
    );
    assert_eq!(
        Position::from_fen("8/8/8/8/8/8/8/8 ww - - 0 1").err(),
        Some(FenError::InvalidFen)
    );
    assert_eq!(
        Position::from_fen("8/8/8/8/8/8/8/8  w - - 0 1").err(),
        Some(FenError::InvalidFen)
    );
    // A blank in front: the placement is empty and the next field names no side
    assert_eq!(
        Position::from_fen(" 4k3/8/8/8/8/8/8/4K3 w - - 0 1").err(),
        Some(FenError::InvalidFen)
    );
    assert!(!check_fen_fields(b""));
    assert!(!check_fen_fields(b"x w -"));
    assert!(check_fen_fields(b"x w - "));
    assert!(check_fen_fields(b"x W - -"));
    assert!(check_fen_fields(b" b  "));
    assert!(!check_fen_fields(b"x  w - -"));
    assert_eq!(find_blank(b"ab cd", 0), 2);
    assert_eq!(find_blank(b"ab cd", 2), 2);
    assert_eq!(find_blank(b"ab cd", 3), 5);
    assert_eq!(find_blank(b"ab cd", 9), 5);
}

#[test]
fn placement_must_fit_the_board() {
    // Nine squares in a rank
    assert_eq!(
        Position::from_fen("4k3/8/8/8/8/8/8/4K3P w - - 0 1").err(),
        Some(FenError::InvalidFen)
    );
    assert_eq!(
        Position::from_fen("4k3/8/8/8/8/8/8/4K4 w - - 0 1").err(),
        Some(FenError::InvalidFen)
    );
    // Nine ranks
    assert_eq!(
        Position::from_fen("4k3/8/8/8/8/8/8/4K3/8 w - - 0 1").err(),
        Some(FenError::InvalidFen)
    );
    assert_eq!(
        Position::from_fen("4k3/8/8/8/8/8/8/4K3/ w - - 0 1").err(),
        Some(FenError::InvalidFen)
    );
    // A digit that is none
    assert_eq!(
        Position::from_fen("4k3/9/8/8/8/8/8/4K3 w - - 0 1").err(),
        Some(FenError::InvalidFen)
    );
    assert_eq!(
        Position::from_fen("4k3/0/8/8/8/8/8/4K3 w - - 0 1").err(),
        Some(FenError::InvalidFen)
    );
    // Ranks that are cut short are read as the crate reads them
    let short = Position::from_fen("4k/8/8/8/8/8/8/4K w - - 0 1").unwrap();
    assert_eq!(short.board(), Board::from_str("4k/8/8/8/8/8/8/4K w - - 0 1").unwrap());
    assert_eq!(short.to_fen(), "4k3/8/8/8/8/8/8/4K3 w - - 0 1");
}

#[test]
fn placement_is_scanned_byte_by_byte() {
    let start = scan_placement(START_FEN.as_bytes()).unwrap();
    assert_eq!(
        start,
        Placement { ranks: 7, files: 8, white_king: true, black_king: true }
    );
    let empty = scan_placement(b"").unwrap();
    assert_eq!(
        empty,
        Placement { ranks: 0, files: 0, white_king: false, black_king: false }
    );
    let partial = scan_placement(b"3k/2 and the rest is not read").unwrap();
    assert_eq!(
        partial,
        Placement { ranks: 1, files: 2, white_king: false, black_king: true }
    );
    assert_eq!(scan_placement(b"8/8/8/8/8/8/8/8/"), None);
    assert_eq!(scan_placement(b"44K"), None);
    assert_eq!(scan_placement(b"71K"), None);
    assert_eq!(scan_placement(b"k\t"), None);
    assert_eq!(scan_placement("k\u{e9}".as_bytes()), None);
}

#[test]
fn boards_are_checked_for_sanity() {
    assert!(Position::new(Board::default()).is_some());
    #[allow(deprecated)]
    let two_kings = Board::default()
        .set_piece(chess::Piece::King, chess::Color::White, chess::Square::E4)
        .unwrap();
    assert!(Position::new(two_kings).is_none());
}

#[test]
fn legal_moves_are_those_of_the_generator() {
    let fens = [
        START_FEN,
        "r3k2r/p1ppqpb1/bn2pnp1/3PN3/1p2P3/2N2Q1p/PPPBBPPP/R3K2R w KQkq - 0 1",
        "8/P7/8/8/8/8/7k/K7 w - - 0 1",
        "7k/5Q2/6K1/8/8/8/8/8 b - - 0 1",
    ];
    for fen in fens {
        let position = Position::from_fen(fen).unwrap();
        let board = Board::from_str(fen).unwrap();
        let expected: Vec<String> = MoveGen::new_legal(&board).map(|m| m.to_string()).collect();
        let moves: Vec<String> = position.legal_moves().iter().map(|m| m.format_uci()).collect();
        assert_eq!(moves, expected);
    }
    assert_eq!(Position::startpos().legal_moves().len(), 20);
}

#[test]
fn promotions_come_with_their_piece() {
    let position = Position::from_fen("8/P7/8/8/8/8/7k/K7 w - - 0 1").unwrap();
    let moves = position.legal_moves();
    for kind in [PieceKind::Queen, PieceKind::Rook, PieceKind::Bishop, PieceKind::Knight] {
        assert!(moves.contains(&Move::new(48, 56, Some(kind)).unwrap()));
    }
    assert!(!moves.contains(&Move::new(48, 56, None).unwrap()));
    let after = position.play(mv("a7a8n")).unwrap();
    assert_eq!(after.to_fen(), "N7/8/8/8/8/8/7k/K7 b - - 0 1");
}

#[test]
fn moves_are_made() {
    let position = Position::startpos();
    let after = position.make_move(mv("e2e4"));
    assert_eq!(after.to_fen(), "rnbqkbnr/pppppppp/8/8/4P3/8/PPPP1PPP/RNBQKBNR b KQkq - 0 1");
    assert!(!after.white_to_move());
    assert_ne!(after.hash(), position.hash());
    let expected = Board::default().make_move_new(chess::ChessMove::new(
        chess::Square::E2,
        chess::Square::E4,
        None,
    ));
    assert_eq!(after.board(), expected);
    assert_eq!(after.hash(), expected.get_hash());
}

#[test]
fn illegal_moves_are_not_played() {
    let position = Position::startpos();
    assert!(position.is_legal_move(mv("e2e4")));
    assert!(position.is_legal_move(mv("g1f3")));
    assert!(!position.is_legal_move(mv("e2e5")));
    assert!(!position.is_legal_move(mv("e7e5")));
    assert!(!position.is_legal_move(mv("e2e4q")));
    assert!(position.play(mv("e2e5")).is_none());
    assert!(position.play(mv("e2e4")).is_some());
}

#[test]
fn check_is_seen() {
    let position = Position::from_fen("R5k1/5ppp/8/8/8/8/5PPP/6K1 b - - 0 1").unwrap();
    assert!(position.is_in_check());
    assert_eq!(position.checkers(), 1 << 56);
    assert!(position.legal_moves().is_empty());
    let stalemate = Position::from_fen("7k/5Q2/6K1/8/8/8/8/8 b - - 0 1").unwrap();
    assert!(!stalemate.is_in_check());
    assert!(stalemate.legal_moves().is_empty());
}

#[test]
fn pieces_and_colours_are_read_as_bits() {
    let position = Position::startpos();
    assert_eq!(position.pieces(PieceKind::Pawn), 0x00ff_0000_0000_ff00);
    assert_eq!(position.pieces(PieceKind::Knight), 0x4200_0000_0000_0042);
    assert_eq!(position.pieces(PieceKind::Bishop), 0x2400_0000_0000_0024);
    assert_eq!(position.pieces(PieceKind::Rook), 0x8100_0000_0000_0081);
    assert_eq!(position.pieces(PieceKind::Queen), 0x0800_0000_0000_0008);
    assert_eq!(position.pieces(PieceKind::King), 0x1000_0000_0000_0010);
    assert_eq!(position.color_combined(true), 0x0000_0000_0000_ffff);
    assert_eq!(position.color_combined(false), 0xffff_0000_0000_0000);
}

#[test]
fn bits_are_counted() {
    assert_eq!(count_bits(0), 0);
    assert_eq!(count_bits(1), 1);
    assert_eq!(count_bits(1 << 63), 1);
    assert_eq!(count_bits(0xff00), 8);
    assert_eq!(count_bits(u64::MAX), 64);
    assert_eq!(count_bits(0x5555_5555_5555_5555), 32);
}

#[test]
fn material_is_counted_for_the_side_to_move() {
    assert_eq!(evaluate_piece_values(&Position::startpos()).value(), 0);
    let white_up = "rnb1kbnr/pppppppp/8/8/8/8/PPPPPPPP/RNBQKBNR w KQkq - 0 1";
    let black_to_move = "rnb1kbnr/pppppppp/8/8/8/8/PPPPPPPP/RNBQKBNR b KQkq - 0 1";
    assert_eq!(evaluate_piece_values(&Position::from_fen(white_up).unwrap()).value(), 900);
    assert_eq!(
        evaluate_piece_values(&Position::from_fen(black_to_move).unwrap()).value(),
        -900
    );
    let mixed = Position::from_fen("4k3/8/8/8/8/8/PP6/RN2K3 w - - 0 1").unwrap();
    assert_eq!(evaluate_piece_values(&mixed).value(), 500 + 300 + 200);
    assert_eq!(piece_balance(&mixed, PieceKind::Pawn), 2);
    assert_eq!(piece_balance(&mixed, PieceKind::Queen), 0);
    let bishop_down = Position::from_fen("2b1k3/8/8/8/8/8/8/4K3 w - - 0 1").unwrap();
    assert_eq!(evaluate_piece_values(&bishop_down).value(), -300);
    assert_eq!(evaluate_always_zero(&mixed).value(), 0);
}

#[test]
fn material_of_the_largest_army() {
    let queens = "QQQQQQQ1/QQQQQQQQ/8/8/8/8/8/K6k b - - 0 1";
    let position = Position::from_fen(queens).unwrap();
    let score = evaluate_piece_values(&position);
    assert_eq!(score.value(), -15 * 900);
    assert!(!score.is_mate_score());
}

#[test]
fn no_side_has_more_than_sixteen_pieces() {
    assert_eq!(
        Position::from_fen("7k/8/8/8/NNNNNNNN/NNNNNNNN/NNNNNNNN/K7 w - - 0 1").err(),
        Some(FenError::InvalidBoard)
    );
    assert_eq!(
        Position::from_fen("QQQQQQQQ/QQQQQQQQ/8/8/8/8/8/K6k b - - 0 1").err(),
        Some(FenError::InvalidBoard)
    );
    assert_eq!(
        Position::from_fen("k7/nnnnnnnn/nnnnnnnn/8/8/8/8/K7 w - - 0 1").err(),
        Some(FenError::InvalidBoard)
    );
    // Sixteen on either side is the most
    let full = "knnnnnnn/nnnnnnnn/8/8/8/8/NNNNNNNN/NNNNNNNK w - - 0 1";
    let position = Position::from_fen(full).unwrap();
    assert!(!position.legal_moves().is_empty());
    // A board that passes the sanity checks with seventeen knights and a king
    let crowded = Board::from_str("7k/8/8/8/8/NNNNNNNN/NNNNNNNN/NK6 w - - 0 1").unwrap();
    assert!(crowded.is_sane());
    assert!(Position::new(crowded).is_none());
}

#[test]
fn capture_en_passant_that_leaves_the_king_in_check_is_not_legal() {
    // White is in check from the knight; the generator still yields e5d6
    let fen = "4k3/8/8/3pP3/8/5n2/8/4K3 w - d6 0 1";
    let board = Board::from_str(fen).unwrap();
    let yielded: Vec<String> = MoveGen::new_legal(&board).map(|m| m.to_string()).collect();
    assert!(yielded.contains(&String::from("e5d6")));
    let position = Position::from_fen(fen).unwrap();
    assert!(position.is_in_check());
    let moves: Vec<String> = position.legal_moves().iter().map(|m| m.format_uci()).collect();
    assert!(!moves.contains(&String::from("e5d6")));
    let expected: Vec<String> = yielded.into_iter().filter(|m| m != "e5d6").collect();
    assert_eq!(moves, expected);
    assert!(!position.is_legal_move(mv("e5d6")));
    assert!(position.play(mv("e5d6")).is_none());
    for m in position.legal_moves() {
        let after = position.play(m).unwrap();
        assert!(after.board().is_sane());
    }
    // Where the king is not in check the capture is legal
    let free = Position::from_fen("4k3/8/8/3pP3/8/8/8/4K3 w - d6 0 1").unwrap();
    assert!(free.is_legal_move(mv("e5d6")));
    assert_eq!(free.play(mv("e5d6")).unwrap().to_fen(), "4k3/8/3P4/8/8/8/8/4K3 b - - 0 1");
}

#[test]
fn generator_yields_legal_moves_in_order() {
    let position = Position::startpos();
    let mut generator = MoveGenerator::new(&position, None);
    assert_eq!(all(&mut generator), position.legal_moves());
    assert_eq!(generator.next(), None);
}

#[test]
fn generator_yields_the_hint_first_and_once() {
    let position = Position::startpos();
    let hint = mv("g1f3");
    let mut generator = MoveGenerator::new(&position, Some(hint));
    let moves = all(&mut generator);
    assert_eq!(moves[0], hint);
    assert_eq!(moves.len(), 20);
    assert_eq!(moves.iter().filter(|m| **m == hint).count(), 1);
    let rest: Vec<Move> = position.legal_moves().into_iter().filter(|m| *m != hint).collect();
    assert_eq!(&moves[1..], &rest[..]);
    assert_eq!(generator.next(), None);
}

#[test]
fn generator_yields_a_hint_that_is_not_legal() {
    let position = Position::startpos();
    let hint = mv("e2e5");
    let mut generator = MoveGenerator::new(&position, Some(hint));
    let moves = all(&mut generator);
    assert_eq!(moves[0], hint);
    assert_eq!(&moves[1..], &position.legal_moves()[..]);
}

#[test]
fn generator_of_a_position_without_moves() {
    let position = Position::from_fen("7k/5Q2/6K1/8/8/8/8/8 b - - 0 1").unwrap();
    let mut generator = MoveGenerator::new(&position, None);
    assert_eq!(generator.next(), None);
    let mut hinted = MoveGenerator::new(&position, Some(mv("h8h7")));
    assert_eq!(hinted.next(), Some(mv("h8h7")));
    assert_eq!(hinted.next(), None);
}
