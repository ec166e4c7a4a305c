use chess_search::display::{board_diagram, color_on, piece_on, square_is_set};
use chess_search::moves::{Move, PieceKind};
use chess_search::position::{FenError, Position};
use chess_search::searchinterface::SearchLimits;
use chess_search::uci::{
    find, is_space_byte, parse_line, parse_move, parse_number, parse_promotion, parse_square,
    range_is, split_words, MoveError, NumberError, UciCommand, UciError, Word,
};

fn word(start: usize, end: usize) -> Word {
    Word { start, end }
}

fn position_of(line: &str) -> Position {
    match parse_line(line) {
        Ok(UciCommand::Position(position)) => position,
        other => panic!("no position: {:?}", other),
    }
}

fn limits_of(line: &str) -> SearchLimits {
    match parse_line(line) {
        Ok(UciCommand::Go(limits)) => limits,
        other => panic!("no limits: {:?}", other),
    }
}

fn error_of(line: &str) -> UciError {
    match parse_line(line) {
        Err(error) => error,
        other => panic!("no error: {:?}", other),
    }
}

fn number(text: &str, max: u64) -> Result<u64, NumberError> {
    parse_number(text.as_bytes(), 0, text.len(), max)
}

fn chess_move(text: &str) -> Result<Move, MoveError> {
    parse_move(text.as_bytes(), 0, text.len())
}

#[test]
fn separators_are_ascii_whitespace() {
    for byte in 0..=255u8 {
        assert_eq!(is_space_byte(byte), byte.is_ascii_whitespace());
    }
}

#[test]
fn lines_are_split_into_words() {
    let line = b"  go \tdepth  5\r\n";
    let words = split_words(line, 0, line.len());
    assert_eq!(words, vec![word(2, 4), word(6, 11), word(13, 14)]);
    assert_eq!(split_words(b"", 0, 0), vec![]);
    assert_eq!(split_words(b" \t ", 0, 3), vec![]);
    assert_eq!(split_words(b"uci", 0, 3), vec![word(0, 3)]);
    assert_eq!(split_words(b"a b c", 2, 5), vec![word(2, 3), word(4, 5)]);
    assert_eq!(split_words(b"abc def", 1, 5), vec![word(1, 3), word(4, 5)]);
}

#[test]
fn ranges_are_compared_with_text() {
    let line = b"position startpos";
    assert!(range_is(line, 0, 8, "position"));
    assert!(!range_is(line, 0, 8, "positio"));
    assert!(!range_is(line, 0, 7, "position"));
    assert!(!range_is(line, 9, 17, "startpot"));
    assert!(range_is(line, 9, 17, "startpos"));
    assert!(range_is(line, 3, 3, ""));
}

#[test]
fn text_is_found_in_a_line() {
    let line = b"a moves b moves";
    assert_eq!(find(line, b"moves", 0, line.len()), Some(2));
    assert_eq!(find(line, b"moves", 3, line.len()), Some(10));
    assert_eq!(find(line, b"moves", 11, line.len()), None);
    assert_eq!(find(line, b"moves", 0, 6), None);
    assert_eq!(find(line, b"moves", 0, 7), Some(2));
    assert_eq!(find(line, b"x", 0, line.len()), None);
}

#[test]
fn numbers_are_read() {
    assert_eq!(number("0", 255), Ok(0));
    assert_eq!(number("7", 255), Ok(7));
    assert_eq!(number("255", 255), Ok(255));
    assert_eq!(number("+12", 255), Ok(12));
    assert_eq!(number("007", 255), Ok(7));
    assert_eq!(number("4294967295", 0xffff_ffff), Ok(4294967295));
    assert_eq!(number("256", 255), Err(NumberError::Overflow));
    assert_eq!(number("4294967296", 0xffff_ffff), Err(NumberError::Overflow));
    assert_eq!(
        number("99999999999999999999999999999999", 0xffff_ffff),
        Err(NumberError::Overflow)
    );
    assert_eq!(number("", 255), Err(NumberError::Empty));
    assert_eq!(number("+", 255), Err(NumberError::InvalidDigit));
    assert_eq!(number("-", 255), Err(NumberError::InvalidDigit));
    assert_eq!(number("-1", 255), Err(NumberError::InvalidDigit));
    assert_eq!(number("12a", 255), Err(NumberError::InvalidDigit));
    assert_eq!(number("999x", 255), Err(NumberError::InvalidDigit));
    assert_eq!(number("++1", 255), Err(NumberError::InvalidDigit));
    assert_eq!(number("1 ", 255), Err(NumberError::InvalidDigit));
}

#[test]
fn numbers_are_read_as_std_reads_them() {
    let texts = ["0", "1", "+5", "-5", "255", "256", "", "+", "abc", "1e3", "0255", "+0", "300"];
    for text in texts {
        assert_eq!(number(text, 255).ok(), text.parse::<u8>().ok().map(u64::from));
        assert_eq!(number(text, 0xffff_ffff).ok(), text.parse::<u32>().ok().map(u64::from));
    }
}

#[test]
fn squares_and_promotions_are_read() {
    assert_eq!(parse_square(b'a', b'1'), Some(0));
    assert_eq!(parse_square(b'h', b'1'), Some(7));
    assert_eq!(parse_square(b'a', b'2'), Some(8));
    assert_eq!(parse_square(b'e', b'4'), Some(28));
    assert_eq!(parse_square(b'h', b'8'), Some(63));
    assert_eq!(parse_square(b'i', b'1'), None);
    assert_eq!(parse_square(b'a', b'9'), None);
    assert_eq!(parse_square(b'a', b'0'), None);
    assert_eq!(parse_square(b'A', b'1'), None);
    assert_eq!(parse_promotion(b'q'), Some(PieceKind::Queen));
    assert_eq!(parse_promotion(b'r'), Some(PieceKind::Rook));
    assert_eq!(parse_promotion(b'n'), Some(PieceKind::Knight));
    assert_eq!(parse_promotion(b'b'), Some(PieceKind::Bishop));
    assert_eq!(parse_promotion(b'k'), None);
    assert_eq!(parse_promotion(b'p'), None);
    assert_eq!(parse_promotion(b'Q'), None);
}

#[test]
fn moves_are_read() {
    assert_eq!(chess_move("e2e4"), Ok(Move::new(12, 28, None).unwrap()));
    assert_eq!(
        chess_move("e7e8q"),
        Ok(Move::new(52, 60, Some(PieceKind::Queen)).unwrap())
    );
    assert_eq!(
        chess_move("a2a1n"),
        Ok(Move::new(8, 0, Some(PieceKind::Knight)).unwrap())
    );
    // What follows in a longer word is not looked at
    assert_eq!(chess_move("e2e4xx"), Ok(Move::new(12, 28, None).unwrap()));
    assert_eq!(chess_move("e2e4qq"), Ok(Move::new(12, 28, None).unwrap()));
    assert_eq!(chess_move(""), Err(MoveError::InvalidUciMove));
    assert_eq!(chess_move("e"), Err(MoveError::InvalidUciMove));
    assert_eq!(chess_move("e2"), Err(MoveError::InvalidUciMove));
    assert_eq!(chess_move("e2e"), Err(MoveError::InvalidUciMove));
    assert_eq!(chess_move("e2e4k"), Err(MoveError::InvalidUciMove));
    assert_eq!(chess_move("x2e4"), Err(MoveError::InvalidSquare));
    assert_eq!(chess_move("x2"), Err(MoveError::InvalidSquare));
    assert_eq!(chess_move("e2e9"), Err(MoveError::InvalidSquare));
    assert_eq!(chess_move("e2x4q"), Err(MoveError::InvalidSquare));
}

#[test]
fn moves_are_read_as_the_crate_reads_them() {
    let texts = [
        "e2e4", "e7e8q", "e7e8r", "e7e8b", "e7e8n", "e7e8k", "a1h8", "h8a1", "e2", "", "e2e",
        "i2e4", "e2e4qq", "e2e4 ", "E2E4", "0000", "a0a1", "e2e4x",
    ];
    for text in texts {
        let expected = text.parse::<chess::ChessMove>().ok().map(|m| m.to_string());
        assert_eq!(chess_move(text).ok().map(|m| m.format_uci()), expected);
    }
}

#[test]
fn commands_without_arguments() {
    assert!(matches!(parse_line(""), Ok(UciCommand::Nothing)));
    assert!(matches!(parse_line("\n"), Ok(UciCommand::Nothing)));
    assert!(matches!(parse_line("   \t \r\n"), Ok(UciCommand::Nothing)));
    assert!(matches!(parse_line("uci\n"), Ok(UciCommand::Uci)));
    assert!(matches!(parse_line("  uci  \n"), Ok(UciCommand::Uci)));
    assert!(matches!(parse_line("ucinewgame\n"), Ok(UciCommand::UciNewGame)));
    assert!(matches!(parse_line("isready\n"), Ok(UciCommand::IsReady)));
    assert!(matches!(parse_line("d\n"), Ok(UciCommand::Display)));
    assert!(matches!(parse_line("stop\n"), Ok(UciCommand::Stop)));
    assert!(matches!(parse_line("quit\n"), Ok(UciCommand::Quit)));
    assert!(matches!(parse_line("quit now please\n"), Ok(UciCommand::Quit)));
    assert!(matches!(parse_line("isready and more\n"), Ok(UciCommand::IsReady)));
}

#[test]
fn unknown_commands_are_named() {
    assert_eq!(error_of("hello\n"), UciError::UnknownCommand(word(0, 5)));
    assert_eq!(error_of("  ucii x\n"), UciError::UnknownCommand(word(2, 6)));
    assert_eq!(error_of("UCI\n"), UciError::UnknownCommand(word(0, 3)));
    assert_eq!(error_of("gox\n"), UciError::UnknownCommand(word(0, 3)));
    assert_eq!(error_of("uci\u{e9}\n"), UciError::NotAscii);
    assert_eq!(error_of("position fen \u{2654}\n"), UciError::NotAscii);
}

#[test]
fn go_takes_its_limits() {
    assert_eq!(limits_of("go\n"), SearchLimits { depth: 255, movetime: 0 });
    assert_eq!(limits_of("go depth 5\n"), SearchLimits { depth: 5, movetime: 0 });
    assert_eq!(limits_of("go movetime 1500\n"), SearchLimits { depth: 255, movetime: 1500 });
    assert_eq!(
        limits_of("go depth 7 movetime 100\n"),
        SearchLimits { depth: 7, movetime: 100 }
    );
    assert_eq!(
        limits_of("go movetime 100 depth 7\n"),
        SearchLimits { depth: 7, movetime: 100 }
    );
    assert_eq!(limits_of("go depth 1 depth 2\n"), SearchLimits { depth: 2, movetime: 0 });
    assert_eq!(limits_of("go depth 0\n"), SearchLimits { depth: 0, movetime: 0 });
    assert_eq!(
        limits_of("go movetime 4294967295\n"),
        SearchLimits { depth: 255, movetime: 4294967295 }
    );
    assert_eq!(SearchLimits::unlimited(), SearchLimits { depth: 255, movetime: 0 });
}

#[test]
fn go_names_what_is_wrong() {
    assert_eq!(
        error_of("go depth 256\n"),
        UciError::InvalidDepth(word(9, 12), NumberError::Overflow)
    );
    assert_eq!(
        error_of("go depth x\n"),
        UciError::InvalidDepth(word(9, 10), NumberError::InvalidDigit)
    );
    assert_eq!(
        error_of("go depth\n"),
        UciError::InvalidDepth(word(8, 8), NumberError::Empty)
    );
    assert_eq!(
        error_of("go depth 3 movetime\n"),
        UciError::InvalidMovetime(word(19, 19), NumberError::Empty)
    );
    assert_eq!(
        error_of("go movetime 4294967296\n"),
        UciError::InvalidMovetime(word(12, 22), NumberError::Overflow)
    );
    assert_eq!(
        error_of("go movetime -1\n"),
        UciError::InvalidMovetime(word(12, 14), NumberError::InvalidDigit)
    );
    assert_eq!(error_of("go infinite\n"), UciError::UnknownSpecifier(word(3, 11)));
    assert_eq!(error_of("go depth 3 wtime 5\n"), UciError::UnknownSpecifier(word(11, 16)));
    // The value of a limit is not taken for the name of another
    assert_eq!(
        error_of("go depth movetime 5\n"),
        UciError::InvalidDepth(word(9, 17), NumberError::InvalidDigit)
    );
}

#[test]
fn position_startpos() {
    let start = Position::startpos();
    assert_eq!(position_of("position startpos\n").hash(), start.hash());
    assert_eq!(position_of("  position   startpos  \n").hash(), start.hash());
    let after = position_of("position startpos moves e2e4 e7e5 g1f3\n");
    assert_eq!(
        after.to_fen(),
        "rnbqkbnr/pppp1ppp/8/4p3/4P3/5N2/PPPP1PPP/RNBQKB1R b KQkq - 0 1"
    );
    assert_eq!(position_of("position startpos moves\n").hash(), start.hash());
}

#[test]
fn position_fen() {
    let fen = "6k1/5ppp/8/8/8/8/5PPP/R5K1 w - - 0 1";
    let position = position_of("position fen 6k1/5ppp/8/8/8/8/5PPP/R5K1 w - - 0 1\n");
    assert_eq!(position.to_fen(), fen);
    let after = position_of("position fen 6k1/5ppp/8/8/8/8/5PPP/R5K1 w - - 0 1 moves a1a8\n");
    assert_eq!(after.to_fen(), "R5k1/5ppp/8/8/8/8/5PPP/6K1 b - - 0 1");
    assert!(after.is_in_check());
    let promoted = position_of("position fen 8/P7/8/8/8/8/7k/K7 w - - 0 1 moves a7a8q h2h3\n");
    assert_eq!(promoted.to_fen(), "Q7/8/8/8/8/7k/8/K7 w - - 0 1");
}

#[test]
fn position_names_what_is_wrong() {
    assert_eq!(error_of("position\n"), UciError::ExpectedStartposOrFen);
    assert_eq!(error_of("position here\n"), UciError::ExpectedStartposOrFen);
    assert_eq!(error_of("position moves e2e4\n"), UciError::ExpectedStartposOrFen);
    assert_eq!(
        error_of("position startpos e2e4\n"),
        UciError::UnexpectedWord(word(18, 22))
    );
    assert_eq!(
        error_of("position startpos moves e2e5\n"),
        UciError::IllegalMove(word(24, 28))
    );
    assert_eq!(
        error_of("position startpos moves e2e4 e2e4\n"),
        UciError::IllegalMove(word(29, 33))
    );
    assert_eq!(
        error_of("position startpos moves e2e4 zz\n"),
        UciError::InvalidMove(word(29, 31), MoveError::InvalidSquare)
    );
    assert_eq!(
        error_of("position startpos moves e2\n"),
        UciError::InvalidMove(word(24, 26), MoveError::InvalidUciMove)
    );
    assert_eq!(
        error_of("position fen\n"),
        UciError::Fen(word(12, 12), FenError::InvalidFen)
    );
    assert_eq!(
        error_of("position fen nonsense\n"),
        UciError::Fen(word(13, 21), FenError::InvalidFen)
    );
    assert_eq!(
        error_of("position fen 8/8/8/8/8/8/8/8 w - - 0 1\n"),
        UciError::Fen(word(13, 38), FenError::InvalidBoard)
    );
    assert_eq!(
        error_of("position fen 4k3/8/8/8/8/8/8/4K3 w - - 0 1 movesx e1e2\n"),
        UciError::UnexpectedWord(word(43, 49))
    );
    assert_eq!(
        error_of("position fen 4k3/8/8/8/8/8/8/4K3 w - - 0 1 moves e1e3\n"),
        UciError::IllegalMove(word(49, 53))
    );
}

#[test]
fn squares_are_looked_up() {
    let position = Position::startpos();
    assert_eq!(piece_on(&position, 0), Some(PieceKind::Rook));
    assert_eq!(piece_on(&position, 1), Some(PieceKind::Knight));
    assert_eq!(piece_on(&position, 2), Some(PieceKind::Bishop));
    assert_eq!(piece_on(&position, 3), Some(PieceKind::Queen));
    assert_eq!(piece_on(&position, 4), Some(PieceKind::King));
    assert_eq!(piece_on(&position, 8), Some(PieceKind::Pawn));
    assert_eq!(piece_on(&position, 28), None);
    assert_eq!(piece_on(&position, 60), Some(PieceKind::King));
    assert_eq!(color_on(&position, 0), Some(true));
    assert_eq!(color_on(&position, 15), Some(true));
    assert_eq!(color_on(&position, 16), None);
    assert_eq!(color_on(&position, 48), Some(false));
    assert_eq!(color_on(&position, 63), Some(false));
    assert!(square_is_set(1 << 63, 63));
    assert!(!square_is_set(1 << 63, 62));
    assert!(square_is_set(5, 0) && !square_is_set(5, 1) && square_is_set(5, 2));
}

#[test]
fn start_position_is_shown() {
    let expected = "\
info string ┌─────────────────┐
info string │ r n b q k b n r │
info string │ p p p p p p p p │
info string │                 │
info string │                 │
info string │                 │
info string │                 │
info string │ P P P P P P P P │
info string │ R N B Q K B N R │
info string └─────────────────┘
info string White to move
info string Checkers:
info string FEN: rnbqkbnr/pppppppp/8/8/8/8/PPPPPPPP/RNBQKBNR w KQkq - 0 1
";
    assert_eq!(board_diagram(&Position::startpos()), expected);
}

#[test]
fn checkers_are_shown() {
    let position = Position::from_fen("4k3/8/8/8/8/5n2/8/r3K3 w - - 0 1").unwrap();
    let expected = "\
info string ┌─────────────────┐
info string │         k       │
info string │                 │
info string │                 │
info string │                 │
info string │                 │
info string │           n     │
info string │                 │
info string │ r       K       │
info string └─────────────────┘
info string White to move
info string Checkers: a1 f3
info string FEN: 4k3/8/8/8/8/5n2/8/r3K3 w - - 0 1
";
    assert_eq!(board_diagram(&position), expected);
    let black = Position::from_fen("4k3/8/8/8/8/8/8/4K3 b - - 0 1").unwrap();
    assert!(board_diagram(&black).contains("info string Black to move\n"));
}
