use chess_search::moves::{append_square, Move, PieceKind};
use chess_search::text::{append_signed, append_unsigned};

fn unsigned(n: u64) -> String {
    let mut out = String::new();
    append_unsigned(&mut out, n);
    out
}

fn signed(n: i64) -> String {
    let mut out = String::new();
    append_signed(&mut out, n);
    out
}

#[test]
fn unsigned_numbers_are_written_in_decimal() {
    assert_eq!(unsigned(0), "0");
    assert_eq!(unsigned(7), "7");
    assert_eq!(unsigned(10), "10");
    assert_eq!(unsigned(1234567890), "1234567890");
    assert_eq!(unsigned(u64::MAX), "18446744073709551615");
}

#[test]
fn signed_numbers_are_written_with_their_sign() {
    assert_eq!(signed(0), "0");
    assert_eq!(signed(-1), "-1");
    assert_eq!(signed(42), "42");
    assert_eq!(signed(i64::MAX), "9223372036854775807");
    assert_eq!(signed(i64::MIN), "-9223372036854775808");
}

#[test]
fn numbers_are_appended_to_what_is_there() {
    let mut out = String::from("nodes ");
    append_unsigned(&mut out, 120);
    out.push(' ');
    append_signed(&mut out, -3);
    assert_eq!(out, "nodes 120 -3");
}

#[test]
fn moves_are_on_the_board() {
    assert!(Move::new(0, 63, None).is_some());
    assert!(Move::new(64, 0, None).is_none());
    assert!(Move::new(0, 64, None).is_none());
    assert!(Move::new(255, 255, Some(PieceKind::Queen)).is_none());
    let m = Move::new(12, 28, None).unwrap();
    assert_eq!(m.get_source(), 12);
    assert_eq!(m.get_dest(), 28);
    assert_eq!(m.get_promotion(), None);
}

#[test]
fn moves_are_written_in_long_algebraic_form() {
    assert_eq!(Move::new(12, 28, None).unwrap().format_uci(), "e2e4");
    assert_eq!(Move::new(0, 56, None).unwrap().format_uci(), "a1a8");
    assert_eq!(Move::new(63, 7, None).unwrap().format_uci(), "h8h1");
    assert_eq!(
        Move::new(52, 60, Some(PieceKind::Queen)).unwrap().format_uci(),
        "e7e8q"
    );
    assert_eq!(
        Move::new(8, 0, Some(PieceKind::Knight)).unwrap().format_uci(),
        "a2a1n"
    );
    assert_eq!(
        Move::new(8, 0, Some(PieceKind::Rook)).unwrap().format_uci(),
        "a2a1r"
    );
    assert_eq!(
        Move::new(8, 0, Some(PieceKind::Bishop)).unwrap().format_uci(),
        "a2a1b"
    );
}

#[test]
fn squares_are_named_by_file_and_rank() {
    let names = ["a1", "b1", "h1", "a2", "e4", "h8"];
    let squares = [0u8, 1, 7, 8, 28, 63];
    for (name, square) in names.iter().zip(squares) {
        let mut out = String::new();
        append_square(&mut out, square);
        assert_eq!(&out, name);
    }
}

#[test]
fn piece_kinds_have_their_indices() {
    let kinds = [
        PieceKind::Pawn,
        PieceKind::Knight,
        PieceKind::Bishop,
        PieceKind::Rook,
        PieceKind::Queen,
        PieceKind::King,
    ];
    for (index, kind) in kinds.iter().enumerate() {
        assert_eq!(kind.index() as usize, index);
        assert_eq!(PieceKind::from_index(index as u8), Some(*kind));
    }
    assert_eq!(PieceKind::from_index(6), None);
    assert_eq!(PieceKind::from_index(255), None);
}
