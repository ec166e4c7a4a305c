//! Reading the lines of the UCI protocol. A line is taken apart into a
//! command with its arguments, or into the reason why it is none. Nothing is
//! read or printed here.

use crate::moves::{Move, PieceKind};
use crate::position::{fen_position, start_position, FenError, Position};
use crate::searchinterface::SearchLimits;
use vstd::prelude::*;
use vstd::string::StringSliceAdditionalSpecFns;

verus! {

/// Blank, tab, line feed, form feed and carriage return separate words.
pub open spec fn is_space(byte: u8) -> bool {
    byte == 32 || byte == 9 || byte == 10 || byte == 12 || byte == 13
}

/// A word of a line, by the places where it begins and ends.
#[derive(Clone, Copy, PartialEq, Eq, Structural, Debug)]
pub struct Word {
    pub start: usize,
    pub end: usize,
}

/// The words of a line between `from` and `limit`: the stretches of bytes
/// without a separator, as long as they can be. `open` is where a word has
/// begun before `from`, if one has.
pub open spec fn words_from(bytes: Seq<u8>, from: int, limit: int, open: Option<int>) -> Seq<Word>
    decreases limit - from,
{
    if from >= limit {
        match open {
            Some(start) => seq![Word { start: start as usize, end: limit as usize }],
            None => Seq::empty(),
        }
    } else if is_space(bytes[from]) {
        match open {
            Some(start) => seq![Word { start: start as usize, end: from as usize }] + words_from(
                bytes,
                from + 1,
                limit,
                None,
            ),
            None => words_from(bytes, from + 1, limit, None),
        }
    } else {
        words_from(
            bytes,
            from + 1,
            limit,
            Some(
                match open {
                    Some(start) => start,
                    None => from,
                },
            ),
        )
    }
}

/// The words of a line between `from` and `limit`.
pub open spec fn words_spec(bytes: Seq<u8>, from: int, limit: int) -> Seq<Word> {
    words_from(bytes, from, limit, None)
}

/// The bytes of a word.
pub open spec fn word_bytes(bytes: Seq<u8>, word: Word) -> Seq<u8> {
    bytes.subrange(word.start as int, word.end as int)
}

/// Words lie one after another between the bounds, none is empty, and at
/// least one byte lies between two of them.
pub open spec fn words_in_order(words: Seq<Word>, from: int, limit: int) -> bool {
    &&& forall|k: int|
        0 <= k < words.len() ==> from <= (#[trigger] words[k]).start < words[k].end <= limit
    &&& forall|k: int, l: int|
        0 <= k < l < words.len() ==> (#[trigger] words[k]).end < (#[trigger] words[l]).start
}

/// The words of a line are in order.
pub proof fn lemma_words_in_order(bytes: Seq<u8>, from: int, limit: int, open: Option<int>)
    requires
        0 <= from <= limit <= bytes.len(),
        limit <= usize::MAX,
        open matches Some(start) ==> 0 <= start < from,
    ensures
        words_in_order(
            words_from(bytes, from, limit, open),
            match open {
                Some(start) => start,
                None => from,
            },
            limit,
        ),
        open is Some ==> words_from(bytes, from, limit, open).len() > 0 && words_from(
            bytes,
            from,
            limit,
            open,
        )[0].start == open.unwrap(),
    decreases limit - from,
{
    if from < limit {
        if is_space(bytes[from]) {
            lemma_words_in_order(bytes, from + 1, limit, None);
            let rest = words_from(bytes, from + 1, limit, None);
            let all = words_from(bytes, from, limit, open);
            match open {
                Some(start) => {
                    assert forall|k: int| 0 <= k < all.len() implies start <= (
                    #[trigger] all[k]).start < all[k].end <= limit by {
                        if k > 0 {
                            assert(all[k] == rest[k - 1]);
                        }
                    }
                    assert forall|k: int, l: int| 0 <= k < l < all.len() implies (
                    #[trigger] all[k]).end < (#[trigger] all[l]).start by {
                        assert(all[l] == rest[l - 1]);
                        if k > 0 {
                            assert(all[k] == rest[k - 1]);
                        }
                    }
                },
                None => {},
            }
        } else {
            let start = match open {
                Some(start) => start,
                None => from,
            };
            lemma_words_in_order(bytes, from + 1, limit, Some(start));
        }
    }
}

/// Whether the byte separates words.
pub fn is_space_byte(byte: u8) -> (r: bool)
    ensures
        r == is_space(byte),
{
    byte == 32 || byte == 9 || byte == 10 || byte == 12 || byte == 13
}

/// Takes the line apart into its words, between `from` and `limit`.
pub fn split_words(bytes: &[u8], from: usize, limit: usize) -> (r: Vec<Word>)
    requires
        from <= limit <= bytes@.len(),
    ensures
        r@ == words_spec(bytes@, from as int, limit as int),
        words_in_order(r@, from as int, limit as int),
{
    let mut words: Vec<Word> = Vec::new();
    let mut open: Option<usize> = None;
    let mut i: usize = from;
    while i < limit
        invariant
            from <= i <= limit <= bytes@.len(),
            open matches Some(start) ==> from <= start < i,
            words_spec(bytes@, from as int, limit as int) == words@ + words_from(
                bytes@,
                i as int,
                limit as int,
                match open {
                    Some(start) => Some(start as int),
                    None => None,
                },
            ),
        decreases limit - i,
    {
        let ghost before = words@;
        if is_space_byte(bytes[i]) {
            match open {
                Some(start) => {
                    words.push(Word { start, end: i });
                    open = None;
                    assert(words@ + words_from(bytes@, i + 1, limit as int, None) =~= before + (
                    seq![Word { start, end: i }] + words_from(bytes@, i + 1, limit as int, None)));
                },
                None => {},
            }
        } else {
            match open {
                Some(start) => {},
                None => {
                    open = Some(i);
                },
            }
        }
        i += 1;
    }
    let ghost before = words@;
    match open {
        Some(start) => {
            words.push(Word { start, end: limit });
        },
        None => {
            assert(before + Seq::<Word>::empty() =~= before);
        },
    }
    proof {
        lemma_words_in_order(bytes@, from as int, limit as int, None);
        assert(words_in_order(words_from(bytes@, from as int, limit as int, None), from as int, limit as int));
        assert(words@ == words_spec(bytes@, from as int, limit as int));
    }
    words
}

/// Whether the bytes from `start` to `end` are those of `text`.
pub fn range_is(bytes: &[u8], start: usize, end: usize, text: &str) -> (r: bool)
    requires
        start <= end <= bytes@.len(),
    ensures
        r == (bytes@.subrange(start as int, end as int) == text.spec_bytes()),
{
    let wanted = text.as_bytes();
    if end - start != wanted.len() {
        return false;
    }
    let mut i: usize = 0;
    while i < wanted.len()
        invariant
            start <= end <= bytes@.len(),
            end - start == wanted@.len(),
            wanted@ == text.spec_bytes(),
            i <= wanted@.len(),
            forall|j: int| 0 <= j < i ==> bytes@[start + j] == wanted@[j],
        decreases wanted@.len() - i,
    {
        if bytes[start + i] != wanted[i] {
            assert(bytes@.subrange(start as int, end as int)[i as int] != wanted@[i as int]);
            return false;
        }
        i += 1;
    }
    assert(bytes@.subrange(start as int, end as int) =~= wanted@);
    true
}

/// Whether the word is `text`.
pub fn word_is(bytes: &[u8], word: Word, text: &str) -> (r: bool)
    requires
        word.start <= word.end <= bytes@.len(),
    ensures
        r == (word_bytes(bytes@, word) == text.spec_bytes()),
{
    range_is(bytes, word.start, word.end, text)
}

/// Why a text is not a number of the size asked for.
#[derive(Clone, Copy, PartialEq, Eq, Structural, Debug)]
pub enum NumberError {
    /// The text is empty.
    Empty,
    /// The text has a character that is no digit, or is a sign alone.
    InvalidDigit,
    /// The number is too large.
    Overflow,
}

/// Whether the byte is one of the digits `0` to `9`.
pub open spec fn is_digit(byte: u8) -> bool {
    48 <= byte <= 57
}

/// Whether every byte of the text is a digit.
pub open spec fn all_digits(text: Seq<u8>) -> bool {
    forall|i: int| 0 <= i < text.len() ==> is_digit(#[trigger] text[i])
}

/// The number that a text of digits stands for.
pub open spec fn digits_value(digits: Seq<u8>) -> nat
    decreases digits.len(),
{
    if digits.len() == 0 {
        0
    } else {
        digits_value(digits.drop_last()) * 10 + (digits.last() - 48) as nat
    }
}

/// The number that a text stands for, if it is one and not above `max`: an
/// optional plus sign, then one digit or more.
pub open spec fn parse_number_spec(text: Seq<u8>, max: nat) -> Result<nat, NumberError> {
    if text.len() == 0 {
        Err(NumberError::Empty)
    } else {
        let digits = if text[0] == 43 {
            text.subrange(1, text.len() as int)
        } else {
            text
        };
        if digits.len() == 0 || !all_digits(digits) {
            Err(NumberError::InvalidDigit)
        } else if digits_value(digits) > max {
            Err(NumberError::Overflow)
        } else {
            Ok(digits_value(digits))
        }
    }
}

/// A longer text of digits stands for a number that is no smaller.
pub proof fn lemma_digits_value_grows(digits: Seq<u8>, shorter: int)
    requires
        0 <= shorter <= digits.len(),
        forall|i: int| 0 <= i < digits.len() ==> is_digit(digits[i]),
    ensures
        digits_value(digits.subrange(0, shorter)) <= digits_value(digits),
    decreases digits.len() - shorter,
{
    if shorter < digits.len() {
        lemma_digits_value_grows(digits, shorter + 1);
        let longer = digits.subrange(0, shorter + 1);
        assert(longer.drop_last() =~= digits.subrange(0, shorter));
    } else {
        assert(digits.subrange(0, shorter) =~= digits);
    }
}

/// Reads the number that the bytes from `start` to `end` stand for.
pub fn parse_number(bytes: &[u8], start: usize, end: usize, max: u64) -> (r: Result<
    u64,
    NumberError,
>)
    requires
        start <= end <= bytes@.len(),
        max < 0x1000_0000_0000_0000,
    ensures
        match parse_number_spec(bytes@.subrange(start as int, end as int), max as nat) {
            Ok(value) => r == Ok::<u64, NumberError>(value as u64),
            Err(error) => r == Err::<u64, NumberError>(error),
        },
        r matches Ok(value) ==> value <= max,
{
    let ghost text = bytes@.subrange(start as int, end as int);
    if start == end {
        return Err(NumberError::Empty);
    }
    let first: usize = if bytes[start] == 43 {
        start + 1
    } else {
        start
    };
    let ghost digits = bytes@.subrange(first as int, end as int);
    assert(digits =~= if text[0] == 43 {
        text.subrange(1, text.len() as int)
    } else {
        text
    });
    if first == end {
        return Err(NumberError::InvalidDigit);
    }
    // A digit that is no digit decides before a number that is too large.

    let mut i: usize = first;
    while i < end
        invariant
            start <= first <= i <= end <= bytes@.len(),
            first < end,
            text == bytes@.subrange(start as int, end as int),
            digits == bytes@.subrange(first as int, end as int),
            digits == (if text[0] == 43 {
                text.subrange(1, text.len() as int)
            } else {
                text
            }),
            forall|j: int| 0 <= j < i - first ==> is_digit(digits[j]),
        decreases end - i,
    {
        if bytes[i] < 48 || bytes[i] > 57 {
            assert(!is_digit(digits[i - first]));
            assert(!all_digits(digits));
            return Err(NumberError::InvalidDigit);
        }
        i += 1;
    }
    let mut value: u64 = 0;
    let mut i: usize = first;
    assert(digits.subrange(0, 0) =~= Seq::<u8>::empty());
    while i < end
        invariant
            start <= first <= i <= end <= bytes@.len(),
            first < end,
            text == bytes@.subrange(start as int, end as int),
            digits == bytes@.subrange(first as int, end as int),
            digits == (if text[0] == 43 {
                text.subrange(1, text.len() as int)
            } else {
                text
            }),
            forall|j: int| 0 <= j < digits.len() ==> is_digit(digits[j]),
            value == digits_value(digits.subrange(0, i - first)),
            value <= max,
            max < 0x1000_0000_0000_0000,
        decreases end - i,
    {
        assert(is_digit(digits[i - first]));
        let digit: u64 = (bytes[i] - 48) as u64;
        assert(digit == (digits[i - first] - 48) as nat);
        let next: u64 = value * 10 + digit;
        proof {
            let upto = digits.subrange(0, i - first + 1);
            assert(upto.drop_last() =~= digits.subrange(0, i - first));
            assert(next == digits_value(upto));
            lemma_digits_value_grows(digits, i - first + 1);
        }
        if next > max {
            return Err(NumberError::Overflow);
        }
        value = next;
        i += 1;
    }
    assert(digits.subrange(0, digits.len() as int) =~= digits);
    Ok(value)
}

/// Why a word is not a move.
#[derive(Clone, Copy, PartialEq, Eq, Structural, Debug)]
pub enum MoveError {
    /// The word is too short, or its fifth character names no piece to
    /// promote to.
    InvalidUciMove,
    /// The word does not begin with the names of two squares.
    InvalidSquare,
}

/// The square that two bytes name: a file letter `a` to `h`, then a rank
/// digit `1` to `8`.
pub open spec fn parse_square_spec(file: u8, rank: u8) -> Option<u8> {
    if 97 <= file <= 104 && 49 <= rank <= 56 {
        Some(((rank - 49) * 8 + (file - 97)) as u8)
    } else {
        None
    }
}

/// The piece that a letter names in a promotion: queen, rook, knight or
/// bishop.
pub open spec fn parse_promotion_spec(letter: u8) -> Option<PieceKind> {
    if letter == 113 {
        Some(PieceKind::Queen)
    } else if letter == 114 {
        Some(PieceKind::Rook)
    } else if letter == 110 {
        Some(PieceKind::Knight)
    } else if letter == 98 {
        Some(PieceKind::Bishop)
    } else {
        None
    }
}

/// The move that a text stands for: two squares, and a piece letter if the
/// text is five bytes long. What follows in a text of six bytes or more is
/// not looked at.
pub open spec fn parse_move_spec(text: Seq<u8>) -> Result<Move, MoveError> {
    if text.len() < 2 {
        Err(MoveError::InvalidUciMove)
    } else if parse_square_spec(text[0], text[1]) is None {
        Err(MoveError::InvalidSquare)
    } else if text.len() < 4 {
        Err(MoveError::InvalidUciMove)
    } else if parse_square_spec(text[2], text[3]) is None {
        Err(MoveError::InvalidSquare)
    } else if text.len() == 5 && parse_promotion_spec(text[4]) is None {
        Err(MoveError::InvalidUciMove)
    } else {
        Ok(
            Move::from_parts(
                parse_square_spec(text[0], text[1]).unwrap(),
                parse_square_spec(text[2], text[3]).unwrap(),
                if text.len() == 5 {
                    parse_promotion_spec(text[4])
                } else {
                    None
                },
            ),
        )
    }
}

/// The square that a file letter and a rank digit name.
pub fn parse_square(file: u8, rank: u8) -> (r: Option<u8>)
    ensures
        r == parse_square_spec(file, rank),
        r matches Some(square) ==> square < 64,
{
    if 97 <= file && file <= 104 && 49 <= rank && rank <= 56 {
        Some((rank - 49) * 8 + (file - 97))
    } else {
        None
    }
}

/// The piece that a letter names in a promotion.
pub fn parse_promotion(letter: u8) -> (r: Option<PieceKind>)
    ensures
        r == parse_promotion_spec(letter),
{
    if letter == 113 {
        Some(PieceKind::Queen)
    } else if letter == 114 {
        Some(PieceKind::Rook)
    } else if letter == 110 {
        Some(PieceKind::Knight)
    } else if letter == 98 {
        Some(PieceKind::Bishop)
    } else {
        None
    }
}

/// Reads the move that the bytes from `start` to `end` stand for.
pub fn parse_move(bytes: &[u8], start: usize, end: usize) -> (r: Result<Move, MoveError>)
    requires
        start <= end <= bytes@.len(),
    ensures
        r == parse_move_spec(bytes@.subrange(start as int, end as int)),
{
    let ghost text = bytes@.subrange(start as int, end as int);
    let len = end - start;
    if len < 2 {
        return Err(MoveError::InvalidUciMove);
    }
    assert(text[0] == bytes@[start as int] && text[1] == bytes@[start + 1]);
    let source = match parse_square(bytes[start], bytes[start + 1]) {
        Some(square) => square,
        None => {
            return Err(MoveError::InvalidSquare);
        },
    };
    if len < 4 {
        return Err(MoveError::InvalidUciMove);
    }
    assert(text[2] == bytes@[start + 2] && text[3] == bytes@[start + 3]);
    let dest = match parse_square(bytes[start + 2], bytes[start + 3]) {
        Some(square) => square,
        None => {
            return Err(MoveError::InvalidSquare);
        },
    };
    let mut promotion: Option<PieceKind> = None;
    if len == 5 {
        assert(text[4] == bytes@[start + 4]);
        promotion = parse_promotion(bytes[start + 4]);
        if promotion.is_none() {
            return Err(MoveError::InvalidUciMove);
        }
    }
    match Move::new(source, dest, promotion) {
        Some(m) => Ok(m),
        None => Err(MoveError::InvalidUciMove),
    }
}

/// Why a line is no command.
#[derive(Clone, Copy, PartialEq, Eq, Structural, Debug)]
pub enum UciError {
    /// The line holds a byte that is not ASCII.
    NotAscii,
    /// The first word is no command.
    UnknownCommand(Word),
    /// `position` is followed by neither `startpos` nor `fen`.
    ExpectedStartposOrFen,
    /// The text after `fen`, which the word spans, gives no position.
    Fen(Word, FenError),
    /// A word where `moves` or the end of the line should be.
    UnexpectedWord(Word),
    /// A word after `moves` is no move.
    InvalidMove(Word, MoveError),
    /// A word after `moves` is a move that is not legal where it is made.
    IllegalMove(Word),
    /// What follows `depth` is no number up to 255. The word is empty where
    /// nothing follows.
    InvalidDepth(Word, NumberError),
    /// What follows `movetime` is no number of 32 bits.
    InvalidMovetime(Word, NumberError),
    /// A word after `go` that is neither `depth` nor `movetime`.
    UnknownSpecifier(Word),
}

/// A command of the protocol, with what it asks for.
#[derive(Clone, Copy, Debug)]
pub enum UciCommand {
    /// The line is blank.
    Nothing,
    /// `uci`: the engine names itself.
    Uci,
    /// `ucinewgame`
    UciNewGame,
    /// `isready`
    IsReady,
    /// `d`: the engine shows the board.
    Display,
    /// `stop`
    Stop,
    /// `quit`
    Quit,
    /// `position`: the position to search from now on.
    Position(Position),
    /// `go`: a search within these limits.
    Go(SearchLimits),
}

/// The word at place `index`, or an empty word at the end of the line where
/// there is none.
pub open spec fn word_or_empty(words: Seq<Word>, index: int, limit: int) -> Word {
    if 0 <= index < words.len() {
        words[index]
    } else {
        Word { start: limit as usize, end: limit as usize }
    }
}

/// The place of the word after the value of a limit, whose name stands at
/// place `index`.
pub open spec fn after_value(words: Seq<Word>, index: int) -> int {
    if index + 1 < words.len() {
        index + 2
    } else {
        index + 1
    }
}

/// The limits that the words from place `index` on ask for, on top of
/// `limits`: `depth` and a number, `movetime` and a number, any number of
/// times.
pub open spec fn parse_go_spec(
    bytes: Seq<u8>,
    words: Seq<Word>,
    index: int,
    limit: int,
    limits: SearchLimits,
) -> Result<SearchLimits, UciError>
    decreases words.len() - index,
{
    if index < 0 || index >= words.len() {
        Ok(limits)
    } else if word_bytes(bytes, words[index]) == "depth".spec_bytes() {
        let value = word_or_empty(words, index + 1, limit);
        match parse_number_spec(word_bytes(bytes, value), 255) {
            Ok(depth) => parse_go_spec(
                bytes,
                words,
                after_value(words, index),
                limit,
                SearchLimits { depth: depth as u8, movetime: limits.movetime },
            ),
            Err(error) => Err(UciError::InvalidDepth(value, error)),
        }
    } else if word_bytes(bytes, words[index]) == "movetime".spec_bytes() {
        let value = word_or_empty(words, index + 1, limit);
        match parse_number_spec(word_bytes(bytes, value), 0xffff_ffff) {
            Ok(movetime) => parse_go_spec(
                bytes,
                words,
                after_value(words, index),
                limit,
                SearchLimits { depth: limits.depth, movetime: movetime as u32 },
            ),
            Err(error) => Err(UciError::InvalidMovetime(value, error)),
        }
    } else {
        Err(UciError::UnknownSpecifier(words[index]))
    }
}

/// The position after the moves that the words from place `index` on
/// stand for, made one after another from `position`.
pub open spec fn apply_moves_spec(bytes: Seq<u8>, words: Seq<Word>, index: int, position: Position)
    -> Result<Position, UciError>
    decreases words.len() - index,
{
    if index < 0 || index >= words.len() {
        Ok(position)
    } else {
        match parse_move_spec(word_bytes(bytes, words[index])) {
            Ok(m) => if position.is_legal(m) {
                apply_moves_spec(bytes, words, index + 1, position.after(m))
            } else {
                Err(UciError::IllegalMove(words[index]))
            },
            Err(error) => Err(UciError::InvalidMove(words[index], error)),
        }
    }
}

/// The position after an optional list of moves: nothing, or the word
/// `moves` and the moves.
pub open spec fn parse_moves_spec(bytes: Seq<u8>, words: Seq<Word>, index: int, position: Position)
    -> Result<Position, UciError> {
    if index < 0 || index >= words.len() {
        Ok(position)
    } else if word_bytes(bytes, words[index]) == "moves".spec_bytes() {
        apply_moves_spec(bytes, words, index + 1, position)
    } else {
        Err(UciError::UnexpectedWord(words[index]))
    }
}

/// The first place at or after `from` where the bytes of `needle` stand in
/// the line and end at or before `limit`.
pub open spec fn find_spec(bytes: Seq<u8>, needle: Seq<u8>, from: int, limit: int) -> Option<int>
    decreases limit - from,
{
    if from < 0 || from >= limit || from + needle.len() > limit {
        None
    } else if bytes.subrange(from, from + needle.len()) == needle {
        Some(from)
    } else {
        find_spec(bytes, needle, from + 1, limit)
    }
}

/// Where the FEN begins in a `position fen` line: one byte after the word
/// `fen`, or at the end of the line where that word is the last.
pub open spec fn fen_start_spec(words: Seq<Word>, limit: int) -> int {
    if words.len() > 2 {
        words[1].end + 1
    } else {
        limit
    }
}

/// Where the FEN ends: where `moves` first stands after its beginning, or
/// at the end of the line.
pub open spec fn fen_end_spec(bytes: Seq<u8>, words: Seq<Word>, limit: int) -> int {
    match find_spec(bytes, "moves".spec_bytes(), fen_start_spec(words, limit), limit) {
        Some(place) => place,
        None => limit,
    }
}

/// Where a line ends, its trailing separators left out.
pub open spec fn line_end(words: Seq<Word>) -> int {
    if words.len() == 0 {
        0
    } else {
        words.last().end as int
    }
}

/// The command that a line stands for.
///
/// The first word names the command. `position` is followed by `startpos`
/// or by `fen` and a FEN, and then, if at all, by `moves` and moves that
/// are made one after another. `go` is followed by limits. What follows the
/// other commands is not looked at.
pub open spec fn parse_line_spec(line: &str) -> Result<UciCommand, UciError> {
    let bytes = line.spec_bytes();
    let words = words_spec(bytes, 0, bytes.len() as int);
    let limit = line_end(words);
    if !line.is_ascii() {
        Err(UciError::NotAscii)
    } else if words.len() == 0 {
        Ok(UciCommand::Nothing)
    } else if word_bytes(bytes, words[0]) == "uci".spec_bytes() {
        Ok(UciCommand::Uci)
    } else if word_bytes(bytes, words[0]) == "ucinewgame".spec_bytes() {
        Ok(UciCommand::UciNewGame)
    } else if word_bytes(bytes, words[0]) == "position".spec_bytes() {
        match parse_position_spec(line, words, limit) {
            Ok(position) => Ok(UciCommand::Position(position)),
            Err(error) => Err(error),
        }
    } else if word_bytes(bytes, words[0]) == "d".spec_bytes() {
        Ok(UciCommand::Display)
    } else if word_bytes(bytes, words[0]) == "isready".spec_bytes() {
        Ok(UciCommand::IsReady)
    } else if word_bytes(bytes, words[0]) == "go".spec_bytes() {
        match parse_go_spec(bytes, words, 1, limit, SearchLimits { depth: 255, movetime: 0 }) {
            Ok(limits) => Ok(UciCommand::Go(limits)),
            Err(error) => Err(error),
        }
    } else if word_bytes(bytes, words[0]) == "stop".spec_bytes() {
        Ok(UciCommand::Stop)
    } else if word_bytes(bytes, words[0]) == "quit".spec_bytes() {
        Ok(UciCommand::Quit)
    } else {
        Err(UciError::UnknownCommand(words[0]))
    }
}

/// The position that a `position` line asks for.
pub open spec fn parse_position_spec(line: &str, words: Seq<Word>, limit: int) -> Result<
    Position,
    UciError,
> {
    let bytes = line.spec_bytes();
    if words.len() < 2 {
        Err(UciError::ExpectedStartposOrFen)
    } else if word_bytes(bytes, words[1]) == "startpos".spec_bytes() {
        parse_moves_spec(bytes, words, 2, start_position())
    } else if word_bytes(bytes, words[1]) == "fen".spec_bytes() {
        let fen_start = fen_start_spec(words, limit);
        let fen_end = fen_end_spec(bytes, words, limit);
        match fen_position(line@.subrange(fen_start, fen_end)) {
            Ok(start) => parse_moves_spec(bytes, words_spec(bytes, fen_end, limit), 0, start),
            Err(error) => Err(
                UciError::Fen(Word { start: fen_start as usize, end: fen_end as usize }, error),
            ),
        }
    } else {
        Err(UciError::ExpectedStartposOrFen)
    }
}

/// Whether the bytes of `needle` stand in the line at `place`.
fn stands_at(bytes: &[u8], place: usize, needle: &[u8]) -> (r: bool)
    requires
        place + needle@.len() <= bytes@.len(),
    ensures
        r == (bytes@.subrange(place as int, place + needle@.len()) == needle@),
{
    let length = bytes.len();
    let mut i: usize = 0;
    while i < needle.len()
        invariant
            place + needle@.len() <= bytes@.len() == length,
            i <= needle@.len(),
            forall|j: int| 0 <= j < i ==> bytes@[place + j] == needle@[j],
        decreases needle@.len() - i,
    {
        if bytes[place + i] != needle[i] {
            assert(bytes@.subrange(place as int, place + needle@.len())[i as int] != needle@[i as int]);
            return false;
        }
        i += 1;
    }
    assert(bytes@.subrange(place as int, place + needle@.len()) =~= needle@);
    true
}

/// The first place at or after `from` where `needle` stands in the line and
/// ends at or before `limit`.
pub fn find(bytes: &[u8], needle: &[u8], from: usize, limit: usize) -> (r: Option<usize>)
    requires
        from <= limit <= bytes@.len(),
    ensures
        find_spec(bytes@, needle@, from as int, limit as int) == (match r {
            Some(place) => Some(place as int),
            None => None,
        }),
        r matches Some(place) ==> from <= place <= limit,
{
    let mut i: usize = from;
    while i < limit && needle.len() <= limit - i
        invariant
            from <= i <= limit <= bytes@.len(),
            find_spec(bytes@, needle@, from as int, limit as int) == find_spec(
                bytes@,
                needle@,
                i as int,
                limit as int,
            ),
        decreases limit - i,
    {
        if stands_at(bytes, i, needle) {
            return Some(i);
        }
        i += 1;
    }
    None
}

/// Reads the limits that the words after `go` ask for.
pub fn parse_go(bytes: &[u8], words: &Vec<Word>, limit: usize) -> (r: Result<SearchLimits, UciError>)
    requires
        words@.len() > 0,
        limit <= bytes@.len(),
        words_in_order(words@, 0, limit as int),
    ensures
        r == parse_go_spec(
            bytes@,
            words@,
            1,
            limit as int,
            SearchLimits { depth: 255, movetime: 0 },
        ),
{
    let mut limits = SearchLimits::unlimited();
    let mut index: usize = 1;
    while index < words.len()
        invariant
            1 <= index,
            limit <= bytes@.len(),
            words_in_order(words@, 0, limit as int),
            parse_go_spec(
                bytes@,
                words@,
                1,
                limit as int,
                SearchLimits { depth: 255, movetime: 0 },
            ) == parse_go_spec(bytes@, words@, index as int, limit as int, limits),
        decreases words@.len() - index,
    {
        let ghost index_before = index;
        let word = words[index];
        let value = if index + 1 < words.len() {
            words[index + 1]
        } else {
            Word { start: limit, end: limit }
        };
        assert(value == word_or_empty(words@, index + 1, limit as int));
        if word_is(bytes, word, "depth") {
            match parse_number(bytes, value.start, value.end, 255) {
                Ok(depth) => {
                    limits = SearchLimits { depth: depth as u8, movetime: limits.movetime };
                },
                Err(error) => {
                    return Err(UciError::InvalidDepth(value, error));
                },
            }
        } else if word_is(bytes, word, "movetime") {
            match parse_number(bytes, value.start, value.end, 0xffff_ffff) {
                Ok(movetime) => {
                    limits = SearchLimits { depth: limits.depth, movetime: movetime as u32 };
                },
                Err(error) => {
                    return Err(UciError::InvalidMovetime(value, error));
                },
            }
        } else {
            return Err(UciError::UnknownSpecifier(word));
        }
        if index + 1 < words.len() {
            index += 2;
        } else {
            index += 1;
        }
        assert(index == after_value(words@, index_before as int));
    }
    Ok(limits)
}

/// Makes the moves that the words from place `index` on stand for.
pub fn apply_moves(bytes: &[u8], words: &Vec<Word>, index: usize, position: Position) -> (r: Result<
    Position,
    UciError,
>)
    requires
        forall|k: int| 0 <= k < words@.len() ==> (#[trigger] words@[k]).start <= words@[k].end
            <= bytes@.len(),
    ensures
        r == apply_moves_spec(bytes@, words@, index as int, position),
{
    let mut current = position;
    let mut i: usize = index;
    while i < words.len()
        invariant
            forall|k: int| 0 <= k < words@.len() ==> (#[trigger] words@[k]).start <= words@[k].end
                <= bytes@.len(),
            apply_moves_spec(bytes@, words@, index as int, position) == apply_moves_spec(
                bytes@,
                words@,
                i as int,
                current,
            ),
        decreases words@.len() - i,
    {
        let word = words[i];
        let next_move = match parse_move(bytes, word.start, word.end) {
            Ok(m) => m,
            Err(error) => {
                return Err(UciError::InvalidMove(word, error));
            },
        };
        // Test if move is legal
        match current.play(next_move) {
            Some(new_position) => {
                current = new_position;
            },
            None => {
                return Err(UciError::IllegalMove(word));
            },
        }
        i += 1;
    }
    Ok(current)
}

/// Reads an optional list of moves and makes them.
pub fn parse_moves(bytes: &[u8], words: &Vec<Word>, index: usize, position: Position) -> (r: Result<
    Position,
    UciError,
>)
    requires
        forall|k: int| 0 <= k < words@.len() ==> (#[trigger] words@[k]).start <= words@[k].end
            <= bytes@.len(),
    ensures
        r == parse_moves_spec(bytes@, words@, index as int, position),
{
    if index >= words.len() {
        // ok, no moves specified
        Ok(position)
    } else if word_is(bytes, words[index], "moves") {
        apply_moves(bytes, words, index + 1, position)
    } else {
        Err(UciError::UnexpectedWord(words[index]))
    }
}

/// Reads the position that a `position` line asks for.
pub fn parse_position(line: &str, words: &Vec<Word>, limit: usize) -> (r: Result<Position, UciError>)
    requires
        line.is_ascii(),
        words@.len() > 0,
        limit == line_end(words@),
        words_in_order(words@, 0, limit as int),
        limit <= line.spec_bytes().len(),
    ensures
        r == parse_position_spec(line, words@, limit as int),
{
    broadcast use vstd::string::is_ascii_spec_bytes;

    let bytes = line.as_bytes();
    if words.len() < 2 {
        return Err(UciError::ExpectedStartposOrFen);
    }
    // Parse 'startpos' or 'fen <fen_str>'

    if word_is(bytes, words[1], "startpos") {
        parse_moves(bytes, words, 2, Position::startpos())
    } else if word_is(bytes, words[1], "fen") {
        let fen_start: usize = if words.len() > 2 {
            words[1].end + 1
        } else {
            limit
        };
        assert(words@.len() > 2 ==> words@[1].end < words@[2].start);
        let fen_end: usize = match find(bytes, "moves".as_bytes(), fen_start, limit) {
            Some(place) => place,
            None => limit,
        };
        let fen_str = line.substring_ascii(fen_start, fen_end);
        match Position::from_fen(fen_str) {
            Ok(position) => {
                let move_words = split_words(bytes, fen_end, limit);
                parse_moves(bytes, &move_words, 0, position)
            },
            Err(error) => Err(UciError::Fen(Word { start: fen_start, end: fen_end }, error)),
        }
    } else {
        Err(UciError::ExpectedStartposOrFen)
    }
}

/// Reads a line of the protocol.
pub fn parse_line(line: &str) -> (r: Result<UciCommand, UciError>)
    ensures
        r == parse_line_spec(line),
{
    broadcast use vstd::string::is_ascii_spec_bytes;

    if !line.is_ascii() {
        return Err(UciError::NotAscii);
    }
    let bytes = line.as_bytes();
    let words = split_words(bytes, 0, bytes.len());
    if words.len() == 0 {
        return Ok(UciCommand::Nothing);
    }
    let limit = words[words.len() - 1].end;
    assert(limit == line_end(words@));
    assert(words_in_order(words@, 0, limit as int));
    let command = words[0];
    if word_is(bytes, command, "uci") {
        Ok(UciCommand::Uci)
    } else if word_is(bytes, command, "ucinewgame") {
        Ok(UciCommand::UciNewGame)
    } else if word_is(bytes, command, "position") {
        match parse_position(line, &words, limit) {
            Ok(position) => Ok(UciCommand::Position(position)),
            Err(error) => Err(error),
        }
    } else if word_is(bytes, command, "d") {
        Ok(UciCommand::Display)
    } else if word_is(bytes, command, "isready") {
        Ok(UciCommand::IsReady)
    } else if word_is(bytes, command, "go") {
        match parse_go(bytes, &words, limit) {
            Ok(limits) => Ok(UciCommand::Go(limits)),
            Err(error) => Err(error),
        }
    } else if word_is(bytes, command, "stop") {
        Ok(UciCommand::Stop)
    } else if word_is(bytes, command, "quit") {
        Ok(UciCommand::Quit)
    } else {
        Err(UciError::UnknownCommand(command))
    }
}

} // verus!
