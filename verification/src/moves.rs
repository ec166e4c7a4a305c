//! Chess moves as plain values: two squares and an optional promotion.
//!
//! Squares are numbered rank by rank from White's side: a1 is 0, b1 is 1,
//! h1 is 7, a2 is 8 and h8 is 63.

use vstd::prelude::*;

verus! {

/// Number of squares on the board.
pub const NUM_SQUARES: u8 = 64;

/// The six kinds of chess pieces, in ascending order of their usual value.
#[derive(Clone, Copy, PartialEq, Eq, Structural, Debug)]
pub enum PieceKind {
    Pawn,
    Knight,
    Bishop,
    Rook,
    Queen,
    King,
}

impl PieceKind {
    /// Position of the kind in the order pawn, knight, bishop, rook, queen,
    /// king.
    pub open spec fn index_spec(self) -> u8 {
        match self {
            PieceKind::Pawn => 0,
            PieceKind::Knight => 1,
            PieceKind::Bishop => 2,
            PieceKind::Rook => 3,
            PieceKind::Queen => 4,
            PieceKind::King => 5,
        }
    }

    /// The kind at a position of that order.
    pub open spec fn from_index_spec(index: u8) -> Option<PieceKind> {
        if index == 0 {
            Some(PieceKind::Pawn)
        } else if index == 1 {
            Some(PieceKind::Knight)
        } else if index == 2 {
            Some(PieceKind::Bishop)
        } else if index == 3 {
            Some(PieceKind::Rook)
        } else if index == 4 {
            Some(PieceKind::Queen)
        } else if index == 5 {
            Some(PieceKind::King)
        } else {
            None
        }
    }

    /// The lower-case letter that stands for the kind in move text.
    pub open spec fn letter(self) -> char {
        match self {
            PieceKind::Pawn => 'p',
            PieceKind::Knight => 'n',
            PieceKind::Bishop => 'b',
            PieceKind::Rook => 'r',
            PieceKind::Queen => 'q',
            PieceKind::King => 'k',
        }
    }

    pub fn index(self) -> (r: u8)
        ensures
            r == self.index_spec(),
            r < 6,
    {
        match self {
            PieceKind::Pawn => 0,
            PieceKind::Knight => 1,
            PieceKind::Bishop => 2,
            PieceKind::Rook => 3,
            PieceKind::Queen => 4,
            PieceKind::King => 5,
        }
    }

    pub fn from_index(index: u8) -> (r: Option<PieceKind>)
        ensures
            r == PieceKind::from_index_spec(index),
            r is Some <==> index < 6,
            r matches Some(kind) ==> kind.index_spec() == index,
    {
        if index == 0 {
            Some(PieceKind::Pawn)
        } else if index == 1 {
            Some(PieceKind::Knight)
        } else if index == 2 {
            Some(PieceKind::Bishop)
        } else if index == 3 {
            Some(PieceKind::Rook)
        } else if index == 4 {
            Some(PieceKind::Queen)
        } else if index == 5 {
            Some(PieceKind::King)
        } else {
            None
        }
    }

    /// The text of [`PieceKind::letter`].
    fn letter_str(self) -> (r: &'static str)
        ensures
            r@ == seq![self.letter()],
    {
        proof {
            reveal_strlit("p");
            reveal_strlit("n");
            reveal_strlit("b");
            reveal_strlit("r");
            reveal_strlit("q");
            reveal_strlit("k");
        }
        let r = match self {
            PieceKind::Pawn => "p",
            PieceKind::Knight => "n",
            PieceKind::Bishop => "b",
            PieceKind::Rook => "r",
            PieceKind::Queen => "q",
            PieceKind::King => "k",
        };
        assert(r@ =~= seq![self.letter()]);
        r
    }
}

/// The letter of a file, `a` for file 0 up to `h` for file 7.
pub open spec fn file_char(file: int) -> char {
    if file == 0 {
        'a'
    } else if file == 1 {
        'b'
    } else if file == 2 {
        'c'
    } else if file == 3 {
        'd'
    } else if file == 4 {
        'e'
    } else if file == 5 {
        'f'
    } else if file == 6 {
        'g'
    } else {
        'h'
    }
}

/// The digit of a rank, `1` for rank 0 up to `8` for rank 7.
pub open spec fn rank_char(rank: int) -> char {
    if rank == 0 {
        '1'
    } else if rank == 1 {
        '2'
    } else if rank == 2 {
        '3'
    } else if rank == 3 {
        '4'
    } else if rank == 4 {
        '5'
    } else if rank == 5 {
        '6'
    } else if rank == 6 {
        '7'
    } else {
        '8'
    }
}

/// The name of a square: its file letter, then its rank digit.
pub open spec fn square_text(square: int) -> Seq<char> {
    seq![file_char(square % 8), rank_char(square / 8)]
}

fn file_str(file: u8) -> (r: &'static str)
    requires
        file < 8,
    ensures
        r@ == seq![file_char(file as int)],
{
    proof {
        reveal_strlit("a");
        reveal_strlit("b");
        reveal_strlit("c");
        reveal_strlit("d");
        reveal_strlit("e");
        reveal_strlit("f");
        reveal_strlit("g");
        reveal_strlit("h");
    }
    let r = if file == 0 {
        "a"
    } else if file == 1 {
        "b"
    } else if file == 2 {
        "c"
    } else if file == 3 {
        "d"
    } else if file == 4 {
        "e"
    } else if file == 5 {
        "f"
    } else if file == 6 {
        "g"
    } else {
        "h"
    };
    assert(r@ =~= seq![file_char(file as int)]);
    r
}

fn rank_str(rank: u8) -> (r: &'static str)
    requires
        rank < 8,
    ensures
        r@ == seq![rank_char(rank as int)],
{
    proof {
        reveal_strlit("1");
        reveal_strlit("2");
        reveal_strlit("3");
        reveal_strlit("4");
        reveal_strlit("5");
        reveal_strlit("6");
        reveal_strlit("7");
        reveal_strlit("8");
    }
    let r = if rank == 0 {
        "1"
    } else if rank == 1 {
        "2"
    } else if rank == 2 {
        "3"
    } else if rank == 3 {
        "4"
    } else if rank == 4 {
        "5"
    } else if rank == 5 {
        "6"
    } else if rank == 6 {
        "7"
    } else {
        "8"
    };
    assert(r@ =~= seq![rank_char(rank as int)]);
    r
}

/// Appends the name of a square to `out`.
pub fn append_square(out: &mut String, square: u8)
    requires
        square < NUM_SQUARES,
    ensures
        final(out)@ == old(out)@ + square_text(square as int),
{
    out.append(file_str(square % 8));
    out.append(rank_str(square / 8));
    assert(out@ =~= old(out)@ + square_text(square as int));
}

/// A move: the square a piece leaves, the square it goes to, and the kind
/// of piece a pawn turns into when the move promotes it.
#[derive(Clone, Copy, PartialEq, Eq, Structural, Debug)]
pub struct Move {
    source: u8,
    dest: u8,
    promotion: Option<PieceKind>,
}

impl Move {
    #[verifier::type_invariant]
    pub closed spec fn on_board(self) -> bool {
        self.source < NUM_SQUARES && self.dest < NUM_SQUARES
    }

    pub closed spec fn source_spec(self) -> u8 {
        self.source
    }

    pub closed spec fn dest_spec(self) -> u8 {
        self.dest
    }

    pub closed spec fn promotion_spec(self) -> Option<PieceKind> {
        self.promotion
    }

    /// The move with the given parts.
    pub closed spec fn from_parts(source: u8, dest: u8, promotion: Option<PieceKind>) -> Move {
        Move { source, dest, promotion }
    }

    /// The move in long algebraic form, as the protocol writes it: `e2e4`,
    /// `e7e8q`.
    pub open spec fn text(self) -> Seq<char> {
        square_text(self.source_spec() as int) + square_text(self.dest_spec() as int) + (
        match self.promotion_spec() {
            Some(kind) => seq![kind.letter()],
            None => Seq::<char>::empty(),
        })
    }

    /// A move is its three parts.
    pub broadcast proof fn lemma_parts(self)
        ensures
            #![trigger self.source_spec()]
            #![trigger self.dest_spec()]
            #![trigger self.promotion_spec()]
            self == Move::from_parts(self.source_spec(), self.dest_spec(), self.promotion_spec()),
    {
    }

    /// The parts of `from_parts` are its arguments.
    pub broadcast proof fn lemma_from_parts(source: u8, dest: u8, promotion: Option<PieceKind>)
        ensures
            (#[trigger] Move::from_parts(source, dest, promotion)).source_spec() == source,
            Move::from_parts(source, dest, promotion).dest_spec() == dest,
            Move::from_parts(source, dest, promotion).promotion_spec() == promotion,
            Move::from_parts(source, dest, promotion).on_board() <==> (source < NUM_SQUARES && dest
                < NUM_SQUARES),
    {
    }

    /// The move from `source` to `dest`, or `None` when either is not a
    /// square of the board.
    pub fn new(source: u8, dest: u8, promotion: Option<PieceKind>) -> (r: Option<Move>)
        ensures
            r is Some <==> (source < NUM_SQUARES && dest < NUM_SQUARES),
            r matches Some(m) ==> m == Move::from_parts(source, dest, promotion),
    {
        if source < NUM_SQUARES && dest < NUM_SQUARES {
            Some(Move { source, dest, promotion })
        } else {
            None
        }
    }

    pub fn get_source(&self) -> (r: u8)
        ensures
            r == self.source_spec(),
            r < NUM_SQUARES,
    {
        proof {
            use_type_invariant(self);
        }
        self.source
    }

    pub fn get_dest(&self) -> (r: u8)
        ensures
            r == self.dest_spec(),
            r < NUM_SQUARES,
    {
        proof {
            use_type_invariant(self);
        }
        self.dest
    }

    pub fn get_promotion(&self) -> (r: Option<PieceKind>)
        ensures
            r == self.promotion_spec(),
    {
        self.promotion
    }

    /// The move as the protocol writes it.
    pub fn format_uci(&self) -> (r: String)
        ensures
            r@ == self.text(),
    {
        proof {
            use_type_invariant(self);
        }
        let mut r = String::new();
        append_square(&mut r, self.source);
        append_square(&mut r, self.dest);
        match self.promotion {
            Some(kind) => {
                r.append(kind.letter_str());
            },
            None => {},
        }
        assert(r@ =~= self.text());
        r
    }
}

} // verus!
