//! Scores as the search sees them: a 16-bit value with reserved mate windows,
//! and the same value tagged as exact, lower bound or upper bound.

use crate::text::{append_signed, decimal};
use std::cmp::Ordering;
use vstd::prelude::*;

verus! {

/// Strictly better than any score a position can have.
pub const BEST_VALUE: i16 = 32767;

/// The opponent is checkmated.
pub const MATE_VALUE: i16 = 32766;

/// Lowest value that still counts as "we deliver mate".
pub const MATE_RANGE_BOTTOM_VALUE: i16 = MATE_VALUE - MATE_WINDOW;

/// A balanced position.
pub const EVEN_VALUE: i16 = 0;

/// Highest value that still counts as "we get mated".
pub const MATED_RANGE_TOP_VALUE: i16 = MATED_VALUE + MATE_WINDOW;

/// The side to move is checkmated.
pub const MATED_VALUE: i16 = -32766;

/// Strictly worse than any score a position can have.
pub const WORST_VALUE: i16 = -32767;

/// Placeholder for "no score yet".
pub const NO_SCORE_VALUE: i16 = -32768;

/// Number of plies a mate distance can express.
pub const MATE_WINDOW: i16 = 255;

/// Negation of a score value; the placeholder negates to itself.
pub open spec fn neg_value(v: int) -> int {
    if v == NO_SCORE_VALUE {
        v
    } else {
        -v
    }
}

/// A value is a mate score when it lies within the window below `MATE` or
/// above `MATED`, the extremes `BEST` and `WORST` included, and is not the
/// placeholder.
pub open spec fn is_mate_value(v: int) -> bool {
    v >= MATE_RANGE_BOTTOM_VALUE || (v <= MATED_RANGE_TOP_VALUE && v != NO_SCORE_VALUE)
}

/// A value strictly between the two mate windows.
pub open spec fn is_centipawn_value(v: int) -> bool {
    MATED_RANGE_TOP_VALUE < v < MATE_RANGE_BOTTOM_VALUE
}

/// One ply further from mate: towards the centre from either window,
/// stopping at the inner edge of the window.
pub open spec fn increment_value(v: int) -> int {
    if MATE_RANGE_BOTTOM_VALUE < v <= MATE_VALUE {
        v - 1
    } else if MATED_VALUE <= v < MATED_RANGE_TOP_VALUE {
        v + 1
    } else {
        v
    }
}

/// One ply closer to mate: away from the centre. In the upper window the
/// value stops at `MATE`, which stays as it is; in the lower window `MATED`
/// becomes `WORST`.
pub open spec fn decrement_value(v: int) -> int {
    if MATE_RANGE_BOTTOM_VALUE <= v < MATE_VALUE {
        v + 1
    } else if MATED_VALUE <= v <= MATED_RANGE_TOP_VALUE {
        v - 1
    } else {
        v
    }
}

/// Division by two that rounds towards zero.
pub open spec fn half_towards_zero(d: int) -> int {
    if d >= 0 {
        d / 2
    } else {
        -((-d) / 2)
    }
}

/// How a score value reads in the UCI protocol.
pub open spec fn describe_value(v: int) -> BoardScoreDescription {
    if v >= MATE_RANGE_BOTTOM_VALUE {
        BoardScoreDescription::Mate(half_towards_zero(MATE_VALUE - v + 1) as i32)
    } else if v <= MATED_RANGE_TOP_VALUE {
        BoardScoreDescription::Mate(half_towards_zero(MATED_VALUE - v) as i32)
    } else {
        BoardScoreDescription::Cp(v as i32)
    }
}

/// The protocol text of a score value: `cp N` or `mate K`.
pub open spec fn format_value(v: int) -> Seq<char> {
    match describe_value(v) {
        BoardScoreDescription::Cp(n) => seq!['c', 'p', ' '] + decimal(n as int),
        BoardScoreDescription::Mate(n) => seq!['m', 'a', 't', 'e', ' '] + decimal(n as int),
    }
}

/// The usual order of integers, as the result of a comparison.
pub open spec fn compare_values(a: int, b: int) -> Option<Ordering> {
    if a < b {
        Some(Ordering::Less)
    } else if a > b {
        Some(Ordering::Greater)
    } else {
        Some(Ordering::Equal)
    }
}

/// How two bounded scores compare.
///
/// Scores of the same kind compare by value. A score whose bound reaches
/// further up than the other's (a lower bound against an exact score or an
/// upper bound, an exact score against an upper bound) is comparable only when
/// its value is not below the other's; in the opposite case only when its value is
/// not above. Every other pair is incomparable.
pub open spec fn compare_bounded(a: BoundedScore, b: BoundedScore) -> Option<Ordering> {
    let x = a.inner()@;
    let y = b.inner()@;
    if a.reach() == b.reach() {
        compare_values(x, y)
    } else if a.reach() > b.reach() {
        if x >= y {
            compare_values(x, y)
        } else {
            None
        }
    } else {
        if x <= y {
            compare_values(x, y)
        } else {
            None
        }
    }
}

/// The first score is known to be above the second: the two compare, and
/// the first comes out greater.
pub open spec fn is_above(a: BoundedScore, b: BoundedScore) -> bool {
    compare_bounded(a, b) == Some(Ordering::Greater)
}

/// The evaluation of a position from the point of view of the side to move.
///
/// | value             | meaning                                |
/// |-------------------|----------------------------------------|
/// | 32767             | `BEST_SCORE`, above every real score   |
/// | 32766             | `MATE`                                 |
/// | 32765 ... 32511   | mate in 1 ... 255 plies                |
/// | 9999 ... -9999    | centipawns                             |
/// | -32511 ... -32765 | mated in 255 ... 1 plies               |
/// | -32766            | `MATED`                                |
/// | -32767            | `WORST_SCORE`, below every real score  |
/// | -32768            | `NO_SCORE`                             |
#[derive(Clone, Copy, PartialEq, Eq, Structural, Debug)]
pub struct BoardScore {
    inner: i16,
}

/// The two textual forms of a score: centipawns, or full moves to mate.
#[derive(Clone, Copy, PartialEq, Eq, Structural, Debug)]
pub enum BoardScoreDescription {
    Cp(i32),
    Mate(i32),
}

impl View for BoardScore {
    type V = int;

    closed spec fn view(&self) -> int {
        self.inner as int
    }
}

impl BoardScore {
    /// Strictly better than any score a position can have.
    pub fn best_score() -> (r: BoardScore)
        ensures
            r@ == BEST_VALUE,
    {
        BoardScore { inner: BEST_VALUE }
    }

    /// The opponent is checkmated.
    pub fn mate() -> (r: BoardScore)
        ensures
            r@ == MATE_VALUE,
    {
        BoardScore { inner: MATE_VALUE }
    }

    /// A balanced position.
    pub fn even() -> (r: BoardScore)
        ensures
            r@ == EVEN_VALUE,
    {
        BoardScore { inner: EVEN_VALUE }
    }

    /// The side to move is checkmated.
    pub fn mated() -> (r: BoardScore)
        ensures
            r@ == MATED_VALUE,
    {
        BoardScore { inner: MATED_VALUE }
    }

    /// Strictly worse than any score a position can have.
    pub fn worst_score() -> (r: BoardScore)
        ensures
            r@ == WORST_VALUE,
    {
        BoardScore { inner: WORST_VALUE }
    }

    /// Placeholder for "no score yet".
    pub fn no_score() -> (r: BoardScore)
        ensures
            r@ == NO_SCORE_VALUE,
    {
        BoardScore { inner: NO_SCORE_VALUE }
    }

    /// The score whose value is `v`.
    pub closed spec fn from_value(v: int) -> BoardScore {
        BoardScore { inner: v as i16 }
    }

    /// Spec counterpart of [`BoardScore::neg`].
    pub open spec fn negated(self) -> BoardScore {
        BoardScore::from_value(neg_value(self@))
    }

    /// Spec counterpart of [`BoardScore::increment_mate_plies`].
    pub open spec fn incremented(self) -> BoardScore {
        BoardScore::from_value(increment_value(self@))
    }

    /// Spec counterpart of [`BoardScore::decrement_mate_plies`].
    pub open spec fn decremented(self) -> BoardScore {
        BoardScore::from_value(decrement_value(self@))
    }

    /// A score is its value: scores with equal values are equal, every value
    /// is a 16-bit integer, and `from_value` inverts the view.
    pub broadcast proof fn lemma_view(self)
        ensures
            #![trigger self@]
            i16::MIN <= self@ <= i16::MAX,
            BoardScore::from_value(self@) == self,
    {
    }

    /// The view of `from_value(v)` is `v` for every 16-bit `v`.
    pub broadcast proof fn lemma_from_value(v: int)
        requires
            i16::MIN <= v <= i16::MAX,
        ensures
            (#[trigger] BoardScore::from_value(v))@ == v,
    {
    }

    /// The score with the given raw value.
    pub fn evaluation(evaluation: i16) -> (r: BoardScore)
        ensures
            r@ == evaluation,
    {
        BoardScore { inner: evaluation }
    }

    /// The raw value.
    pub fn value(self) -> (r: i16)
        ensures
            r == self@,
    {
        self.inner
    }

    /// Negation; `NO_SCORE` stays `NO_SCORE`.
    pub fn neg(self) -> (r: BoardScore)
        ensures
            r == self.negated(),
            r@ == neg_value(self@),
    {
        if self.inner != NO_SCORE_VALUE {
            BoardScore { inner: -self.inner }
        } else {
            self
        }
    }

    pub fn is_mate_score(self) -> (r: bool)
        ensures
            r == is_mate_value(self@),
    {
        self.inner >= MATE_RANGE_BOTTOM_VALUE || (self.inner <= MATED_RANGE_TOP_VALUE && self.inner
            != NO_SCORE_VALUE)
    }

    /// Increment the ply count in mate-in-n evaluations.
    ///
    /// Mate-in-5 becomes mate-in-6, and mated-in-5 becomes mated-in-6. The
    /// count saturates at 255 plies. Centipawn values, `NO_SCORE`,
    /// `BEST_SCORE` and `WORST_SCORE` are unaffected.
    pub fn increment_mate_plies(self) -> (r: BoardScore)
        ensures
            r == self.incremented(),
            r@ == increment_value(self@),
    {
        if self.inner > MATE_RANGE_BOTTOM_VALUE && self.inner <= MATE_VALUE {
            BoardScore { inner: self.inner - 1 }
        } else if self.inner < MATED_RANGE_TOP_VALUE && self.inner >= MATED_VALUE {
            BoardScore { inner: self.inner + 1 }
        } else {
            self
        }
    }

    /// Decrement the ply count in mate-in-n evaluations.
    ///
    /// Mate-in-5 becomes mate-in-4, and mated-in-5 becomes mated-in-4. The
    /// count does not go below zero: `MATE` stays `MATE`. `MATED` becomes
    /// `WORST_SCORE`. Other values are unaffected.
    pub fn decrement_mate_plies(self) -> (r: BoardScore)
        ensures
            r == self.decremented(),
            r@ == decrement_value(self@),
    {
        if self.inner >= MATE_RANGE_BOTTOM_VALUE && self.inner < MATE_VALUE {
            BoardScore { inner: self.inner + 1 }
        } else if self.inner <= MATED_RANGE_TOP_VALUE && self.inner >= MATED_VALUE {
            BoardScore { inner: self.inner - 1 }
        } else {
            self
        }
    }

    /// The UCI reading of the score: centipawns, or the number of full moves
    /// to mate, positive when the side to move mates.
    pub fn describe(self) -> (r: BoardScoreDescription)
        ensures
            r == describe_value(self@),
    {
        let v: i32 = self.inner as i32;
        if self.inner >= MATE_RANGE_BOTTOM_VALUE {
            BoardScoreDescription::Mate((MATE_VALUE as i32 - v + 1) / 2)
        } else if self.inner <= MATED_RANGE_TOP_VALUE {
            let d: i32 = MATED_VALUE as i32 - v;
            if d >= 0 {
                BoardScoreDescription::Mate(d / 2)
            } else {
                BoardScoreDescription::Mate(-((-d) / 2))
            }
        } else {
            BoardScoreDescription::Cp(v)
        }
    }

    /// The score as the protocol prints it: `cp N`, or `mate K` with `K` the
    /// number of full moves.
    pub fn format_uci(self) -> (r: String)
        ensures
            r@ == format_value(self@),
    {
        proof {
            reveal_strlit("cp ");
            reveal_strlit("mate ");
        }
        let mut r = String::new();
        match self.describe() {
            BoardScoreDescription::Cp(n) => {
                r.append("cp ");
                assert(r@ =~= seq!['c', 'p', ' ']);
                append_signed(&mut r, n as i64);
            },
            BoardScoreDescription::Mate(n) => {
                r.append("mate ");
                assert(r@ =~= seq!['m', 'a', 't', 'e', ' ']);
                append_signed(&mut r, n as i64);
            },
        }
        r
    }
}

impl PartialOrd for BoardScore {
    fn partial_cmp(&self, other: &Self) -> (r: Option<Ordering>) {
        if self.inner < other.inner {
            Some(Ordering::Less)
        } else if self.inner > other.inner {
            Some(Ordering::Greater)
        } else {
            Some(Ordering::Equal)
        }
    }
}

impl vstd::std_specs::cmp::PartialOrdSpecImpl for BoardScore {
    open spec fn obeys_partial_cmp_spec() -> bool {
        true
    }

    open spec fn partial_cmp_spec(&self, other: &Self) -> Option<Ordering> {
        compare_values(self@, other@)
    }
}

/// A score together with what is known of it: the exact value, or a bound.
#[derive(Clone, Copy, PartialEq, Eq, Structural, Debug)]
pub enum BoundedScore {
    Exact(BoardScore),
    LowerBound(BoardScore),
    UpperBound(BoardScore),
}

impl BoundedScore {
    /// The score inside, whatever the bound.
    pub open spec fn inner(self) -> BoardScore {
        match self {
            BoundedScore::Exact(x) => x,
            BoundedScore::LowerBound(x) => x,
            BoundedScore::UpperBound(x) => x,
        }
    }

    /// How far up the true score may lie: an upper bound 0, an exact score 1,
    /// a lower bound 2.
    pub open spec fn reach(self) -> int {
        match self {
            BoundedScore::UpperBound(_) => 0,
            BoundedScore::Exact(_) => 1,
            BoundedScore::LowerBound(_) => 2,
        }
    }

    /// Spec counterpart of [`BoundedScore::neg`]: the score is negated and a
    /// lower bound becomes an upper bound and the reverse.
    pub open spec fn negated(self) -> BoundedScore {
        match self {
            BoundedScore::Exact(x) => BoundedScore::Exact(x.negated()),
            BoundedScore::LowerBound(x) => BoundedScore::UpperBound(x.negated()),
            BoundedScore::UpperBound(x) => BoundedScore::LowerBound(x.negated()),
        }
    }

    /// Spec counterpart of [`BoundedScore::increment_mate_plies`].
    pub open spec fn incremented(self) -> BoundedScore {
        match self {
            BoundedScore::Exact(x) => BoundedScore::Exact(x.incremented()),
            BoundedScore::LowerBound(x) => BoundedScore::LowerBound(x.incremented()),
            BoundedScore::UpperBound(x) => BoundedScore::UpperBound(x.incremented()),
        }
    }

    /// The protocol text: the score, then ` lowerbound` or ` upperbound`
    /// where the score is a bound.
    pub open spec fn format_spec(self) -> Seq<char> {
        match self {
            BoundedScore::Exact(x) => format_value(x@),
            BoundedScore::LowerBound(x) => format_value(x@) + " lowerbound"@,
            BoundedScore::UpperBound(x) => format_value(x@) + " upperbound"@,
        }
    }

    pub fn unwrap(self) -> (r: BoardScore)
        ensures
            r == self.inner(),
    {
        match self {
            BoundedScore::Exact(x) => x,
            BoundedScore::LowerBound(x) => x,
            BoundedScore::UpperBound(x) => x,
        }
    }

    pub fn neg(self) -> (r: BoundedScore)
        ensures
            r == self.negated(),
    {
        match self {
            BoundedScore::Exact(x) => BoundedScore::Exact(x.neg()),
            BoundedScore::LowerBound(x) => BoundedScore::UpperBound(x.neg()),
            BoundedScore::UpperBound(x) => BoundedScore::LowerBound(x.neg()),
        }
    }

    pub fn increment_mate_plies(self) -> (r: BoundedScore)
        ensures
            r == self.incremented(),
    {
        match self {
            BoundedScore::Exact(x) => BoundedScore::Exact(x.increment_mate_plies()),
            BoundedScore::LowerBound(x) => BoundedScore::LowerBound(x.increment_mate_plies()),
            BoundedScore::UpperBound(x) => BoundedScore::UpperBound(x.increment_mate_plies()),
        }
    }

    pub fn is_exact(self) -> (r: bool)
        ensures
            r == (self is Exact),
    {
        match self {
            BoundedScore::Exact(_) => true,
            _ => false,
        }
    }

    pub fn is_lowerbound(self) -> (r: bool)
        ensures
            r == (self is LowerBound),
    {
        match self {
            BoundedScore::LowerBound(_) => true,
            _ => false,
        }
    }

    pub fn is_upperbound(self) -> (r: bool)
        ensures
            r == (self is UpperBound),
    {
        match self {
            BoundedScore::UpperBound(_) => true,
            _ => false,
        }
    }

    /// The score as the protocol prints it, for example `cp 50 lowerbound`.
    pub fn format_uci(self) -> (r: String)
        ensures
            r@ == self.format_spec(),
    {
        let mut r = self.unwrap().format_uci();
        match self {
            BoundedScore::Exact(_) => {},
            BoundedScore::LowerBound(_) => {
                r.append(" lowerbound");
            },
            BoundedScore::UpperBound(_) => {
                r.append(" upperbound");
            },
        }
        r
    }
}

impl PartialOrd for BoundedScore {
    fn partial_cmp(&self, other: &Self) -> (r: Option<Ordering>) {
        match (*self, *other) {
            (BoundedScore::LowerBound(a), BoundedScore::LowerBound(b))
            | (BoundedScore::Exact(a), BoundedScore::Exact(b))
            | (BoundedScore::UpperBound(a), BoundedScore::UpperBound(b)) => a.partial_cmp(&b),
            (BoundedScore::LowerBound(a), BoundedScore::Exact(b))
            | (BoundedScore::LowerBound(a), BoundedScore::UpperBound(b))
            | (BoundedScore::Exact(a), BoundedScore::UpperBound(b)) => {
                if a >= b {
                    a.partial_cmp(&b)
                } else {
                    None
                }
            },
            (BoundedScore::Exact(a), BoundedScore::LowerBound(b))
            | (BoundedScore::UpperBound(a), BoundedScore::LowerBound(b))
            | (BoundedScore::UpperBound(a), BoundedScore::Exact(b)) => {
                if a <= b {
                    a.partial_cmp(&b)
                } else {
                    None
                }
            },
        }
    }
}

impl vstd::std_specs::cmp::PartialOrdSpecImpl for BoundedScore {
    open spec fn obeys_partial_cmp_spec() -> bool {
        true
    }

    open spec fn partial_cmp_spec(&self, other: &Self) -> Option<Ordering> {
        compare_bounded(*self, *other)
    }
}

/// Negating a score twice gives the score back.
pub proof fn lemma_neg_involution(s: BoardScore)
    ensures
        s.negated().negated() == s,
        neg_value(neg_value(s@)) == s@,
{
    broadcast use BoardScore::lemma_view, BoardScore::lemma_from_value;

}

/// Negation turns the order of two scores around, as long as neither is the
/// placeholder.
pub proof fn lemma_neg_reverses_order(a: BoardScore, b: BoardScore)
    requires
        a@ != NO_SCORE_VALUE,
        b@ != NO_SCORE_VALUE,
    ensures
        a@ < b@ <==> b.negated()@ < a.negated()@,
{
    broadcast use BoardScore::lemma_view, BoardScore::lemma_from_value;

}

/// Outside the mate windows, changing the ply count changes nothing.
pub proof fn lemma_centipawn_plies_unchanged(s: BoardScore)
    requires
        is_centipawn_value(s@),
    ensures
        s.incremented() == s,
        s.decremented() == s,
        !is_mate_value(s@),
{
    broadcast use BoardScore::lemma_view, BoardScore::lemma_from_value;

}

/// Strictly inside the window below `MATE`, and at `MATE` itself, one more ply
/// lowers the value by one.
pub proof fn lemma_mate_window_increment(s: BoardScore)
    requires
        MATE_RANGE_BOTTOM_VALUE < s@ <= MATE_VALUE,
    ensures
        s.incremented()@ == s@ - 1,
{
    broadcast use BoardScore::lemma_view, BoardScore::lemma_from_value;

}

/// Inside the window below `MATE`, and at `MATE` itself, one ply fewer
/// raises the value by one, but not beyond `MATE`.
pub proof fn lemma_mate_window_decrement(s: BoardScore)
    requires
        MATE_RANGE_BOTTOM_VALUE < s@ <= MATE_VALUE,
    ensures
        s@ < MATE_VALUE ==> s.decremented()@ == s@ + 1,
        s@ == MATE_VALUE ==> s.decremented()@ == MATE_VALUE,
        s.decremented()@ <= MATE_VALUE,
{
    broadcast use BoardScore::lemma_view, BoardScore::lemma_from_value;

}

/// Inside either window, taking a ply off after adding one gives the score
/// back.
pub proof fn lemma_decrement_undoes_increment(s: BoardScore)
    requires
        MATE_RANGE_BOTTOM_VALUE < s@ <= MATE_VALUE || MATED_VALUE <= s@ < MATED_RANGE_TOP_VALUE,
    ensures
        s.incremented().decremented() == s,
{
    broadcast use BoardScore::lemma_view, BoardScore::lemma_from_value;

}

/// Adding a ply and negating can be done in either order.
pub proof fn lemma_increment_commutes_with_neg(s: BoardScore)
    ensures
        s.negated().incremented() == s.incremented().negated(),
{
    broadcast use BoardScore::lemma_view, BoardScore::lemma_from_value;

}

/// A child's score, seen with one more ply, reaches a bound exactly when the
/// child's own score reaches the bound with one ply fewer. This is why the
/// search hands decremented bounds down the tree. It holds for every real
/// score and every bound but the two at which the upper window saturates.
pub proof fn lemma_decrement_matches_increment(x: BoardScore, bound: BoardScore)
    requires
        MATED_VALUE <= x@ <= MATE_VALUE,
        bound@ != MATE_RANGE_BOTTOM_VALUE,
        bound@ != MATE_VALUE,
        bound@ != NO_SCORE_VALUE,
    ensures
        x.incremented()@ >= bound@ <==> x@ >= bound.decremented()@,
{
    broadcast use BoardScore::lemma_view, BoardScore::lemma_from_value;

}

/// Negation swaps lower and upper bounds, keeps exact scores exact, and
/// negates the score inside.
pub proof fn lemma_bounded_neg(s: BoardScore)
    ensures
        BoundedScore::LowerBound(s).negated() == BoundedScore::UpperBound(s.negated()),
        BoundedScore::UpperBound(s).negated() == BoundedScore::LowerBound(s.negated()),
        BoundedScore::Exact(s).negated() == BoundedScore::Exact(s.negated()),
{
}

/// Negating a bounded score twice gives it back.
pub proof fn lemma_bounded_neg_involution(s: BoundedScore)
    ensures
        s.negated().negated() == s,
{
    lemma_neg_involution(s.inner());
}

/// Exact scores are totally ordered by their values.
pub proof fn lemma_exact_totally_ordered(a: BoardScore, b: BoardScore)
    ensures
        compare_bounded(BoundedScore::Exact(a), BoundedScore::Exact(b)) == compare_values(a@, b@),
        compare_bounded(BoundedScore::Exact(a), BoundedScore::Exact(b)) is Some,
{
}

/// A lower bound is at least an exact score or an upper bound exactly when
/// its value is at least theirs, and is otherwise incomparable with them;
/// the mirror image holds of an upper bound.
pub proof fn lemma_mixed_comparison(a: BoardScore, b: BoardScore)
    ensures
        a@ >= b@ ==> compare_bounded(BoundedScore::LowerBound(a), BoundedScore::Exact(b))
            == compare_values(a@, b@),
        a@ >= b@ ==> compare_bounded(BoundedScore::LowerBound(a), BoundedScore::UpperBound(b))
            == compare_values(a@, b@),
        a@ < b@ ==> compare_bounded(BoundedScore::LowerBound(a), BoundedScore::Exact(b)) is None,
        a@ < b@ ==> compare_bounded(BoundedScore::LowerBound(a), BoundedScore::UpperBound(b))
            is None,
        a@ <= b@ ==> compare_bounded(BoundedScore::UpperBound(a), BoundedScore::Exact(b))
            == compare_values(a@, b@),
        a@ <= b@ ==> compare_bounded(BoundedScore::UpperBound(a), BoundedScore::LowerBound(b))
            == compare_values(a@, b@),
        a@ > b@ ==> compare_bounded(BoundedScore::UpperBound(a), BoundedScore::Exact(b)) is None,
        a@ > b@ ==> compare_bounded(BoundedScore::UpperBound(a), BoundedScore::LowerBound(b))
            is None,
{
}

} // verus!
