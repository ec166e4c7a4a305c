//! Move ordering: the move that an earlier search found best is tried
//! first, so that alpha-beta cuts off as early as it can.

use crate::moves::Move;
use crate::position::Position;
use vstd::prelude::*;

verus! {

/// The moves of `legal` from position `from` on, without those equal to
/// `best_move`.
pub open spec fn skipping(legal: Seq<Move>, best_move: Option<Move>, from: nat) -> Seq<Move>
    decreases legal.len() - from,
{
    if from >= legal.len() {
        Seq::empty()
    } else if Some(legal[from as int]) == best_move {
        skipping(legal, best_move, from + 1)
    } else {
        seq![legal[from as int]] + skipping(legal, best_move, from + 1)
    }
}

/// The order in which moves are tried: `best_move` first, if there is one,
/// then the legal moves in their own order, without `best_move`.
pub open spec fn ordered_moves(legal: Seq<Move>, best_move: Option<Move>) -> Seq<Move> {
    match best_move {
        Some(m) => seq![m] + skipping(legal, best_move, 0),
        None => skipping(legal, best_move, 0),
    }
}

/// What is left after skipping is made of legal moves other than
/// `best_move`, and no legal move other than `best_move` is lost.
pub proof fn lemma_skipping(legal: Seq<Move>, best_move: Option<Move>, from: nat)
    ensures
        forall|i: int|
            0 <= i < skipping(legal, best_move, from).len() ==> Some(
                #[trigger] skipping(legal, best_move, from)[i],
            ) != best_move && exists|j: int|
                from <= j < legal.len() && legal[j] == skipping(legal, best_move, from)[i],
        forall|j: int|
            from <= j < legal.len() && Some(#[trigger] legal[j]) != best_move ==> skipping(
                legal,
                best_move,
                from,
            ).contains(legal[j]),
        skipping(legal, best_move, from).len() <= legal.len() - from || from > legal.len(),
    decreases legal.len() - from,
{
    if from < legal.len() {
        lemma_skipping(legal, best_move, from + 1);
        let rest = skipping(legal, best_move, from + 1);
        let all = skipping(legal, best_move, from);
        if Some(legal[from as int]) != best_move {
            assert forall|i: int| 0 <= i < all.len() implies Some(#[trigger] all[i]) != best_move
                && exists|j: int| from <= j < legal.len() && legal[j] == all[i] by {
                if i > 0 {
                    assert(all[i] == rest[i - 1]);
                    let j = choose|j: int| from + 1 <= j < legal.len() && legal[j] == rest[i - 1];
                    assert(legal[j] == all[i]);
                } else {
                    assert(legal[from as int] == all[i]);
                }
            }
            assert forall|j: int|
                from <= j < legal.len() && Some(#[trigger] legal[j]) != best_move implies all.contains(
                legal[j],
            ) by {
                if j == from {
                    assert(all[0] == legal[j]);
                } else {
                    let i = choose|i: int| 0 <= i < rest.len() && rest[i] == legal[j];
                    assert(all[i + 1] == legal[j]);
                }
            }
        }
    }
}

/// The best move is tried first and never again, and every other legal
/// move is tried.
pub proof fn lemma_best_move_once(legal: Seq<Move>, best_move: Move)
    ensures
        ordered_moves(legal, Some(best_move))[0] == best_move,
        forall|i: int|
            1 <= i < ordered_moves(legal, Some(best_move)).len() ==> #[trigger] ordered_moves(
                legal,
                Some(best_move),
            )[i] != best_move,
        forall|j: int|
            0 <= j < legal.len() ==> ordered_moves(legal, Some(best_move)).contains(
                #[trigger] legal[j],
            ),
{
    let rest = skipping(legal, Some(best_move), 0);
    let all = ordered_moves(legal, Some(best_move));
    lemma_skipping(legal, Some(best_move), 0);
    assert forall|i: int| 1 <= i < all.len() implies #[trigger] all[i] != best_move by {
        assert(all[i] == rest[i - 1]);
    }
    assert forall|j: int| 0 <= j < legal.len() implies all.contains(#[trigger] legal[j]) by {
        if legal[j] == best_move {
            assert(all[0] == legal[j]);
        } else {
            let i = choose|i: int| 0 <= i < rest.len() && rest[i] == legal[j];
            assert(all[i + 1] == legal[j]);
        }
    }
}

/// Where no move is to be tried, no move is legal.
pub proof fn lemma_ordered_moves_empty(legal: Seq<Move>, best_move: Option<Move>)
    requires
        ordered_moves(legal, best_move).len() == 0,
    ensures
        legal.len() == 0,
        best_move is None,
{
    lemma_skipping(legal, best_move, 0);
    if legal.len() > 0 {
        assert(Some(legal[0]) != best_move);
        assert(skipping(legal, best_move, 0).contains(legal[0]));
    }
}

/// Where the generator stands.
#[derive(Clone, Copy, PartialEq, Eq, Structural, Debug)]
pub enum GeneratorState {
    /// The best move is still to come.
    BestMove,
    /// The best move is out, if there was one; the legal moves follow.
    Rest,
}

/// Hands out the moves of a position with the best-move-first optimization.
pub struct MoveGenerator {
    inner: Vec<Move>,
    next_index: usize,
    best_move: Option<Move>,
    generator_state: GeneratorState,
}

impl MoveGenerator {
    pub closed spec fn wf(&self) -> bool {
        &&& self.next_index <= self.inner@.len()
        &&& self.generator_state == GeneratorState::BestMove ==> self.best_move is Some
            && self.next_index == 0
    }

    /// The moves that are still to come, in order.
    pub closed spec fn remaining(&self) -> Seq<Move> {
        match self.generator_state {
            GeneratorState::BestMove => ordered_moves(self.inner@, self.best_move),
            GeneratorState::Rest => skipping(self.inner@, self.best_move, self.next_index as nat),
        }
    }

    /// A generator for the moves of `position`. It yields `best_move` first,
    /// whether or not the move is legal there.
    pub fn new(position: &Position, best_move: Option<Move>) -> (r: MoveGenerator)
        ensures
            r.wf(),
            r.remaining() == ordered_moves(position.legal_moves_spec(), best_move),
            forall|i: int|
                0 <= i < r.remaining().len() ==> Some(#[trigger] r.remaining()[i]) == best_move
                    || position.is_legal(r.remaining()[i]),
    {
        let inner = position.legal_moves();
        let generator_state = if best_move.is_some() {
            GeneratorState::BestMove
        } else {
            GeneratorState::Rest
        };
        let r = MoveGenerator { inner, next_index: 0, best_move, generator_state };
        proof {
            lemma_skipping(inner@, best_move, 0);
            assert forall|i: int| 0 <= i < r.remaining().len() implies Some(
                #[trigger] r.remaining()[i],
            ) == best_move || position.is_legal(r.remaining()[i]) by {
                let rest = skipping(inner@, best_move, 0);
                let m = r.remaining()[i];
                if Some(m) != best_move {
                    let k = if best_move is Some {
                        i - 1
                    } else {
                        i
                    };
                    assert(rest[k] == m);
                    let j = choose|j: int| 0 <= j < inner@.len() && inner@[j] == rest[k];
                    assert(position.is_legal(inner@[j]));
                }
            }
        }
        r
    }

    /// The next move, or `None` when all moves are out.
    pub fn next(&mut self) -> (r: Option<Move>)
        requires
            old(self).wf(),
        ensures
            final(self).wf(),
            old(self).remaining().len() == 0 ==> r is None && final(self).remaining().len() == 0,
            old(self).remaining().len() > 0 ==> r == Some(old(self).remaining()[0])
                && final(self).remaining() == old(self).remaining().drop_first(),
    {
        match self.generator_state {
            GeneratorState::BestMove => {
                self.generator_state = GeneratorState::Rest;
                assert(self.remaining() =~= old(self).remaining().drop_first());
                self.best_move
            },
            GeneratorState::Rest => {
                // Make sure that we don't yield best_move again
                while self.next_index < self.inner.len()
                    invariant
                        self.wf(),
                        self.generator_state == GeneratorState::Rest,
                        self.remaining() == old(self).remaining(),
                    decreases self.inner@.len() - self.next_index,
                {
                    let m = self.inner[self.next_index];
                    let ghost before = self.remaining();
                    self.next_index += 1;
                    let skip = match self.best_move {
                        Some(best_move) => m == best_move,
                        None => false,
                    };
                    if !skip {
                        assert(self.remaining() =~= before.drop_first());
                        return Some(m);
                    }
                }
                None
            },
        }
    }
}

} // verus!
