//! Iterative deepening with an alpha-beta search in negamax form.
//!
//! The search keeps its results in the transposition table, tries the move
//! that the table names first, and can be told to stop at every node. What
//! it decides at a node is written as small functions of plain values; the
//! recursion strings them together. Whether the search is stopping is asked
//! of the clock and of another thread: `alphabeta_search` asks, and
//! `search_node` says what comes of either answer.

use crate::evaluation::evaluate_piece_values;
use crate::hash::{HashEntry, HashMap};
use crate::moveorder::MoveGenerator;
use crate::moves::Move;
use crate::position::Position;
use crate::score::{
    is_above, is_mate_value, BoardScore, BoundedScore, BEST_VALUE, EVEN_VALUE, MATED_VALUE,
    MATE_VALUE, NO_SCORE_VALUE, WORST_VALUE,
};
use crate::searchinterface::{should_stop, StopConditions};
use crate::text::{append_unsigned, decimal_digits};
use std::time::{Duration, Instant};
use vstd::prelude::*;

verus! {

/// A number of plies.
pub type Depth = u8;

/// The deepest a search can go, and the depth of a result that holds at
/// every depth.
pub const MAX_DEPTH: Depth = 255;

/// The most moves that a principal variation is followed for.
pub const MAX_PV_LENGTH: usize = 255;

/// Size of the transposition table of a searcher that was given none, in
/// megabytes.
pub const DEFAULT_TABLE_MEGABYTES: usize = 128;

#[verifier::external_type_specification]
#[verifier::external_body]
pub struct ExInstant(Instant);

/// The clock is read; nothing is known of the moment it gives.
pub assume_specification[ Instant::now ]() -> Instant;

/// The time that has passed since the instant was taken.
pub assume_specification[ Instant::elapsed ](instant: &Instant) -> Duration;

/// A duration in whole milliseconds.
pub assume_specification[ Duration::as_millis ](duration: &Duration) -> u128;

/// A window that no score of a real position can fall into: nothing beats
/// `BEST_SCORE`, and nothing is as bad as `WORST_SCORE`. The answer is then
/// known without a search.
pub open spec fn overdetermined_spec(alpha: BoardScore, beta: BoardScore) -> Option<BoundedScore> {
    if alpha@ >= BEST_VALUE {
        Some(BoundedScore::UpperBound(BoardScore::from_value(MATE_VALUE as int)))
    } else if beta@ == WORST_VALUE {
        Some(BoundedScore::LowerBound(BoardScore::from_value(MATED_VALUE as int)))
    } else {
        None
    }
}

/// What a table entry of depth `entry_depth` lets a search of depth `depth`
/// return at once. The entry must be deep enough, unless the search is
/// stopping. An exact score is returned as it is; a lower bound if it
/// reaches `beta`, an upper bound if it stays at or below `alpha`, and
/// either of them in any case when the search is stopping.
pub open spec fn usable_score_spec(
    entry_score: BoundedScore,
    entry_depth: Depth,
    depth: Depth,
    is_stopping: bool,
    alpha: BoardScore,
    beta: BoardScore,
) -> Option<BoundedScore> {
    if is_stopping || entry_depth >= depth {
        match entry_score {
            BoundedScore::Exact(s) => Some(entry_score),
            BoundedScore::LowerBound(s) => if is_stopping || s@ >= beta@ {
                Some(entry_score)
            } else {
                None
            },
            BoundedScore::UpperBound(s) => if is_stopping || s@ <= alpha@ {
                Some(entry_score)
            } else {
                None
            },
        }
    } else {
        None
    }
}

/// The window in which a child is searched: the parent's window seen from
/// the other side, with one ply taken off both bounds.
pub open spec fn child_window_spec(alpha: BoardScore, beta: BoardScore) -> (BoardScore, BoardScore) {
    (beta.decremented().negated(), alpha.decremented().negated())
}

/// The score of a move, from the score that the search of the child
/// returned: one ply further from mate, and seen from the other side.
pub open spec fn score_of_child(child: BoundedScore) -> BoundedScore {
    child.incremented().negated()
}

/// A score that a search which was not stopped cannot return for the window:
/// no score at all, a lower bound short of `beta`, or an upper bound above
/// `alpha`.
pub open spec fn is_deficient_spec(score: BoundedScore, alpha: BoardScore, beta: BoardScore) -> bool {
    ||| score.inner()@ == NO_SCORE_VALUE
    ||| (score is LowerBound && score.inner()@ < beta@)
    ||| (score is UpperBound && score.inner()@ > alpha@)
}

/// The search of the moves ends early when the best score so far is no
/// upper bound and reaches `beta`.
pub open spec fn is_cutoff_spec(best_score: BoundedScore, beta: BoardScore) -> bool {
    !(best_score is UpperBound) && best_score.inner()@ >= beta@
}

/// The score of a position without legal moves: mated when in check, even
/// otherwise.
pub open spec fn terminal_score_spec(in_check: bool) -> BoundedScore {
    if in_check {
        BoundedScore::Exact(BoardScore::from_value(MATED_VALUE as int))
    } else {
        BoundedScore::Exact(BoardScore::from_value(EVEN_VALUE as int))
    }
}

/// The depth under which a result is stored. A result that was cut short
/// counts for one ply less; an exact mate score holds at every depth.
pub open spec fn store_depth_spec(depth: Depth, degraded: bool, best_score: BoundedScore) -> int {
    if degraded {
        depth - 1
    } else if best_score is Exact && is_mate_value(best_score.inner()@) {
        MAX_DEPTH as int
    } else {
        depth as int
    }
}

/// Nodes per second, from the number of nodes and the milliseconds they
/// took; 0 where no millisecond has passed.
pub open spec fn nodes_per_second_spec(nodes: u64, millis: u64) -> int {
    if millis == 0 {
        0
    } else if (1000 * nodes) / (millis as int) > u64::MAX {
        u64::MAX as int
    } else {
        (1000 * nodes) / (millis as int)
    }
}

/// How full the table is, in thousandths of its capacity.
pub open spec fn hashfull_spec(filled: usize, capacity: usize) -> int {
    (1000 * filled) / (capacity as int)
}

/// The moves of a principal variation as the protocol writes them, each
/// with a space before it.
pub open spec fn pv_text(moves: Seq<Move>) -> Seq<char>
    decreases moves.len(),
{
    if moves.len() == 0 {
        Seq::empty()
    } else {
        pv_text(moves.drop_last()) + seq![' '] + moves.last().text()
    }
}

/// One line of search information, as the protocol has it.
pub open spec fn info_text(
    depth: Depth,
    score: BoundedScore,
    nodes: u64,
    nps: u64,
    hashfull: u64,
    time: u64,
    pv: Seq<Move>,
) -> Seq<char> {
    "info depth "@ + decimal_digits(depth as nat) + " multipv 1 score "@ + score.format_spec()
        + " nodes "@ + decimal_digits(nodes as nat) + " nps "@ + decimal_digits(nps as nat)
        + " hashfull "@ + decimal_digits(hashfull as nat) + " time "@ + decimal_digits(time as nat)
        + " pv"@ + pv_text(pv)
}

/// The line that ends a search.
pub open spec fn bestmove_text(best_move: Move) -> Seq<char> {
    "bestmove "@ + best_move.text()
}

/// The moves that the table names one after another, starting at
/// `position`: the best move of the entry for the position, then that of
/// the entry for the position after it, and so on, until the table has
/// no entry, the entry has no move or a move that is not legal, or `limit`
/// moves are out.
pub open spec fn principal_variation(table: &HashMap, position: Position, limit: nat) -> Seq<Move>
    decreases limit,
{
    if limit == 0 {
        Seq::empty()
    } else {
        match table.lookup(position.hash_spec()) {
            Some(entry) => match entry.best_move_spec() {
                Some(m) => if position.is_legal(m) {
                    seq![m] + principal_variation(table, position.after(m), (limit - 1) as nat)
                } else {
                    Seq::empty()
                },
                None => Seq::empty(),
            },
            None => Seq::empty(),
        }
    }
}

/// A principal variation is never longer than its limit.
pub proof fn lemma_principal_variation_length(table: &HashMap, position: Position, limit: nat)
    ensures
        principal_variation(table, position, limit).len() <= limit,
    decreases limit,
{
    if limit > 0 {
        match table.lookup(position.hash_spec()) {
            Some(entry) => match entry.best_move_spec() {
                Some(m) => {
                    lemma_principal_variation_length(table, position.after(m), (limit - 1) as nat);
                },
                None => {},
            },
            None => {},
        }
    }
}

/// The answer to a window that needs no search, if the window is one.
pub fn overdetermined(alpha: BoardScore, beta: BoardScore) -> (r: Option<BoundedScore>)
    ensures
        r == overdetermined_spec(alpha, beta),
{
    broadcast use BoardScore::lemma_view, BoardScore::lemma_from_value;

    if alpha >= BoardScore::best_score() {
        // BEST_SCORE can never be achieved on a real board, the best is MATE
        Some(BoundedScore::UpperBound(BoardScore::mate()))
    } else if beta.value() == WORST_VALUE {
        // WORST_SCORE can never be achieved on a real board, the worst is MATED
        Some(BoundedScore::LowerBound(BoardScore::mated()))
    } else {
        None
    }
}

/// The score that a table entry lets the search return at once, if it
/// lets it return one.
pub fn usable_score(
    entry_score: BoundedScore,
    entry_depth: Depth,
    depth: Depth,
    is_stopping: bool,
    alpha: BoardScore,
    beta: BoardScore,
) -> (r: Option<BoundedScore>)
    ensures
        r == usable_score_spec(entry_score, entry_depth, depth, is_stopping, alpha, beta),
{
    if is_stopping || entry_depth >= depth {
        // If the previous score is compatible with our alpha-beta bounds, we
        // can return it. If we are stopping the search here, we return these
        // values even if they aren't useful
        match entry_score {
            BoundedScore::Exact(s) => Some(BoundedScore::Exact(s)),
            BoundedScore::LowerBound(s) => if is_stopping || s >= beta {
                Some(BoundedScore::LowerBound(s))
            } else {
                None
            },
            BoundedScore::UpperBound(s) => if is_stopping || s <= alpha {
                Some(BoundedScore::UpperBound(s))
            } else {
                None
            },
        }
    } else {
        None
    }
}

/// The window in which the children of a node are searched.
pub fn child_window(alpha: BoardScore, beta: BoardScore) -> (r: (BoardScore, BoardScore))
    ensures
        r == child_window_spec(alpha, beta),
        r.0@ == crate::score::neg_value(crate::score::decrement_value(beta@)),
        r.1@ == crate::score::neg_value(crate::score::decrement_value(alpha@)),
        alpha@ != NO_SCORE_VALUE && beta@ != NO_SCORE_VALUE && alpha@ <= beta@ ==> r.0@
            != NO_SCORE_VALUE && r.1@ != NO_SCORE_VALUE && r.0@ <= r.1@,
{
    broadcast use BoardScore::lemma_view, BoardScore::lemma_from_value;

    (beta.decrement_mate_plies().neg(), alpha.decrement_mate_plies().neg())
}

/// The score of a move, from the score that the search of the child
/// returned.
pub fn score_from_child(child: BoundedScore) -> (r: BoundedScore)
    ensures
        r == score_of_child(child),
        child.inner()@ != NO_SCORE_VALUE ==> r.inner()@ != NO_SCORE_VALUE,
{
    broadcast use BoardScore::lemma_view, BoardScore::lemma_from_value;

    child.increment_mate_plies().neg()
}

/// Whether the score of a move shows that its search was cut short.
pub fn is_deficient(score: BoundedScore, alpha: BoardScore, beta: BoardScore) -> (r: bool)
    ensures
        r == is_deficient_spec(score, alpha, beta),
{
    score.unwrap().value() == NO_SCORE_VALUE || (score.is_lowerbound() && score.unwrap() < beta)
        || (score.is_upperbound() && score.unwrap() > alpha)
}

/// Takes the score of one more move into what a node knows.
pub fn consider_move(progress: NodeProgress, beta: BoardScore, m: Move, score: BoundedScore) -> (r:
    NodeProgress)
    ensures
        r == consider_move_spec(progress, beta, m, score),
{
    let mut next = progress;
    // Test that the search of the move has returned a reasonable result.
    // This is not necessarily true if search was aborted partway, which we
    // call a deficient search.
    if is_deficient(score, progress.alpha, beta) {
        next.deficient = true;
    }
    if score > progress.best_score {
        next.best_score = score;
        next.best_move = Some(m);
        if !score.is_upperbound() && score.unwrap() > progress.alpha {
            // Found a move better than alpha, so update alpha.
            next.alpha = score.unwrap();
        }
    }
    next
}

/// Whether the best score so far ends the search of the moves.
pub fn is_cutoff(best_score: BoundedScore, beta: BoardScore) -> (r: bool)
    ensures
        r == is_cutoff_spec(best_score, beta),
{
    !best_score.is_upperbound() && best_score.unwrap() >= beta
}

/// The score of a position without legal moves.
pub fn terminal_score(in_check: bool) -> (r: BoundedScore)
    ensures
        r == terminal_score_spec(in_check),
{
    broadcast use BoardScore::lemma_view, BoardScore::lemma_from_value;

    if in_check {
        BoundedScore::Exact(BoardScore::mated())
    } else {
        BoundedScore::Exact(BoardScore::even())
    }
}

/// The depth under which a result is stored.
pub fn store_depth(depth: Depth, degraded: bool, best_score: BoundedScore) -> (r: Depth)
    requires
        depth > 0,
    ensures
        r == store_depth_spec(depth, degraded, best_score),
{
    if degraded {
        // A search that was cut short only counts as one depth level lower
        depth - 1
    } else if best_score.is_exact() && best_score.unwrap().is_mate_score() {
        // This evaluation is valid for any depth for purposes of hashtable lookup.
        MAX_DEPTH
    } else {
        depth
    }
}

/// Nodes per second, held to 64 bits.
pub fn nodes_per_second(nodes: u64, millis: u64) -> (r: u64)
    ensures
        r == nodes_per_second_spec(nodes, millis),
{
    if millis != 0 {
        let nps: u128 = (1000 * (nodes as u128)) / (millis as u128);
        if nps > u64::MAX as u128 {
            u64::MAX
        } else {
            nps as u64
        }
    } else {
        0
    }
}

/// How full the table is, in thousandths of its capacity.
pub fn hashfull(filled: usize, capacity: usize) -> (r: u64)
    requires
        filled <= capacity,
        capacity > 0,
    ensures
        r == hashfull_spec(filled, capacity),
        r <= 1000,
{
    let r: u128 = (1000 * (filled as u128)) / (capacity as u128);
    assert(r <= 1000) by (nonlinear_arith)
        requires
            r == (1000 * (filled as int)) / (capacity as int),
            0 <= filled <= capacity,
            capacity > 0,
    ;
    r as u64
}

/// The moves of a principal variation as the protocol writes them.
pub fn format_pv(pv: &Vec<Move>) -> (r: String)
    ensures
        r@ == pv_text(pv@),
{
    let mut result = String::new();
    let mut i: usize = 0;
    assert(pv@.subrange(0, 0) =~= Seq::empty());
    while i < pv.len()
        invariant
            i <= pv@.len(),
            result@ == pv_text(pv@.subrange(0, i as int)),
        decreases pv@.len() - i,
    {
        proof {
            reveal_strlit(" ");
        }
        let ghost before = result@;
        let text = pv[i].format_uci();
        result.append(" ");
        result.append(text.as_str());
        proof {
            let upto = pv@.subrange(0, i + 1);
            assert(upto.drop_last() =~= pv@.subrange(0, i as int));
            assert(upto.last() == pv@[i as int]);
            assert(result@ =~= before + seq![' '] + pv@[i as int].text());
        }
        i += 1;
    }
    assert(pv@.subrange(0, pv@.len() as int) =~= pv@);
    result
}

/// One line of search information.
pub fn format_info(
    depth: Depth,
    score: BoundedScore,
    nodes: u64,
    nps: u64,
    hashfull: u64,
    time: u64,
    pv: &Vec<Move>,
) -> (r: String)
    ensures
        r@ == info_text(depth, score, nodes, nps, hashfull, time, pv@),
{
    let mut line = String::new();
    line.append("info depth ");
    append_unsigned(&mut line, depth as u64);
    line.append(" multipv 1 score ");
    line.append(score.format_uci().as_str());
    line.append(" nodes ");
    append_unsigned(&mut line, nodes);
    line.append(" nps ");
    append_unsigned(&mut line, nps);
    line.append(" hashfull ");
    append_unsigned(&mut line, hashfull);
    line.append(" time ");
    append_unsigned(&mut line, time);
    line.append(" pv");
    line.append(format_pv(pv).as_str());
    assert(line@ =~= info_text(depth, score, nodes, nps, hashfull, time, pv@));
    line
}

/// The line that ends a search.
pub fn format_bestmove(best_move: Move) -> (r: String)
    ensures
        r@ == bestmove_text(best_move),
{
    let mut line = String::new();
    line.append("bestmove ");
    line.append(best_move.format_uci().as_str());
    assert(line@ =~= bestmove_text(best_move));
    line
}

/// What is known after one round of deepening.
pub struct SearchInfo {
    /// The depth that was searched.
    pub depth: Depth,
    /// The score of the position that was searched.
    pub score: BoundedScore,
    /// Number of nodes visited since the search began.
    pub nodes: u64,
    /// Nodes per second since the search began.
    pub nps: u64,
    /// How full the table is, in thousandths.
    pub hashfull: u64,
    /// Milliseconds since the search began.
    pub time: u64,
    /// The principal variation.
    pub pv: Vec<Move>,
}

impl SearchInfo {
    /// The line of the protocol that tells all this.
    pub fn format_uci(&self) -> (r: String)
        ensures
            r@ == info_text(
                self.depth,
                self.score,
                self.nodes,
                self.nps,
                self.hashfull,
                self.time,
                self.pv@,
            ),
    {
        format_info(self.depth, self.score, self.nodes, self.nps, self.hashfull, self.time, &self.pv)
    }
}

/// What a search gives back: what it knew after each depth that it
/// completed, and the move it settled on.
pub struct SearchReport {
    pub infos: Vec<SearchInfo>,
    pub best_move: Option<Move>,
}

impl SearchReport {
    /// The last line of a search: `bestmove` and the move, where the search
    /// has settled on one.
    pub fn bestmove_line(&self) -> (r: Option<String>)
        ensures
            match self.best_move {
                Some(m) => r matches Some(line) && line@ == bestmove_text(m),
                None => r is None,
            },
    {
        match self.best_move {
            Some(m) => Some(format_bestmove(m)),
            None => None,
        }
    }
}

/// The move that the table names for a position.
pub open spec fn table_move(table: &HashMap, position: Position) -> Option<Move> {
    match table.lookup(position.hash_spec()) {
        Some(entry) => entry.best_move_spec(),
        None => None,
    }
}

/// What a search answers when it is stopped and has nothing to go by: a
/// lower bound that says nothing.
pub open spec fn noncommittal() -> BoundedScore {
    BoundedScore::LowerBound(BoardScore::from_value(WORST_VALUE as int))
}

/// What the search of a node knows after some of its moves: the lower end
/// of the window, the best score so far with its move, and whether the
/// search of some move was cut short.
#[derive(Clone, Copy, Debug)]
pub struct NodeProgress {
    pub alpha: BoardScore,
    pub best_score: BoundedScore,
    pub best_move: Option<Move>,
    pub deficient: bool,
}

/// What a node knows before its first move: no score and no move.
pub open spec fn progress_at_start(alpha: BoardScore) -> NodeProgress {
    NodeProgress {
        alpha,
        best_score: BoundedScore::UpperBound(BoardScore::from_value(NO_SCORE_VALUE as int)),
        best_move: None,
        deficient: false,
    }
}

/// What a node knows after one more move with its score. The move is the
/// best so far if its score is above the best score so far; then it raises
/// the lower end of the window too, if its score is no upper bound and lies
/// above that end. A score that an unstopped search cannot return for the
/// window marks the search of the node as cut short.
pub open spec fn consider_move_spec(
    progress: NodeProgress,
    beta: BoardScore,
    m: Move,
    score: BoundedScore,
) -> NodeProgress {
    let better = is_above(score, progress.best_score);
    NodeProgress {
        alpha: if better && !(score is UpperBound) && score.inner()@ > progress.alpha@ {
            score.inner()
        } else {
            progress.alpha
        },
        best_score: if better {
            score
        } else {
            progress.best_score
        },
        best_move: if better {
            Some(m)
        } else {
            progress.best_move
        },
        deficient: progress.deficient || is_deficient_spec(score, progress.alpha, beta),
    }
}

/// What a node knows after the moves in `tried`, each with the score that
/// its search came to, in the order in which they were tried.
pub open spec fn progress_after(alpha: BoardScore, beta: BoardScore, tried: Seq<(Move, BoundedScore)>)
    -> NodeProgress
    decreases tried.len(),
{
    if tried.len() == 0 {
        progress_at_start(alpha)
    } else {
        consider_move_spec(
            progress_after(alpha, beta, tried.drop_last()),
            beta,
            tried.last().0,
            tried.last().1,
        )
    }
}

/// The score of a node from what it knows after its moves: that of a mate
/// or a stalemate where there was no move; a lower bound where the best
/// score reaches `beta`; else the best score.
pub open spec fn result_of(progress: NodeProgress, beta: BoardScore, in_check: bool) -> BoundedScore {
    if progress.best_move is None {
        terminal_score_spec(in_check)
    } else if is_cutoff_spec(progress.best_score, beta) {
        BoundedScore::LowerBound(progress.best_score.inner())
    } else {
        progress.best_score
    }
}

/// The move of the table that the search of a position tries first: the
/// best move of the entry for the position, where it is legal there.
pub open spec fn table_hint(table: &HashMap, position: Position) -> Option<Move> {
    match table_move(table, position) {
        Some(m) => if position.is_legal(m) {
            Some(m)
        } else {
            None
        },
        None => None,
    }
}

/// The moves in `tried` are moves of the position in the order in which
/// its search tries them, each with a score, from the first move on and
/// without a gap. The search has gone on after each of them but perhaps the
/// last: none before the last brought a score that reaches `beta`. And it
/// has not ended before its time: either the last move reaches `beta`, or
/// there is no move left.
pub open spec fn tried_in_order(
    ordered: Seq<Move>,
    alpha: BoardScore,
    beta: BoardScore,
    tried: Seq<(Move, BoundedScore)>,
) -> bool {
    &&& tried.len() <= ordered.len()
    &&& forall|i: int| 0 <= i < tried.len() ==> (#[trigger] tried[i]).0 == ordered[i]
    &&& forall|i: int| 0 <= i < tried.len() ==> (#[trigger] tried[i]).1.inner()@ != NO_SCORE_VALUE
    &&& forall|k: int|
        0 < k < tried.len() ==> !is_cutoff_spec(
            #[trigger] progress_after(alpha, beta, tried.subrange(0, k)).best_score,
            beta,
        )
    &&& tried.len() == ordered.len() || is_cutoff_spec(
        progress_after(alpha, beta, tried).best_score,
        beta,
    )
}

/// The depth that a search of the position's moves to `depth` works with:
/// a position without legal moves is settled at every depth.
pub open spec fn settled_depth(position: Position, depth: Depth) -> Depth {
    if position.legal_moves_spec().len() == 0 {
        MAX_DEPTH
    } else {
        depth
    }
}

/// A count of nodes with one more node in it; the count stays where it is
/// once it has come to its largest value.
pub open spec fn counted(nodes: u64) -> u64 {
    if nodes < u64::MAX {
        (nodes + 1) as u64
    } else {
        nodes
    }
}

/// What `alphabeta_search` comes to on a position, from the table and the
/// count of nodes that it begins with to those that it ends with. The node
/// is counted. A window that no score can fall into is answered at once, and
/// the table stays as it is; every other window is left to the search of
/// the node, which goes one way if the search is stopping and another if it
/// is not.
pub open spec fn subtree_outcome(
    before: &HashMap,
    after: &HashMap,
    nodes_before: u64,
    nodes_after: u64,
    position: Position,
    depth: Depth,
    alpha: BoardScore,
    beta: BoardScore,
    score: BoundedScore,
) -> bool
    decreases depth, 4nat, 0nat,
{
    match overdetermined_spec(alpha, beta) {
        Some(answer) => score == answer && after == before && nodes_after == counted(nodes_before),
        None => node_result(
            before,
            after,
            counted(nodes_before),
            nodes_after,
            position,
            depth,
            alpha,
            beta,
            true,
            score,
        ) || node_result(
            before,
            after,
            counted(nodes_before),
            nodes_after,
            position,
            depth,
            alpha,
            beta,
            false,
            score,
        ),
    }
}

/// What the search of a node comes to, once it is known whether the search
/// is stopping. Where the table has an answer, the answer is returned.
/// Failing that, a search that is stopping gives the noncommittal answer;
/// a search at depth 0 evaluates the position, which counts as one more
/// node; and every other search goes through the moves and stores what it
/// finds. In the first three cases the table is left as it was.
pub open spec fn node_result(
    before: &HashMap,
    after: &HashMap,
    nodes_before: u64,
    nodes_after: u64,
    position: Position,
    depth: Depth,
    alpha: BoardScore,
    beta: BoardScore,
    is_stopping: bool,
    score: BoundedScore,
) -> bool
    decreases depth, 3nat, 0nat,
{
    if let Some(answer) = table_answer(before, position, depth, is_stopping, alpha, beta) {
        score == answer && after == before && nodes_after == nodes_before
    } else if is_stopping {
        score == noncommittal() && after == before && nodes_after == nodes_before
    } else if depth == 0 {
        score == BoundedScore::Exact(BoardScore::from_value(leaf_value(position))) && after
            == before && nodes_after == counted(nodes_before)
    } else {
        stored_as_result(
            before,
            after,
            nodes_before,
            nodes_after,
            position,
            depth,
            alpha,
            beta,
            score,
        )
    }
}

/// The table holds the score as the result of a search of the position's
/// moves to `depth`: there are moves with scores that account for it.
pub open spec fn stored_as_result(
    before: &HashMap,
    after: &HashMap,
    nodes_before: u64,
    nodes_after: u64,
    position: Position,
    depth: Depth,
    alpha: BoardScore,
    beta: BoardScore,
    score: BoundedScore,
) -> bool
    decreases depth, 2nat, 0nat,
{
    exists|tried: Seq<(Move, BoundedScore)>|
        {
            &&& #[trigger] tried_in_order(
                crate::moveorder::ordered_moves(
                    position.legal_moves_spec(),
                    table_hint(before, position),
                ),
                alpha,
                beta,
                tried,
            )
            &&& searched_with(
                before,
                after,
                nodes_before,
                nodes_after,
                position,
                depth,
                alpha,
                beta,
                tried,
                score,
            )
        }
}

/// The moves in `tried`, with their scores, account for the score of the
/// node and for what the table holds afterwards.
///
/// They are the moves of the position in the order in which the search
/// tries them, the legal move of the table first, and each has the score
/// that the search of the position after it came to. The score of the node
/// is what the node knows after them. The searches of the moves have led
/// from the table at the beginning to a last table, and have counted the
/// nodes; into the last table the score was stored for the position, in a
/// full entry with the best of the moves, under the depth that
/// `store_depth_spec` gives: that of a result cut short if the search of a
/// move was cut short, and perhaps if not.
pub open spec fn searched_with(
    before: &HashMap,
    after: &HashMap,
    nodes_before: u64,
    nodes_after: u64,
    position: Position,
    depth: Depth,
    alpha: BoardScore,
    beta: BoardScore,
    tried: Seq<(Move, BoundedScore)>,
    score: BoundedScore,
) -> bool
    decreases depth, 1nat, 0nat,
{
    let ordered = crate::moveorder::ordered_moves(
        position.legal_moves_spec(),
        table_hint(before, position),
    );
    let progress = progress_after(alpha, beta, tried);
    &&& tried_in_order(ordered, alpha, beta, tried)
    &&& score == result_of(progress, beta, position.in_check_spec())
    &&& position.legal_moves_spec().len() == 0 ==> score == terminal_score_spec(
        position.in_check_spec(),
    )
    &&& exists|last: HashMap, entry: HashEntry|
        {
            &&& children_searched(
                before,
                &last,
                nodes_before,
                nodes_after,
                position,
                depth,
                alpha,
                beta,
                tried,
            )
            &&& #[trigger] last.inserted(after, position.hash_spec(), entry)
            &&& entry.wf()
            &&& entry.kind_spec() == crate::hash::HashEntryKind::Full
            &&& entry.score_spec() == score
            &&& entry.best_move_spec() == progress.best_move
            &&& (entry.depth_spec() == store_depth_spec(
                settled_depth(position, depth),
                progress.deficient,
                score,
            ) || entry.depth_spec() == store_depth_spec(
                settled_depth(position, depth),
                true,
                score,
            ))
        }
    &&& after.lookup(position.hash_spec()) matches Some(stored) && {
        &&& stored.score_spec() == score
        &&& stored.best_move_spec() == progress.best_move
        &&& stored.kind_spec() == crate::hash::HashEntryKind::Full
        &&& stored.generation_spec() == after.generation_spec()
        &&& (stored.depth_spec() == store_depth_spec(
            settled_depth(position, depth),
            progress.deficient,
            score,
        ) || stored.depth_spec() == store_depth_spec(settled_depth(position, depth), true, score))
        &&& match stored.best_move_spec() {
            Some(m) => position.is_legal(m),
            None => position.legal_moves_spec().len() == 0,
        }
    }
}

/// The table and the count of nodes that the search of a node has come to
/// between two of its moves, with the score that the search of the move
/// before came to: a name for the three, for statements that say that
/// there are such.
pub open spec fn between_moves(table: &HashMap, nodes: u64, child: BoundedScore) -> bool {
    true
}

/// The moves in `tried` have been searched one after another, from the
/// table `before` to the table `last`, and the nodes have been counted from
/// `nodes_before` to `nodes_last`. The score of each move is the score that
/// `alphabeta_search` came to on the position after the move, one ply
/// further from mate and seen from the other side. That search went one
/// ply less deep, in the window that the node had for its children after
/// the moves before, and began with the table and the count that the
/// search of the move before had left.
pub open spec fn children_searched(
    before: &HashMap,
    last: &HashMap,
    nodes_before: u64,
    nodes_last: u64,
    position: Position,
    depth: Depth,
    alpha: BoardScore,
    beta: BoardScore,
    tried: Seq<(Move, BoundedScore)>,
) -> bool
    decreases depth, 0nat, tried.len(),
{
    if tried.len() == 0 {
        last == before && nodes_last == nodes_before
    } else if depth == 0 {
        false
    } else {
        let earlier = tried.drop_last();
        let window = child_window_spec(progress_after(alpha, beta, earlier).alpha, beta);
        exists|mid: HashMap, nodes_mid: u64, child: BoundedScore|
            {
                &&& #[trigger] between_moves(&mid, nodes_mid, child)
                &&& children_searched(
                    before,
                    &mid,
                    nodes_before,
                    nodes_mid,
                    position,
                    depth,
                    alpha,
                    beta,
                    earlier,
                )
                &&& subtree_outcome(
                    &mid,
                    last,
                    nodes_mid,
                    nodes_last,
                    position.after(tried.last().0),
                    (depth - 1) as Depth,
                    window.0,
                    window.1,
                    child,
                )
                &&& tried.last().1 == score_of_child(child)
            }
    }
}

/// The score that the table lets a search of this depth and window return
/// at once for the position, if it lets it return one.
pub open spec fn table_answer(
    table: &HashMap,
    position: Position,
    depth: Depth,
    is_stopping: bool,
    alpha: BoardScore,
    beta: BoardScore,
) -> Option<BoundedScore> {
    match table.lookup(position.hash_spec()) {
        Some(entry) => usable_score_spec(
            entry.score_spec(),
            entry.depth_spec(),
            depth,
            is_stopping,
            alpha,
            beta,
        ),
        None => None,
    }
}

/// What a node knows while no score of a move has shown a search cut
/// short. A best score that is a lower bound reaches `beta`. As long as the
/// best score is an upper bound, the lower end of the window has not moved
/// and the bound does not lie above it.
pub proof fn lemma_progress_within_bounds(
    alpha: BoardScore,
    beta: BoardScore,
    tried: Seq<(Move, BoundedScore)>,
)
    requires
        !progress_after(alpha, beta, tried).deficient,
    ensures
        progress_after(alpha, beta, tried).best_score is LowerBound ==> progress_after(
            alpha,
            beta,
            tried,
        ).best_score.inner()@ >= beta@,
        progress_after(alpha, beta, tried).best_score is UpperBound ==> progress_after(
            alpha,
            beta,
            tried,
        ).alpha == alpha && progress_after(alpha, beta, tried).best_score.inner()@ <= alpha@,
    decreases tried.len(),
{
    broadcast use BoardScore::lemma_view, BoardScore::lemma_from_value;

    if tried.len() > 0 {
        lemma_progress_within_bounds(alpha, beta, tried.drop_last());
    }
}

/// Fail-soft: where no score of a move has shown a search cut short, the
/// score of the node is exact, or a lower bound of at least `beta`, or an
/// upper bound of at most `alpha`. A bound is returned only outside the
/// window, and is not clamped to it.
pub proof fn lemma_bounds_outside_window(
    alpha: BoardScore,
    beta: BoardScore,
    tried: Seq<(Move, BoundedScore)>,
    in_check: bool,
)
    requires
        !progress_after(alpha, beta, tried).deficient,
    ensures
        result_of(progress_after(alpha, beta, tried), beta, in_check) is LowerBound ==> result_of(
            progress_after(alpha, beta, tried),
            beta,
            in_check,
        ).inner()@ >= beta@,
        result_of(progress_after(alpha, beta, tried), beta, in_check) is UpperBound ==> result_of(
            progress_after(alpha, beta, tried),
            beta,
            in_check,
        ).inner()@ <= alpha@,
{
    broadcast use BoardScore::lemma_view, BoardScore::lemma_from_value;

    lemma_progress_within_bounds(alpha, beta, tried);
}

/// The scores of the moves are scores of positions: none lies below
/// `MATED` or above `MATE`.
pub open spec fn scores_are_real(tried: Seq<(Move, BoundedScore)>) -> bool {
    forall|i: int|
        0 <= i < tried.len() ==> MATED_VALUE <= (#[trigger] tried[i]).1.inner()@ <= MATE_VALUE
}

/// On the whole range of scores, a node that has tried a move without
/// finding a search cut short, and has met none but scores of positions,
/// knows an exact score between `MATED` and `MATE` as its best. No move
/// has a score with a higher value, and the best move is a move that has
/// the best score.
pub proof fn lemma_full_window_progress(tried: Seq<(Move, BoundedScore)>)
    requires
        tried.len() > 0,
        scores_are_real(tried),
        !progress_after(
            BoardScore::from_value(WORST_VALUE as int),
            BoardScore::from_value(BEST_VALUE as int),
            tried,
        ).deficient,
    ensures
        ({
            let progress = progress_after(
                BoardScore::from_value(WORST_VALUE as int),
                BoardScore::from_value(BEST_VALUE as int),
                tried,
            );
            &&& progress.best_score is Exact
            &&& MATED_VALUE <= progress.best_score.inner()@ <= MATE_VALUE
            &&& progress.best_move is Some
            &&& progress.alpha == progress.best_score.inner()
            &&& forall|i: int|
                0 <= i < tried.len() ==> (#[trigger] tried[i]).1.inner()@
                    <= progress.best_score.inner()@
            &&& exists|j: int|
                0 <= j < tried.len() && (#[trigger] tried[j]).0 == progress.best_move.unwrap()
                    && tried[j].1 == progress.best_score
        }),
    decreases tried.len(),
{
    broadcast use BoardScore::lemma_view, BoardScore::lemma_from_value;

    let alpha = BoardScore::from_value(WORST_VALUE as int);
    let beta = BoardScore::from_value(BEST_VALUE as int);
    let earlier = tried.drop_last();
    let last = tried.len() - 1;
    let progress = progress_after(alpha, beta, tried);
    assert(tried.last() == tried[last]);
    if earlier.len() > 0 {
        assert forall|i: int| 0 <= i < earlier.len() implies MATED_VALUE <= (
        #[trigger] earlier[i]).1.inner()@ <= MATE_VALUE by {
            assert(earlier[i] == tried[i]);
        }
        lemma_full_window_progress(earlier);
        let before = progress_after(alpha, beta, earlier);
        assert forall|i: int| 0 <= i < tried.len() implies (#[trigger] tried[i]).1.inner()@
            <= progress.best_score.inner()@ by {
            if i < last {
                assert(earlier[i] == tried[i]);
            }
        }
        if progress.best_score == before.best_score && progress.best_move == before.best_move {
            let j = choose|j: int|
                0 <= j < earlier.len() && (#[trigger] earlier[j]).0 == before.best_move.unwrap()
                    && earlier[j].1 == before.best_score;
            assert(tried[j] == earlier[j]);
        } else {
            assert(tried[last].0 == progress.best_move.unwrap());
        }
    } else {
        assert(tried[last].0 == progress.best_move.unwrap());
    }
}

/// On the whole range of scores, the score of a node is exact and lies
/// between `MATED` and `MATE`, where no score of a move has shown a search
/// cut short and the scores of the moves are scores of positions. It is
/// then the highest of the scores of the moves.
pub proof fn lemma_full_window_is_exact(tried: Seq<(Move, BoundedScore)>, in_check: bool)
    requires
        scores_are_real(tried),
        !progress_after(
            BoardScore::from_value(WORST_VALUE as int),
            BoardScore::from_value(BEST_VALUE as int),
            tried,
        ).deficient,
    ensures
        ({
            let progress = progress_after(
                BoardScore::from_value(WORST_VALUE as int),
                BoardScore::from_value(BEST_VALUE as int),
                tried,
            );
            let score = result_of(progress, BoardScore::from_value(BEST_VALUE as int), in_check);
            &&& score is Exact
            &&& MATED_VALUE <= score.inner()@ <= MATE_VALUE
            &&& tried.len() > 0 ==> score == progress.best_score
            &&& forall|i: int|
                0 <= i < tried.len() ==> (#[trigger] tried[i]).1.inner()@ <= score.inner()@
        }),
{
    broadcast use BoardScore::lemma_view, BoardScore::lemma_from_value;

    if tried.len() > 0 {
        lemma_full_window_progress(tried);
    }
}

/// A move that mates is found: on the whole range of scores, where the
/// search of some move came back with the score of a position that is
/// mated, the score of the node is that of a mate in one, provided that no
/// score of a move has shown a search cut short and that the scores of the
/// moves are scores of positions one ply away.
pub proof fn lemma_mate_in_one_is_found(tried: Seq<(Move, BoundedScore)>, in_check: bool, mating: int)
    requires
        scores_are_real(tried),
        forall|i: int| 0 <= i < tried.len() ==> (#[trigger] tried[i]).1.inner()@ < MATE_VALUE,
        0 <= mating < tried.len(),
        tried[mating].1 == score_of_child(
            BoundedScore::Exact(BoardScore::from_value(MATED_VALUE as int)),
        ),
        !progress_after(
            BoardScore::from_value(WORST_VALUE as int),
            BoardScore::from_value(BEST_VALUE as int),
            tried,
        ).deficient,
    ensures
        result_of(
            progress_after(
                BoardScore::from_value(WORST_VALUE as int),
                BoardScore::from_value(BEST_VALUE as int),
                tried,
            ),
            BoardScore::from_value(BEST_VALUE as int),
            in_check,
        ) == BoundedScore::Exact(BoardScore::from_value(MATE_VALUE - 1)),
{
    broadcast use BoardScore::lemma_view, BoardScore::lemma_from_value;

    lemma_full_window_is_exact(tried, in_check);
    lemma_full_window_progress(tried);
    let progress = progress_after(
        BoardScore::from_value(WORST_VALUE as int),
        BoardScore::from_value(BEST_VALUE as int),
        tried,
    );
    let j = choose|j: int|
        0 <= j < tried.len() && (#[trigger] tried[j]).0 == progress.best_move.unwrap()
            && tried[j].1 == progress.best_score;
    assert(tried[mating].1.inner()@ == MATE_VALUE - 1);
    assert(tried[j].1.inner()@ < MATE_VALUE);
}

/// A position without legal moves, of which the table knows nothing, comes
/// out as mated or as even at every depth, unless the search is stopping.
pub proof fn lemma_node_without_moves(
    before: &HashMap,
    after: &HashMap,
    nodes_before: u64,
    nodes_after: u64,
    position: Position,
    depth: Depth,
    alpha: BoardScore,
    beta: BoardScore,
    score: BoundedScore,
)
    requires
        node_result(
            before,
            after,
            nodes_before,
            nodes_after,
            position,
            depth,
            alpha,
            beta,
            false,
            score,
        ),
        position.legal_moves_spec().len() == 0,
        before.lookup(position.hash_spec()) is None,
    ensures
        score == terminal_score_spec(position.in_check_spec()),
        position.in_check_spec() ==> score == BoundedScore::Exact(
            BoardScore::from_value(MATED_VALUE as int),
        ),
        !position.in_check_spec() ==> score == BoundedScore::Exact(
            BoardScore::from_value(EVEN_VALUE as int),
        ),
{
}

/// A search that is stopping when it comes to a node returns what the
/// table holds for the position, whatever the depth of the entry, or the
/// noncommittal answer where the table holds nothing. It leaves the table
/// alone and counts nothing.
pub proof fn lemma_node_when_stopping(
    before: &HashMap,
    after: &HashMap,
    nodes_before: u64,
    nodes_after: u64,
    position: Position,
    depth: Depth,
    alpha: BoardScore,
    beta: BoardScore,
    score: BoundedScore,
)
    requires
        node_result(
            before,
            after,
            nodes_before,
            nodes_after,
            position,
            depth,
            alpha,
            beta,
            true,
            score,
        ),
    ensures
        after == before,
        nodes_after == nodes_before,
        match before.lookup(position.hash_spec()) {
            Some(entry) => score == entry.score_spec(),
            None => score == noncommittal(),
        },
{
    match before.lookup(position.hash_spec()) {
        Some(entry) => {
            let stored = entry.score_spec();
            assert(usable_score_spec(stored, entry.depth_spec(), depth, true, alpha, beta)
                == Some(stored));
        },
        None => {},
    }
}

/// Every entry of the table has a score.
pub open spec fn all_scored(table: &HashMap) -> bool {
    forall|i: int|
        0 <= i < table.slots().len() && (#[trigger] table.slots()[i]).is_used_spec()
            ==> table.slots()[i].raw_score_spec()@ != NO_SCORE_VALUE
}

/// Storing an entry that has a score in a table whose entries all have one
/// gives such a table.
pub proof fn lemma_insert_scored(before: &HashMap, after: &HashMap, hash: u64, entry: HashEntry)
    requires
        before.wf(),
        all_scored(before),
        entry.wf(),
        entry.is_used_spec(),
        entry.raw_score_spec()@ != NO_SCORE_VALUE,
        before.inserted(after, hash, entry),
    ensures
        all_scored(after),
{
    broadcast use HashEntry::lemma_fields, HashEntry::lemma_from_fields;

    before.lemma_target(hash);
    assert forall|i: int|
        0 <= i < after.slots().len() && (#[trigger] after.slots()[i]).is_used_spec() implies after.slots()[i].raw_score_spec()@
        != NO_SCORE_VALUE by {
        if i != before.target_of(hash) {
            assert(before.slots()[i].is_used_spec());
        }
    }
}

/// What a round of deepening reports: the depth and the score of the
/// search, which is what the search of the position as a node comes to
/// when it is not stopping and has the whole range of scores for its
/// window; the nodes counted so far and their rate; how full the table is;
/// and the principal variation that the table holds afterwards.
pub open spec fn round_report(
    before: &HashMap,
    after: &HashMap,
    nodes_before: u64,
    nodes_after: u64,
    depth: Depth,
    position: Position,
    info: SearchInfo,
) -> bool {
    &&& info.depth == depth
    &&& info.score.inner()@ != NO_SCORE_VALUE
    &&& info.nodes == nodes_after
    &&& info.nodes >= nodes_before
    &&& nodes_before < u64::MAX ==> info.nodes > nodes_before
    &&& info.nps == nodes_per_second_spec(info.nodes, info.time)
    &&& info.hashfull == hashfull_spec(after.count_spec(), after.capacity_spec() as usize)
    &&& info.hashfull <= 1000
    &&& info.pv@ == principal_variation(after, position, MAX_PV_LENGTH as nat)
    &&& info.pv@.len() <= MAX_PV_LENGTH
    &&& node_result(
        before,
        after,
        counted(nodes_before),
        nodes_after,
        position,
        depth,
        BoardScore::from_value(WORST_VALUE as int),
        BoardScore::from_value(BEST_VALUE as int),
        false,
        info.score,
    )
}

/// The info is the report of a round of deepening to `depth` that began
/// with some table and some count of nodes.
pub open spec fn is_round_report(depth: Depth, position: Position, info: SearchInfo) -> bool {
    exists|before: HashMap, after: HashMap, nodes_before: u64, nodes_after: u64|
        #[trigger] round_report(
            &before,
            &after,
            nodes_before,
            nodes_after,
            depth,
            position,
            info,
        )
}

/// The state of a search: the transposition table, the node counter, the
/// clock, and the block through which the search is told to stop.
pub struct Searcher<'a> {
    hashmap: HashMap,
    stop_conditions: &'a StopConditions,
    nodes: u64,
    starttime: Instant,
}

impl<'a> Searcher<'a> {
    /// The transposition table.
    pub closed spec fn table(&self) -> &HashMap {
        &self.hashmap
    }

    /// Number of nodes visited since the search began.
    pub closed spec fn nodes_spec(&self) -> u64 {
        self.nodes
    }

    /// The table is well formed and every entry in it has a score.
    pub open spec fn wf(&self) -> bool {
        self.table().wf() && all_scored(self.table())
    }

    /// The table is the same table, in the same generation; its entries
    /// may have changed.
    pub open spec fn same_table(&self, before: &Searcher<'a>) -> bool {
        &&& self.table().capacity_spec() == before.table().capacity_spec()
        &&& self.table().generation_spec() == before.table().generation_spec()
    }

    /// A searcher with a table of 128 megabytes.
    pub fn new(stop_conditions: &'a StopConditions) -> (r: Searcher<'a>)
        ensures
            r.wf(),
            r.nodes_spec() == 0,
            r.table().capacity_spec() == DEFAULT_TABLE_MEGABYTES * crate::hash::ENTRIES_PER_MEGABYTE,
            r.table().generation_spec() == 0,
            r.table().count_spec() == 0,
            forall|hash: u64| r.table().lookup(hash) is None,
    {
        Searcher::with_table_size(stop_conditions, DEFAULT_TABLE_MEGABYTES)
    }

    /// A searcher with a table of the given size.
    pub fn with_table_size(stop_conditions: &'a StopConditions, megabytes: usize) -> (r: Searcher<
        'a,
    >)
        requires
            megabytes > 0,
            megabytes * 1024 * 1024 <= usize::MAX,
        ensures
            r.wf(),
            r.nodes_spec() == 0,
            r.table().capacity_spec() == megabytes * crate::hash::ENTRIES_PER_MEGABYTE,
            r.table().generation_spec() == 0,
            r.table().count_spec() == 0,
            forall|hash: u64| r.table().lookup(hash) is None,
    {
        let hashmap = HashMap::new(megabytes);
        proof {
            assert forall|hash: u64| hashmap.lookup(hash) is None by {
                hashmap.lemma_lookup(hash);
            }
        }
        Searcher { hashmap, stop_conditions, nodes: 0, starttime: Instant::now() }
    }

    /// A searcher that goes on with a table that has been filled before.
    pub fn with_table(stop_conditions: &'a StopConditions, hashmap: HashMap) -> (r: Searcher<'a>)
        requires
            hashmap.wf(),
            all_scored(&hashmap),
        ensures
            r.wf(),
            r.nodes_spec() == 0,
            *r.table() == hashmap,
    {
        Searcher { hashmap, stop_conditions, nodes: 0, starttime: Instant::now() }
    }

    /// The transposition table.
    pub fn hashmap(&self) -> (r: &HashMap)
        ensures
            r == self.table(),
    {
        &self.hashmap
    }

    /// Number of nodes visited since the search began.
    pub fn nodes(&self) -> (r: u64)
        ensures
            r == self.nodes_spec(),
    {
        self.nodes
    }

    /// Counts one more node. The counter stays at its largest value once it
    /// has got there.
    fn count_node(&mut self)
        ensures
            final(self).table() == old(self).table(),
            final(self).nodes_spec() == counted(old(self).nodes_spec()),
    {
        if self.nodes < u64::MAX {
            self.nodes += 1;
        }
    }

    /// Asks the shared block and the clock whether the search has to stop.
    pub fn should_stop_search(&self) -> (r: bool) {
        let stop_now = self.stop_conditions.stop_requested();
        let movetime = self.stop_conditions.limits().movetime;
        let elapsed = self.starttime.elapsed().as_millis();
        should_stop(stop_now, movetime, elapsed)
    }

    /// The evaluation of a position where the search does not go deeper.
    fn static_evaluation(&self, position: &Position) -> (r: BoardScore)
        ensures
            r@ == crate::evaluation::centipawn_value(crate::evaluation::material_balance(*position)),
            crate::score::is_centipawn_value(r@),
    {
        evaluate_piece_values(position)
    }

    /// The score of a position at depth 0: the static evaluation where there
    /// is a legal move, else mated or even.
    pub fn leaf_evaluation(&mut self, position: &Position, alpha: BoardScore, beta: BoardScore) -> (r:
        BoardScore)
        requires
            alpha@ != NO_SCORE_VALUE,
            beta@ != NO_SCORE_VALUE,
            alpha@ <= beta@,
        ensures
            final(self).table() == old(self).table(),
            final(self).nodes_spec() == counted(old(self).nodes_spec()),
            r@ == leaf_value(*position),
            r@ != NO_SCORE_VALUE,
    {
        broadcast use BoardScore::lemma_view, BoardScore::lemma_from_value;

        self.count_node();

        let legal_moves = position.legal_moves();
        if legal_moves.len() > 0 {
            self.static_evaluation(position)
        } else {
            // This means checkmate or stalemate
            terminal_score(position.is_in_check()).unwrap()
        }
    }

    /// The moves that the table names one after another, starting at
    /// `position`, 255 of them at most.
    pub fn trace_pv(&self, position: &Position) -> (r: Vec<Move>)
        requires
            self.wf(),
        ensures
            r@ == principal_variation(self.table(), *position, MAX_PV_LENGTH as nat),
            r@.len() <= MAX_PV_LENGTH,
    {
        let mut result: Vec<Move> = Vec::new();
        let mut position = *position;
        let ghost start = position;
        proof {
            lemma_principal_variation_length(self.table(), start, MAX_PV_LENGTH as nat);
        }
        while result.len() < MAX_PV_LENGTH
            invariant
                self.wf(),
                result@.len() <= MAX_PV_LENGTH,
                principal_variation(self.table(), start, MAX_PV_LENGTH as nat) == result@
                    + principal_variation(
                    self.table(),
                    position,
                    (MAX_PV_LENGTH - result@.len()) as nat,
                ),
            ensures
                principal_variation(self.table(), start, MAX_PV_LENGTH as nat) == result@,
            decreases MAX_PV_LENGTH - result@.len(),
        {
            let ghost before = result@;
            let best_move = match self.hashmap.get(&position) {
                Some(hash_entry) => hash_entry.best_move(),
                None => None,
            };
            let next = match best_move {
                Some(m) => match position.play(m) {
                    Some(next) => Some((m, next)),
                    None => None,
                },
                None => None,
            };
            match next {
                Some((m, next_position)) => {
                    result.push(m);
                    position = next_position;
                    assert(result@ + principal_variation(
                        self.table(),
                        position,
                        (MAX_PV_LENGTH - result@.len()) as nat,
                    ) =~= before + (seq![m] + principal_variation(
                        self.table(),
                        position,
                        (MAX_PV_LENGTH - result@.len()) as nat,
                    )));
                },
                None => {
                    assert(principal_variation(
                        self.table(),
                        position,
                        (MAX_PV_LENGTH - result@.len()) as nat,
                    ) =~= Seq::<Move>::empty());
                    assert(result@ + Seq::<Move>::empty() =~= result@);
                    break;
                },
            }
        }
        proof {
            assert(result@ + Seq::<Move>::empty() =~= result@);
        }
        result
    }

    /// Begins a search: the shared block is told that a search is running,
    /// the node counter and the clock start again, and the table enters a
    /// new generation.
    pub fn begin_search(&mut self)
        requires
            old(self).wf(),
        ensures
            final(self).wf(),
            final(self).nodes_spec() == 0,
            final(self).table().slots() == old(self).table().slots(),
            final(self).table().generation_spec() == (old(self).table().generation_spec() + 1)
                % 256,
            final(self).table().count_spec() == 0,
    {
        self.stop_conditions.set_running(true);
        self.nodes = 0;
        self.starttime = Instant::now();
        self.hashmap.new_generation();
    }

    /// Ends a search: the shared block is told that no search is running.
    pub fn end_search(&self) {
        self.stop_conditions.set_running(false);
    }

    /// One round of deepening, for whatever the shared block and the clock
    /// have said: a search of `position` to `depth`, over the whole range of
    /// scores, unless the search has to stop or `depth` is beyond the depth
    /// limit. In those two cases nothing is searched and `None` comes back;
    /// in every other case the round is searched and reported.
    pub fn search_round(
        &mut self,
        depth: Depth,
        position: &Position,
        stop_due: bool,
        depth_limit: Depth,
    ) -> (r: Option<SearchInfo>)
        requires
            old(self).wf(),
        ensures
            final(self).wf(),
            final(self).same_table(old(self)),
            r is Some <==> !stop_due && depth <= depth_limit,
            r is None ==> final(self).table() == old(self).table() && final(self).nodes_spec()
                == old(self).nodes_spec(),
            r matches Some(info) ==> round_report(
                old(self).table(),
                final(self).table(),
                old(self).nodes_spec(),
                final(self).nodes_spec(),
                depth,
                *position,
                info,
            ),
    {
        broadcast use BoardScore::lemma_view, BoardScore::lemma_from_value;

        if stop_due {
            return None;
        }
        if depth > depth_limit {
            return None;
        }
        // The round begins at the node of the position, which is not
        // stopping and has the whole range of scores for its window.
        self.count_node();
        let score = self.search_node(
            depth,
            position,
            BoardScore::worst_score(),
            BoardScore::best_score(),
            false,
        );
        let nodes = self.nodes;
        let time = #[verifier::truncate] (self.starttime.elapsed().as_millis() as u64);
        let nps = nodes_per_second(nodes, time);
        proof {
            self.table().lemma_count_bound();
        }
        let hashfull = hashfull(self.hashmap.filled(), self.hashmap.capacity());
        let pv = self.trace_pv(position);
        proof {
            lemma_principal_variation_length(self.table(), *position, MAX_PV_LENGTH as nat);
        }
        Some(SearchInfo { depth, score, nodes, nps, hashfull, time, pv })
    }

    /// One round of deepening: a search of `position` to `depth`, over the
    /// whole range of scores. Nothing is searched, and `None` comes back,
    /// when the search has to stop or `depth` is beyond the depth limit; the
    /// shared block and the clock decide on both.
    pub fn search_depth(&mut self, depth: Depth, position: &Position) -> (r: Option<SearchInfo>)
        requires
            old(self).wf(),
        ensures
            final(self).wf(),
            final(self).same_table(old(self)),
            r is None ==> final(self).table() == old(self).table() && final(self).nodes_spec()
                == old(self).nodes_spec(),
            r matches Some(info) ==> round_report(
                old(self).table(),
                final(self).table(),
                old(self).nodes_spec(),
                final(self).nodes_spec(),
                depth,
                *position,
                info,
            ),
    {
        let stop_due = self.should_stop_search();
        let depth_limit = self.stop_conditions.limits().depth;
        self.search_round(depth, position, stop_due, depth_limit)
    }

    /// The move that the table names for the position.
    pub fn best_move(&self, position: &Position) -> (r: Option<Move>)
        requires
            self.wf(),
        ensures
            r == table_move(self.table(), *position),
    {
        match self.hashmap.get(position) {
            Some(hash_entry) => hash_entry.best_move(),
            None => None,
        }
    }

    /// Searches the position deeper and deeper, from depth 1 on, until the
    /// search has to stop or the depth limit is passed. Every round that was
    /// searched is reported, in order. The move that comes back is the one
    /// that the table names for the position in the end; there is none if
    /// the search was stopped before it got anywhere.
    pub fn search(&mut self, position: &Position) -> (r: SearchReport)
        requires
            old(self).wf(),
        ensures
            final(self).wf(),
            final(self).table().capacity_spec() == old(self).table().capacity_spec(),
            final(self).table().generation_spec() == (old(self).table().generation_spec() + 1)
                % 256,
            r.infos@.len() <= MAX_DEPTH,
            forall|i: int|
                0 <= i < r.infos@.len() ==> is_round_report(
                    (i + 1) as Depth,
                    *position,
                    #[trigger] r.infos@[i],
                ),
            r.infos@.len() > 0 ==> r.infos@.last().pv@ == principal_variation(
                final(self).table(),
                *position,
                MAX_PV_LENGTH as nat,
            ),
            r.infos@.len() == 0 ==> final(self).table().slots() == old(self).table().slots(),
            r.best_move == table_move(final(self).table(), *position),
    {
        self.begin_search();
        let ghost begun = *self;
        let mut infos: Vec<SearchInfo> = Vec::new();
        let mut depth: Depth = 1;
        loop
            invariant_except_break
                infos@.len() == depth - 1,
            invariant
                self.wf(),
                self.same_table(&begun),
                1 <= depth <= MAX_DEPTH,
                forall|i: int|
                    0 <= i < infos@.len() ==> is_round_report(
                        (i + 1) as Depth,
                        *position,
                        #[trigger] infos@[i],
                    ),
                infos@.len() > 0 ==> infos@.last().pv@ == principal_variation(
                    self.table(),
                    *position,
                    MAX_PV_LENGTH as nat,
                ),
                infos@.len() == 0 ==> self.table() == begun.table(),
            ensures
                self.wf(),
                self.same_table(&begun),
                infos@.len() <= MAX_DEPTH,
                forall|i: int|
                    0 <= i < infos@.len() ==> is_round_report(
                        (i + 1) as Depth,
                        *position,
                        #[trigger] infos@[i],
                    ),
                infos@.len() > 0 ==> infos@.last().pv@ == principal_variation(
                    self.table(),
                    *position,
                    MAX_PV_LENGTH as nat,
                ),
                infos@.len() == 0 ==> self.table() == begun.table(),
            decreases MAX_DEPTH - infos@.len(),
        {
            let ghost before = self.hashmap;
            let ghost nodes_before = self.nodes;
            let ghost reported = infos@;
            match self.search_depth(depth, position) {
                Some(info) => {
                    proof {
                        assert(round_report(
                            &before,
                            self.table(),
                            nodes_before,
                            self.nodes_spec(),
                            depth,
                            *position,
                            info,
                        ));
                        assert(is_round_report(depth, *position, info));
                    }
                    infos.push(info);
                    assert forall|i: int| 0 <= i < infos@.len() implies is_round_report(
                        (i + 1) as Depth,
                        *position,
                        #[trigger] infos@[i],
                    ) by {
                        if i < reported.len() {
                            assert(infos@[i] == reported[i]);
                        }
                    }
                },
                None => {
                    break ;
                },
            }
            if depth == MAX_DEPTH {
                break ;
            }
            depth += 1;
        }
        let best_move = self.best_move(position);
        self.end_search();
        SearchReport { infos, best_move }
    }

    /// Calculate the score for a position with alpha-beta search.
    ///
    /// If the score is higher than `beta`, it may not calculate the exact
    /// score, but instead provide a `LowerBound` of at least `beta`.
    /// Similarly, if the score is lower than `alpha` it may instead
    /// calculate an `UpperBound` of at most `alpha`.
    ///
    /// If the search gets stopped partway, it may also return `LowerBound`
    /// and `UpperBound` scores that lie inside the range of `alpha` and
    /// `beta`.
    ///
    /// The node is counted. A window that no score can fall into is answered
    /// at once. Otherwise the shared block and the clock are asked whether
    /// the search is stopping, and `search_node` does the rest: what it
    /// returns for either answer is its contract.
    pub fn alphabeta_search(
        &mut self,
        depth: Depth,
        position: &Position,
        alpha: BoardScore,
        beta: BoardScore,
    ) -> (r: BoundedScore)
        requires
            old(self).wf(),
            alpha@ != NO_SCORE_VALUE,
            beta@ != NO_SCORE_VALUE,
            alpha@ <= beta@,
        ensures
            final(self).wf(),
            final(self).same_table(old(self)),
            final(self).nodes_spec() >= old(self).nodes_spec(),
            old(self).nodes_spec() < u64::MAX ==> final(self).nodes_spec() > old(self).nodes_spec(),
            r.inner()@ != NO_SCORE_VALUE,
            subtree_outcome(
                old(self).table(),
                final(self).table(),
                old(self).nodes_spec(),
                final(self).nodes_spec(),
                *position,
                depth,
                alpha,
                beta,
                r,
            ),
        decreases depth, 1nat,
    {
        broadcast use BoardScore::lemma_view, BoardScore::lemma_from_value;

        self.count_node();

        // First, alpha and beta may be overdetermined, so no searching is
        // necessary. This will happen if, say, a mate-in-five has been found on
        // another branch, and we are now six plies deep on this branch. There
        // is no way we can beat a mate-in-five at a depth of six, so we bail.
        if let Some(score) = overdetermined(alpha, beta) {
            return score;
        }
        // If we are stopping, then we are going to do a quick search of hash entries

        let is_stopping = self.should_stop_search();
        let ghost before = self.hashmap;
        let score = self.search_node(depth, position, alpha, beta, is_stopping);
        proof {
            assert(node_result(
                &before,
                self.table(),
                counted(old(self).nodes_spec()),
                self.nodes_spec(),
                *position,
                depth,
                alpha,
                beta,
                is_stopping,
                score,
            ));
        }
        score
    }

    /// The search of a node whose window a score can fall into, once it is
    /// known whether the search is stopping.
    ///
    /// A score that the table holds for the position is returned at once
    /// where the entry is deep enough and decides within the window, or
    /// where the search is stopping. Failing that, a search that is stopping
    /// returns the noncommittal lower bound, and a search at depth 0 the
    /// evaluation of the position. Every other search tries the moves, the
    /// move of the table first, and stores the best score with its move.
    pub fn search_node(
        &mut self,
        depth: Depth,
        position: &Position,
        alpha: BoardScore,
        beta: BoardScore,
        is_stopping: bool,
    ) -> (r: BoundedScore)
        requires
            old(self).wf(),
            alpha@ != NO_SCORE_VALUE,
            beta@ != NO_SCORE_VALUE,
            alpha@ <= beta@,
            overdetermined_spec(alpha, beta) is None,
        ensures
            final(self).wf(),
            final(self).same_table(old(self)),
            final(self).nodes_spec() >= old(self).nodes_spec(),
            r.inner()@ != NO_SCORE_VALUE,
            node_result(
                old(self).table(),
                final(self).table(),
                old(self).nodes_spec(),
                final(self).nodes_spec(),
                *position,
                depth,
                alpha,
                beta,
                is_stopping,
                r,
            ),
        decreases depth, 0nat,
    {
        broadcast use BoardScore::lemma_view, BoardScore::lemma_from_value;

        let mut previous_best_move: Option<Move> = None;

        // Look up in hash table to see if this node has been searched already...
        if let Some(hash_entry) = self.hashmap.get(position) {
            // ... and to sufficient depth.
            if let Some(score) = usable_score(
                hash_entry.score(),
                hash_entry.depth(),
                depth,
                is_stopping,
                alpha,
                beta,
            ) {
                proof {
                    self.table().lemma_lookup(position.hash_spec());
                }
                return score;
            }
            // Even if the score is not compatible, we can use the previous
            // information in our current search.

            previous_best_move = hash_entry.best_move();
        }
        // Do the recursive search of all moves

        if depth > 0 && !is_stopping {
            let mut progress = NodeProgress {
                alpha,
                best_score: BoundedScore::UpperBound(BoardScore::no_score()),
                best_move: None,
                deficient: false,
            };
            let mut result_depth = depth;
            // Two positions may share a hash, so the move of the table may
            // belong to another position: it is tried only where it is legal.
            let hint = match previous_best_move {
                Some(m) => if position.is_legal_move(m) {
                    Some(m)
                } else {
                    None
                },
                None => None,
            };
            let mut move_gen = MoveGenerator::new(position, hint);
            let ghost ordered = move_gen.remaining();
            let ghost mut tried: Seq<(Move, BoundedScore)> = Seq::empty();
            proof {
                assert(hint == table_hint(old(self).table(), *position));
                assert(ordered.subrange(0, ordered.len() as int) =~= ordered);
            }

            loop
                invariant_except_break
                    move_gen.wf(),
                    move_gen.remaining() == ordered.subrange(
                        tried.len() as int,
                        ordered.len() as int,
                    ),
                    progress.alpha@ <= beta@,
                    !is_cutoff_spec(progress.best_score, beta),
                invariant
                    self.wf(),
                    self.same_table(old(self)),
                    self.nodes_spec() >= old(self).nodes_spec(),
                    ordered == crate::moveorder::ordered_moves(position.legal_moves_spec(), hint),
                    forall|i: int|
                        0 <= i < ordered.len() ==> position.is_legal(#[trigger] ordered[i]),
                    tried.len() <= ordered.len(),
                    forall|i: int| 0 <= i < tried.len() ==> (#[trigger] tried[i]).0 == ordered[i],
                    forall|i: int|
                        0 <= i < tried.len() ==> (#[trigger] tried[i]).1.inner()@
                            != NO_SCORE_VALUE,
                    forall|k: int|
                        0 < k < tried.len() ==> !is_cutoff_spec(
                            #[trigger] progress_after(alpha, beta, tried.subrange(0, k)).best_score,
                            beta,
                        ),
                    progress == progress_after(alpha, beta, tried),
                    children_searched(
                        old(self).table(),
                        self.table(),
                        old(self).nodes_spec(),
                        self.nodes_spec(),
                        *position,
                        depth,
                        alpha,
                        beta,
                        tried,
                    ),
                    tried.len() > 0 ==> progress.best_score.inner()@ != NO_SCORE_VALUE
                        && progress.best_move is Some,
                    tried.len() == 0 ==> progress.best_move is None,
                    progress.best_move matches Some(m) ==> position.is_legal(m),
                    depth > 0,
                    progress.alpha@ != NO_SCORE_VALUE,
                    alpha@ != NO_SCORE_VALUE,
                    beta@ != NO_SCORE_VALUE,
                ensures
                    self.wf(),
                    self.same_table(old(self)),
                    self.nodes_spec() >= old(self).nodes_spec(),
                    tried_in_order(ordered, alpha, beta, tried),
                    progress == progress_after(alpha, beta, tried),
                    children_searched(
                        old(self).table(),
                        self.table(),
                        old(self).nodes_spec(),
                        self.nodes_spec(),
                        *position,
                        depth,
                        alpha,
                        beta,
                        tried,
                    ),
                    tried.len() > 0 ==> progress.best_score.inner()@ != NO_SCORE_VALUE
                        && progress.best_move is Some,
                    tried.len() == 0 ==> progress.best_move is None,
                    progress.best_move matches Some(m) ==> position.is_legal(m),
                decreases move_gen.remaining().len(),
            {
                broadcast use BoardScore::lemma_view, BoardScore::lemma_from_value;

                let next_move = match move_gen.next() {
                    Some(m) => m,
                    None => {
                        break ;
                    },
                };
                assert(next_move == ordered[tried.len() as int]);
                assert(move_gen.remaining() =~= ordered.subrange(
                    tried.len() as int + 1,
                    ordered.len() as int,
                ));

                let new_position = position.make_move(next_move);
                let (child_alpha, child_beta) = child_window(progress.alpha, beta);
                let ghost mid = self.hashmap;
                let ghost nodes_mid = self.nodes;
                let child = self.alphabeta_search(
                    depth - 1,
                    &new_position,
                    child_alpha,
                    child_beta,
                );
                let search_score = score_from_child(child);
                let ghost tried_before = tried;
                progress = consider_move(progress, beta, next_move, search_score);
                proof {
                    tried = tried_before.push((next_move, search_score));
                    assert(tried.drop_last() =~= tried_before);
                    assert(children_searched(
                        old(self).table(),
                        &mid,
                        old(self).nodes_spec(),
                        nodes_mid,
                        *position,
                        depth,
                        alpha,
                        beta,
                        tried_before,
                    ));
                    assert(subtree_outcome(
                        &mid,
                        self.table(),
                        nodes_mid,
                        self.nodes_spec(),
                        position.after(next_move),
                        (depth - 1) as Depth,
                        child_alpha,
                        child_beta,
                        child,
                    ));
                    let window = child_window_spec(
                        progress_after(alpha, beta, tried.drop_last()).alpha,
                        beta,
                    );
                    assert(tried.last() == (next_move, search_score));
                    assert(window.0 == child_alpha && window.1 == child_beta);
                    assert(between_moves(&mid, nodes_mid, child));
                    assert(children_searched(
                        old(self).table(),
                        &mid,
                        old(self).nodes_spec(),
                        nodes_mid,
                        *position,
                        depth,
                        alpha,
                        beta,
                        tried.drop_last(),
                    ));
                    assert(subtree_outcome(
                        &mid,
                        self.table(),
                        nodes_mid,
                        self.nodes_spec(),
                        position.after(tried.last().0),
                        (depth - 1) as Depth,
                        window.0,
                        window.1,
                        child,
                    ));
                    assert(children_searched(
                        old(self).table(),
                        self.table(),
                        old(self).nodes_spec(),
                        self.nodes_spec(),
                        *position,
                        depth,
                        alpha,
                        beta,
                        tried,
                    ));
                    assert forall|k: int| 0 < k < tried.len() implies !is_cutoff_spec(
                        #[trigger] progress_after(alpha, beta, tried.subrange(0, k)).best_score,
                        beta,
                    ) by {
                        if k < tried_before.len() {
                            assert(tried.subrange(0, k) =~= tried_before.subrange(0, k));
                        } else {
                            assert(tried.subrange(0, k) =~= tried_before);
                        }
                    }
                }
                if is_cutoff(progress.best_score, beta) {
                    // If we found a move better than beta, we don't need to
                    // consider any other moves. This particular position is
                    // "too good" for us, and will therefore never be played by
                    // a minmaxing opponent anyway, so further search can be
                    // pruned. This score is now a LowerBound score: there
                    // could be even higher scores in the other moves.
                    break ;
                }
            }

            let mut best_score = progress.best_score;
            if progress.best_move.is_none() {
                // There were no legal moves!
                // This means checkmate or stalemate
                best_score = terminal_score(position.is_in_check());
                // This evaluation is valid for any depth for purposes of hashtable lookup.
                result_depth = MAX_DEPTH;
            } else if is_cutoff(best_score, beta) {
                best_score = BoundedScore::LowerBound(best_score.unwrap());
            }
            proof {
                if tried.len() == 0 {
                    crate::moveorder::lemma_ordered_moves_empty(
                        position.legal_moves_spec(),
                        hint,
                    );
                } else {
                    position.lemma_legal_is_listed(ordered[0]);
                }
                assert(best_score == result_of(progress, beta, position.in_check_spec()));
                assert(result_depth == settled_depth(*position, depth));
            }
            // Finally store the new result in the hash table

            let polled = self.should_stop_search();
            let degraded = progress.deficient || polled;
            let store_depth = store_depth(result_depth, degraded, best_score);
            if best_score.unwrap().value() != NO_SCORE_VALUE {
                let hash_entry = HashEntry::with_contents(
                    position.hash(),
                    progress.best_move,
                    best_score,
                    store_depth,
                );
                let ghost before = self.hashmap;
                self.hashmap.insert(position, hash_entry);
                proof {
                    lemma_insert_scored(&before, self.table(), position.hash_spec(), hash_entry);
                    HashMap::lemma_stored_as(
                        hash_entry,
                        position.hash_spec(),
                        before.generation_spec(),
                    );
                    assert(before.inserted(self.table(), position.hash_spec(), hash_entry));
                    assert(searched_with(
                        old(self).table(),
                        self.table(),
                        old(self).nodes_spec(),
                        self.nodes_spec(),
                        *position,
                        depth,
                        alpha,
                        beta,
                        tried,
                        best_score,
                    ));
                }
            }
            best_score
        } else if depth == 0 && !is_stopping {
            // Depth is zero, use leaf evaluation
            BoundedScore::Exact(self.leaf_evaluation(position, alpha, beta))
        } else {
            // We are stopping the search. Unfortunately there was no hash
            // entry to fall back to. We mustn't do leaf evaluation here, since
            // that risks producing a worse result than what we already have
            // achieved from previous searches. Instead return a noncommitting
            // score, and let upper levels work out what to do.
            BoundedScore::LowerBound(BoardScore::worst_score())
        }
    }
}

/// The score of a position at depth 0: its material where it has a legal
/// move, else mated or even.
pub open spec fn leaf_value(position: Position) -> int {
    if position.legal_moves_spec().len() > 0 {
        crate::evaluation::centipawn_value(crate::evaluation::material_balance(position))
    } else if position.in_check_spec() {
        MATED_VALUE as int
    } else {
        EVEN_VALUE as int
    }
}

} // verus!
