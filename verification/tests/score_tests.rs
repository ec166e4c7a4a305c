use chess_search::score::BoundedScore::{Exact, LowerBound, UpperBound};
use chess_search::score::{BoardScore, BoardScoreDescription, BoundedScore};
use std::cmp::Ordering;

const MATE: i16 = 32766;
const MATED: i16 = -32766;
const BEST: i16 = 32767;
const WORST: i16 = -32767;
const NO_SCORE: i16 = -32768;

fn score(value: i16) -> BoardScore {
    BoardScore::evaluation(value)
}

#[test]
fn test_boardscore_compare() {
    assert!(BoardScore::mate() > BoardScore::even());
    assert!(BoardScore::mate() >= BoardScore::even());
    assert!(BoardScore::even() < BoardScore::mate());
    assert!(BoardScore::even() <= BoardScore::mate());

    assert!(BoardScore::mate() > BoardScore::mated());
    assert!(BoardScore::mate() >= BoardScore::mated());
    assert!(BoardScore::mated() < BoardScore::mate());
    assert!(BoardScore::mated() <= BoardScore::mate());
}

#[test]
fn test_bounded_boardscore_compare() {
    let low = BoardScore::evaluation(-10);
    let mid = BoardScore::even();
    let high = BoardScore::evaluation(10);

    assert!(Exact(mid) > UpperBound(low));
    assert!(LowerBound(high) > Exact(mid));

    assert!(!(UpperBound(mid) > Exact(low)));
    assert!(!(LowerBound(mid) < Exact(high)));
}

#[test]
fn named_scores_have_their_values() {
    assert_eq!(BoardScore::best_score().value(), BEST);
    assert_eq!(BoardScore::mate().value(), MATE);
    assert_eq!(BoardScore::even().value(), 0);
    assert_eq!(BoardScore::mated().value(), MATED);
    assert_eq!(BoardScore::worst_score().value(), WORST);
    assert_eq!(BoardScore::no_score().value(), NO_SCORE);
    assert_eq!(BoardScore::mated(), BoardScore::mate().neg());
    assert_eq!(BoardScore::worst_score(), BoardScore::best_score().neg());
}

#[test]
fn negation_is_an_involution_on_every_score() {
    for value in i16::MIN..=i16::MAX {
        let s = score(value);
        assert_eq!(s.neg().neg(), s);
        if value != NO_SCORE {
            assert_eq!(s.neg().value(), -value);
        }
    }
}

#[test]
fn no_score_negates_to_itself() {
    assert_eq!(BoardScore::no_score().neg(), BoardScore::no_score());
}

#[test]
fn centipawn_scores_keep_their_plies() {
    for value in [-32510i16, -9999, -1, 0, 1, 50, 9999, 32510] {
        let s = score(value);
        assert_eq!(s.increment_mate_plies(), s);
        assert_eq!(s.decrement_mate_plies(), s);
        assert!(!s.is_mate_score());
    }
}

#[test]
fn increment_moves_mate_scores_towards_the_centre() {
    for value in (MATE - 254)..=MATE {
        assert_eq!(score(value).increment_mate_plies().value(), value - 1);
    }
    for value in MATED..(MATED + 255) {
        assert_eq!(score(value).increment_mate_plies().value(), value + 1);
    }
    // The count saturates at 255 plies
    assert_eq!(score(MATE - 255).increment_mate_plies().value(), MATE - 255);
    assert_eq!(score(MATED + 255).increment_mate_plies().value(), MATED + 255);
    // The extremes and the placeholder stay
    assert_eq!(score(BEST).increment_mate_plies().value(), BEST);
    assert_eq!(score(WORST).increment_mate_plies().value(), WORST);
    assert_eq!(score(NO_SCORE).increment_mate_plies().value(), NO_SCORE);
}

#[test]
fn decrement_moves_mate_scores_away_from_the_centre() {
    for value in (MATE - 255)..MATE {
        let decremented = score(value).decrement_mate_plies().value();
        assert_eq!(decremented, value + 1);
        assert!(decremented <= MATE);
    }
    for value in (MATED + 1)..=(MATED + 255) {
        assert_eq!(score(value).decrement_mate_plies().value(), value - 1);
    }
    // The count stops at zero plies: a mate stays a mate
    assert_eq!(score(MATE).decrement_mate_plies().value(), MATE);
    assert_eq!(score(MATE - 1).decrement_mate_plies().value(), MATE);
    assert_eq!(score(MATED).decrement_mate_plies().value(), WORST);
    assert_eq!(score(BEST).decrement_mate_plies().value(), BEST);
    assert_eq!(score(WORST).decrement_mate_plies().value(), WORST);
    assert_eq!(score(NO_SCORE).decrement_mate_plies().value(), NO_SCORE);
}

#[test]
fn decrement_undoes_increment_inside_the_windows() {
    for value in (MATE - 254)..=MATE {
        assert_eq!(score(value).increment_mate_plies().decrement_mate_plies().value(), value);
    }
    for value in MATED..(MATED + 255) {
        assert_eq!(score(value).increment_mate_plies().decrement_mate_plies().value(), value);
    }
}

#[test]
fn increment_commutes_with_negation() {
    for value in i16::MIN..=i16::MAX {
        let s = score(value);
        assert_eq!(s.neg().increment_mate_plies(), s.increment_mate_plies().neg());
    }
}

#[test]
fn mate_scores_are_those_in_the_windows() {
    assert!(score(MATE).is_mate_score());
    assert!(score(MATE - 255).is_mate_score());
    assert!(!score(MATE - 256).is_mate_score());
    assert!(score(MATED).is_mate_score());
    assert!(score(MATED + 255).is_mate_score());
    assert!(!score(MATED + 256).is_mate_score());
    assert!(score(BEST).is_mate_score());
    assert!(score(WORST).is_mate_score());
    assert!(!score(NO_SCORE).is_mate_score());
    assert!(!score(0).is_mate_score());
}

#[test]
fn scores_read_as_the_protocol_wants() {
    assert_eq!(score(MATE - 1).format_uci(), "mate 1");
    assert_eq!(score(MATE - 3).format_uci(), "mate 2");
    assert_eq!(score(MATE - 5).format_uci(), "mate 3");
    assert_eq!(score(MATED + 2).format_uci(), "mate -1");
    assert_eq!(score(MATED + 4).format_uci(), "mate -2");
    assert_eq!(score(50).format_uci(), "cp 50");
    assert_eq!(score(-50).format_uci(), "cp -50");
    assert_eq!(score(0).format_uci(), "cp 0");
    assert_eq!(score(9999).format_uci(), "cp 9999");
    assert_eq!(score(-32510).format_uci(), "cp -32510");
    assert_eq!(score(MATE).format_uci(), "mate 0");
    assert_eq!(score(MATE - 255).format_uci(), "mate 128");
    assert_eq!(score(MATED + 255).format_uci(), "mate -127");
    assert_eq!(score(MATED + 1).format_uci(), "mate 0");
}

#[test]
fn descriptions_halve_the_plies() {
    assert_eq!(score(MATE - 1).describe(), BoardScoreDescription::Mate(1));
    assert_eq!(score(MATE - 2).describe(), BoardScoreDescription::Mate(1));
    assert_eq!(score(MATE - 3).describe(), BoardScoreDescription::Mate(2));
    assert_eq!(score(MATED + 2).describe(), BoardScoreDescription::Mate(-1));
    assert_eq!(score(MATED + 3).describe(), BoardScoreDescription::Mate(-1));
    assert_eq!(score(123).describe(), BoardScoreDescription::Cp(123));
}

#[test]
fn bounded_scores_read_with_their_bound() {
    assert_eq!(Exact(score(50)).format_uci(), "cp 50");
    assert_eq!(LowerBound(score(50)).format_uci(), "cp 50 lowerbound");
    assert_eq!(UpperBound(score(-7)).format_uci(), "cp -7 upperbound");
    assert_eq!(LowerBound(score(MATE - 1)).format_uci(), "mate 1 lowerbound");
}

#[test]
fn negation_swaps_the_bounds() {
    for value in [NO_SCORE, WORST, MATED, -10, 0, 10, MATE, BEST] {
        let s = score(value);
        assert_eq!(LowerBound(s).neg(), UpperBound(s.neg()));
        assert_eq!(UpperBound(s).neg(), LowerBound(s.neg()));
        assert_eq!(Exact(s).neg(), Exact(s.neg()));
        assert_eq!(LowerBound(s).neg().neg(), LowerBound(s));
    }
}

#[test]
fn bounded_scores_unwrap_and_tell_their_kind() {
    let s = score(17);
    assert_eq!(Exact(s).unwrap(), s);
    assert_eq!(LowerBound(s).unwrap(), s);
    assert_eq!(UpperBound(s).unwrap(), s);
    assert!(Exact(s).is_exact() && !Exact(s).is_lowerbound() && !Exact(s).is_upperbound());
    assert!(LowerBound(s).is_lowerbound() && !LowerBound(s).is_exact());
    assert!(UpperBound(s).is_upperbound() && !UpperBound(s).is_exact());
    assert_eq!(
        LowerBound(score(MATE)).increment_mate_plies(),
        LowerBound(score(MATE - 1))
    );
    assert_eq!(
        UpperBound(score(MATED)).increment_mate_plies(),
        UpperBound(score(MATED + 1))
    );
    assert_eq!(Exact(s).increment_mate_plies(), Exact(s));
}

#[test]
fn lower_bound_is_at_least_a_smaller_exact_score() {
    assert!(LowerBound(score(10)) >= Exact(score(0)));
    assert_eq!(
        LowerBound(score(10)).partial_cmp(&Exact(score(0))),
        Some(Ordering::Greater)
    );
}

#[test]
fn upper_bound_is_not_at_least_a_larger_exact_score() {
    assert!(!(UpperBound(score(10)) >= Exact(score(20))));
    assert_eq!(
        UpperBound(score(10)).partial_cmp(&Exact(score(20))),
        Some(Ordering::Less)
    );
}

#[test]
fn undecided_comparisons_are_incomparable() {
    assert_eq!(UpperBound(score(10)).partial_cmp(&Exact(score(0))), None);
    assert_eq!(UpperBound(score(10)).partial_cmp(&LowerBound(score(0))), None);
    assert_eq!(LowerBound(score(0)).partial_cmp(&Exact(score(10))), None);
    assert_eq!(LowerBound(score(0)).partial_cmp(&UpperBound(score(10))), None);
    assert_eq!(Exact(score(0)).partial_cmp(&LowerBound(score(-5))), None);
    assert_eq!(Exact(score(0)).partial_cmp(&UpperBound(score(5))), None);
    assert!(!(UpperBound(score(10)) >= Exact(score(0))));
    assert!(!(UpperBound(score(10)) <= Exact(score(0))));
}

#[test]
fn decided_comparisons_go_by_the_scores() {
    let kinds: [fn(BoardScore) -> BoundedScore; 3] = [Exact, LowerBound, UpperBound];
    for kind in kinds {
        assert_eq!(kind(score(1)).partial_cmp(&kind(score(2))), Some(Ordering::Less));
        assert_eq!(kind(score(2)).partial_cmp(&kind(score(2))), Some(Ordering::Equal));
        assert_eq!(kind(score(3)).partial_cmp(&kind(score(2))), Some(Ordering::Greater));
    }
    assert_eq!(
        LowerBound(score(5)).partial_cmp(&Exact(score(5))),
        Some(Ordering::Equal)
    );
    assert_eq!(
        Exact(score(5)).partial_cmp(&UpperBound(score(4))),
        Some(Ordering::Greater)
    );
    assert_eq!(
        Exact(score(5)).partial_cmp(&LowerBound(score(6))),
        Some(Ordering::Less)
    );
    assert_eq!(
        UpperBound(score(5)).partial_cmp(&LowerBound(score(6))),
        Some(Ordering::Less)
    );
    // Every score beats the placeholder that a search starts from
    assert!(UpperBound(score(WORST)) > UpperBound(score(NO_SCORE)));
    assert!(Exact(score(WORST)) > UpperBound(score(NO_SCORE)));
    assert!(LowerBound(score(WORST)) > UpperBound(score(NO_SCORE)));
}
