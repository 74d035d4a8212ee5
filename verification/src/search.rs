//! Exhaustive search for the value of a state.

use vstd::prelude::*;
use crate::board::{generate_moves, positions, Board};
use crate::position::{
    best_score, lemma_child_scores, lemma_step_shortens_travel, lemma_successor_is_step,
    lemma_value_is_sentinel, Position, Side,
};

verus! {

/// The value of `state` under best play by both sides: -10 where the side
/// to move is the frogs and cannot move, +10 where it is the toads and
/// cannot move, else the greatest (frogs to move) or smallest (toads to
/// move) value of the states one move away. Every line of play is searched
/// to its end; each move shortens the distance that the pieces can still
/// travel, so the search ends.
pub fn minimax(state: Board) -> (score: i8)
    ensures
        score == state@.value(),
        score == 10 || score == -10,
    decreases state@.travel(),
{
    proof {
        lemma_child_scores(state@, 8);
        lemma_value_is_sentinel(state@);
    }
    if state.is_terminal() {
        return match state.turn {
            Side::Frog => -10,
            Side::Toad => 10,
        };
    }
    let moves = generate_moves(&state);
    let ghost scores = state@.child_scores_below(8);
    let mut best: i8 = match state.turn {
        Side::Frog => i8::MIN,
        Side::Toad => i8::MAX,
    };
    let mut k: usize = 0;
    while k < moves.len()
        invariant
            0 <= k <= moves.len(),
            positions(moves@) == state@.successors(),
            scores == state@.child_scores_below(8),
            scores == state@.successors().map_values(|s: Position| s.value()),
            k == 0 ==> best == (match state.turn {
                Side::Frog => i8::MIN,
                Side::Toad => i8::MAX,
            }),
            k > 0 ==> best == best_score(state.turn, scores.take(k as int)),
        decreases moves.len() - k,
    {
        let b = moves[k];
        proof {
            assert(positions(moves@)[k as int] == b@);
            lemma_successor_is_step(state@, 8, k as int);
            let i = choose|i: int| 0 <= i < 8 && state@.step(i) == Some(state@.successors()[k as int]);
            lemma_step_shortens_travel(state@, i);
        }
        let score = minimax(b);
        proof {
            assert(score == scores[k as int]);
            assert(scores.take(k + 1).drop_last() =~= scores.take(k as int));
            assert(scores.take(k + 1).last() == scores[k as int]);
        }
        best = match state.turn {
            Side::Frog => if best >= score { best } else { score },
            Side::Toad => if best <= score { best } else { score },
        };
        k += 1;
    }
    proof {
        assert(scores.take(k as int) =~= scores);
    }
    best
}

} // verus!
