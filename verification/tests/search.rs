use toads_and_frogs::board::{generate_moves, Board};
use toads_and_frogs::position::Side;
use toads_and_frogs::search::minimax;

#[test]
fn frog_without_a_move_scores_minus_ten() {
    assert_eq!(minimax(Board { frog: 0b0000_0011, toad: 0b0001_0000, turn: Side::Frog }), -10);
    assert_eq!(minimax(Board { frog: 0, toad: 0, turn: Side::Frog }), -10);
}

#[test]
fn toad_without_a_move_scores_plus_ten() {
    assert_eq!(minimax(Board { frog: 0b0000_0100, toad: 0b1100_0000, turn: Side::Toad }), 10);
    assert_eq!(minimax(Board { frog: 0, toad: 0, turn: Side::Toad }), 10);
}

#[test]
fn frogs_win_the_opening() {
    let score = minimax(Board::initial());
    assert_eq!(score, 10);
    assert!(score > 0);
}

#[test]
fn the_search_gives_the_same_score_every_time() {
    let first = minimax(Board::initial());
    for _ in 0..5 {
        assert_eq!(minimax(Board::initial()), first);
    }
}

#[test]
fn one_move_from_the_end() {
    // The frog slides to cell 1; the toad on cell 7 then cannot move.
    assert_eq!(minimax(Board { frog: 0b0000_0100, toad: 0b1000_0000, turn: Side::Frog }), 10);
    // The toad slides to cell 6; the frog on cell 0 then cannot move.
    assert_eq!(minimax(Board { frog: 0b0000_0001, toad: 0b0010_0000, turn: Side::Toad }), -10);
}

#[test]
fn mover_with_the_last_move_loses_the_race() {
    // Frog on 2, toad on 4: frog moves to 1, toad to 5, frog is stuck.
    assert_eq!(minimax(Board { frog: 0b0000_0100, toad: 0b0001_0000, turn: Side::Frog }), -10);
    // Frog on 3, toad on 4: frog to 2, toad to 5, frog to 1, toad to 6, frog stuck.
    assert_eq!(minimax(Board { frog: 0b0000_1000, toad: 0b0001_0000, turn: Side::Frog }), -10);
    // Frog on 3, toad on 5: frog to 2, toad to 6, frog to 1, toad stuck.
    assert_eq!(minimax(Board { frog: 0b0000_1000, toad: 0b0010_0000, turn: Side::Frog }), 10);
}

fn check(state: Board) -> i8 {
    let score = minimax(state);
    assert!(score == 10 || score == -10);
    let children: Vec<i8> = generate_moves(&state).into_iter().map(check).collect();
    let expected = match (children.is_empty(), state.turn) {
        (true, Side::Frog) => -10,
        (true, Side::Toad) => 10,
        (false, Side::Frog) => *children.iter().max().unwrap(),
        (false, Side::Toad) => *children.iter().min().unwrap(),
    };
    assert_eq!(score, expected);
    score
}

#[test]
fn every_score_is_the_best_of_the_children() {
    assert_eq!(check(Board { frog: 0b1010_0000, toad: 0b0000_0110, turn: Side::Toad }), 10);
}
