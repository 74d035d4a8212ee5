use toads_and_frogs::board::{generate_moves, Board};
use toads_and_frogs::position::Side;

fn board(frogs: &[u8], toads: &[u8], turn: Side) -> Board {
    let mut frog: u8 = 0;
    for i in frogs {
        frog |= 1 << i;
    }
    let mut toad: u8 = 0;
    for i in toads {
        toad |= 1 << i;
    }
    Board { frog, toad, turn }
}

#[test]
fn initial_state_is_the_fixed_opening() {
    let b = Board::initial();
    assert_eq!(b, Board { frog: 0b1100_0000, toad: 0b0000_0110, turn: Side::Frog });
    assert_eq!(b, board(&[6, 7], &[1, 2], Side::Frog));
    assert_eq!(b.frog & b.toad, 0);
}

#[test]
fn opening_has_one_move() {
    let moves = generate_moves(&Board::initial());
    assert_eq!(moves, vec![Board { frog: 160, toad: 6, turn: Side::Toad }]);
}

#[test]
fn frog_jumps_over_a_toad() {
    let moves = generate_moves(&board(&[4], &[3], Side::Frog));
    assert_eq!(moves, vec![board(&[2], &[3], Side::Toad)]);
    assert_eq!(moves[0].toad, 0b0000_1000);
    assert_eq!(moves[0].frog, 0b0000_0100);
}

#[test]
fn frog_slides_into_a_free_cell() {
    let moves = generate_moves(&board(&[5], &[], Side::Frog));
    assert_eq!(moves, vec![board(&[4], &[], Side::Toad)]);
    let more = generate_moves(&board(&[5, 7], &[1], Side::Frog));
    assert!(more.contains(&board(&[4, 7], &[1], Side::Toad)));
}

#[test]
fn toad_jumps_over_a_frog() {
    let moves = generate_moves(&board(&[4], &[3], Side::Toad));
    assert_eq!(moves, vec![board(&[4], &[5], Side::Frog)]);
}

#[test]
fn toad_slides_into_a_free_cell() {
    let moves = generate_moves(&board(&[7], &[2], Side::Toad));
    assert_eq!(moves, vec![board(&[7], &[3], Side::Frog)]);
}

#[test]
fn slide_is_taken_before_jump() {
    let moves = generate_moves(&board(&[4], &[2], Side::Frog));
    assert_eq!(moves, vec![board(&[3], &[2], Side::Toad)]);
}

#[test]
fn frogs_on_cells_0_and_1_never_move() {
    assert!(generate_moves(&board(&[0], &[], Side::Frog)).is_empty());
    assert!(generate_moves(&board(&[1], &[], Side::Frog)).is_empty());
    assert!(generate_moves(&board(&[0, 1], &[5], Side::Frog)).is_empty());
    assert!(generate_moves(&board(&[1], &[0], Side::Frog)).is_empty());
    let moves = generate_moves(&board(&[1, 3], &[], Side::Frog));
    assert_eq!(moves, vec![board(&[1, 2], &[], Side::Toad)]);
}

#[test]
fn toads_on_cells_6_and_7_never_move() {
    assert!(generate_moves(&board(&[], &[7], Side::Toad)).is_empty());
    assert!(generate_moves(&board(&[], &[6], Side::Toad)).is_empty());
    assert!(generate_moves(&board(&[2], &[6, 7], Side::Toad)).is_empty());
    assert!(generate_moves(&board(&[7], &[6], Side::Toad)).is_empty());
    let moves = generate_moves(&board(&[], &[4, 6], Side::Toad));
    assert_eq!(moves, vec![board(&[], &[5, 6], Side::Frog)]);
}

#[test]
fn frog_on_cell_2_reaches_cells_1_and_0() {
    assert_eq!(
        generate_moves(&board(&[2], &[], Side::Frog)),
        vec![board(&[1], &[], Side::Toad)]
    );
    assert_eq!(
        generate_moves(&board(&[2], &[1], Side::Frog)),
        vec![board(&[0], &[1], Side::Toad)]
    );
}

#[test]
fn toad_on_cells_0_and_5_moves() {
    assert_eq!(
        generate_moves(&board(&[], &[0], Side::Toad)),
        vec![board(&[], &[1], Side::Frog)]
    );
    assert_eq!(
        generate_moves(&board(&[1], &[0], Side::Toad)),
        vec![board(&[1], &[2], Side::Frog)]
    );
    assert_eq!(
        generate_moves(&board(&[], &[5], Side::Toad)),
        vec![board(&[], &[6], Side::Frog)]
    );
    assert_eq!(
        generate_moves(&board(&[6], &[5], Side::Toad)),
        vec![board(&[6], &[7], Side::Frog)]
    );
}

#[test]
fn own_piece_blocks_slide_and_jump() {
    let moves = generate_moves(&board(&[3, 4], &[], Side::Frog));
    assert_eq!(moves, vec![board(&[2, 4], &[], Side::Toad)]);
    let moves = generate_moves(&board(&[], &[3, 4], Side::Toad));
    assert_eq!(moves, vec![board(&[], &[3, 5], Side::Frog)]);
}

#[test]
fn jump_needs_a_free_landing_cell() {
    assert!(generate_moves(&board(&[4], &[2, 3], Side::Frog)).is_empty());
    assert!(generate_moves(&board(&[2, 4], &[3], Side::Frog))
        .iter()
        .all(|b| b.frog & (1 << 4) != 0));
    assert!(generate_moves(&board(&[4, 5], &[3], Side::Toad)).is_empty());
}

#[test]
fn successors_come_by_ascending_source_cell() {
    let moves = generate_moves(&board(&[3, 5, 7], &[2], Side::Frog));
    assert_eq!(
        moves,
        vec![
            board(&[1, 5, 7], &[2], Side::Toad),
            board(&[3, 4, 7], &[2], Side::Toad),
            board(&[3, 5, 6], &[2], Side::Toad),
        ]
    );
    let moves = generate_moves(&board(&[5], &[0, 2, 4], Side::Toad));
    assert_eq!(
        moves,
        vec![
            board(&[5], &[1, 2, 4], Side::Frog),
            board(&[5], &[0, 3, 4], Side::Frog),
            board(&[5], &[0, 2, 6], Side::Frog),
        ]
    );
}

#[test]
fn a_move_flips_the_turn_and_leaves_the_other_side() {
    let start = board(&[5, 7], &[1, 4], Side::Frog);
    for next in generate_moves(&start) {
        assert_eq!(next.turn, Side::Toad);
        assert_eq!(next.toad, start.toad);
    }
    let start = board(&[5, 7], &[1, 4], Side::Toad);
    for next in generate_moves(&start) {
        assert_eq!(next.turn, Side::Frog);
        assert_eq!(next.frog, start.frog);
    }
}

#[test]
fn opponent_is_the_other_side() {
    assert_eq!(Side::Frog.opponent(), Side::Toad);
    assert_eq!(Side::Toad.opponent(), Side::Frog);
}

#[test]
fn terminal_depends_on_the_mover_only() {
    let frogs_stuck = board(&[0, 1], &[3], Side::Frog);
    assert!(frogs_stuck.is_terminal());
    let toads_free = board(&[0, 1], &[3], Side::Toad);
    assert!(!toads_free.is_terminal());
    assert!(!Board::initial().is_terminal());
}

#[test]
fn render_shows_cells_7_down_to_1() {
    assert_eq!(Board::initial().render(), "FFxxxTT");
    assert_eq!(board(&[0], &[7], Side::Frog).render(), "Txxxxxx");
    assert_eq!(board(&[4], &[3], Side::Toad).render(), "xxxFTxx");
    assert_eq!(board(&[], &[], Side::Frog).render(), "xxxxxxx");
}

fn walk(state: Board, pieces: u32, depth: u32, deepest: &mut u32) {
    assert_eq!(state.frog & state.toad, 0);
    assert_eq!(state.frog.count_ones() + state.toad.count_ones(), pieces);
    if depth > *deepest {
        *deepest = depth;
    }
    for next in generate_moves(&state) {
        assert_ne!(next.turn, state.turn);
        walk(next, pieces, depth + 1, deepest);
    }
}

#[test]
fn every_descendant_keeps_the_pieces_apart_and_their_number() {
    let mut deepest = 0;
    walk(Board::initial(), 4, 0, &mut deepest);
    assert_eq!(deepest, 17);
    assert!(deepest <= 6 + 7 + 6 + 5);
}
