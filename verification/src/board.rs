//! The executable state: two occupancy masks and the side to move, with the
//! generator of legal moves.

use vstd::prelude::*;
use crate::bits::{
    cells_of, lemma_cells_determine_mask, lemma_cells_finite, lemma_disjoint, lemma_relocate,
    lemma_union_marked,
};
use crate::position::{
    lemma_successor_is_step, lemma_successors_keep_invariants, Position, Side,
};

verus! {

/// A state of the game. Bit `i` of `frog` is set where a frog stands on cell
/// `i`, bit `i` of `toad` where a toad does; `turn` is the side to move.
#[derive(Clone, Copy, PartialEq, Eq, Structural, Debug)]
pub struct Board {
    pub frog: u8,
    pub toad: u8,
    pub turn: Side,
}

impl View for Board {
    type V = Position;

    open spec fn view(&self) -> Position {
        Position { frogs: cells_of(self.frog), toads: cells_of(self.toad), mover: self.turn }
    }
}

/// The positions that a sequence of boards stands for, in order.
pub open spec fn positions(boards: Seq<Board>) -> Seq<Position> {
    boards.map_values(|b: Board| b@)
}

impl Board {
    /// No cell is occupied by both sides.
    pub open spec fn wf(&self) -> bool {
        self.frog & self.toad == 0
    }

    /// The opening state: frogs on cells 6 and 7, toads on cells 1 and 2,
    /// frogs to move.
    pub fn initial() -> (board: Board)
        ensures
            board == (Board { frog: 0b1100_0000, toad: 0b0000_0110, turn: Side::Frog }),
            board@ == (Position { frogs: set![6, 7], toads: set![1, 2], mover: Side::Frog }),
            board.wf(),
    {
        let board = Board { frog: 0b1100_0000, toad: 0b0000_0110, turn: Side::Frog };
        proof {
            assert(0b1100_0000u8 & 0b0000_0110u8 == 0) by (bit_vector);
            assert forall|i: u8| i < 8 implies (0b1100_0000u8 & (1u8 << i) != 0) == (i == 6 || i
                == 7) by {
                assert(i < 8 ==> (0b1100_0000u8 & (1u8 << i) != 0) == (i == 6 || i == 7))
                    by (bit_vector);
            }
            assert forall|i: u8| i < 8 implies (0b0000_0110u8 & (1u8 << i) != 0) == (i == 1 || i
                == 2) by {
                assert(i < 8 ==> (0b0000_0110u8 & (1u8 << i) != 0) == (i == 1 || i == 2))
                    by (bit_vector);
            }
            assert forall|i: int| board@.frogs.contains(i) == set![6int, 7].contains(i) by {
                if 0 <= i < 8 {
                    assert((i as u8) < 8);
                }
            }
            assert forall|i: int| board@.toads.contains(i) == set![1int, 2].contains(i) by {
                if 0 <= i < 8 {
                    assert((i as u8) < 8);
                }
            }
            assert(board@.frogs =~= set![6int, 7]);
            assert(board@.toads =~= set![1int, 2]);
        }
        board
    }

    /// Whether the side to move has no legal move.
    pub fn is_terminal(&self) -> (terminal: bool)
        ensures
            terminal == self@.is_terminal(),
    {
        generate_moves(self).len() == 0
    }

    /// The board as text, seven characters from cell 7 down to cell 1: `F`
    /// for a frog, `T` for a toad, `x` for a free cell. Cell 0 is left out.
    pub fn render(&self) -> (text: String)
        ensures
            text@ == self@.rendering(),
    {
        let mut out = String::new();
        let mut i: u8 = 7;
        while i >= 1
            invariant
                0 <= i <= 7,
                out@ == self@.rendering().take(7 - i),
            decreases i,
        {
            if self.frog & (1u8 << i) != 0 {
                push_char(&mut out, 'F');
            } else if self.toad & (1u8 << i) != 0 {
                push_char(&mut out, 'T');
            } else {
                push_char(&mut out, 'x');
            }
            assert(out@ =~= self@.rendering().take(7 - i + 1));
            i -= 1;
        }
        assert(self@.rendering().take(7) =~= self@.rendering());
        out
    }
}

/// `String::push` of std: the text afterwards is the text before with `c`
/// at its end. Believed, not proved.
#[verifier::external_body]
fn push_char(text: &mut String, c: char)
    ensures
        final(text)@ == old(text)@.push(c),
{
    text.push(c)
}

/// The state after the piece on cell `from` of the mover's mask went to the
/// free cell `to`.
fn relocated(state: &Board, from: u8, to: u8) -> (next: Board)
    requires
        from < 8,
        to < 8,
        state@.target(from as int) == Some(to as int),
    ensures
        next@ == state@.relocate(from as int, to as int),
        state.wf() ==> next.wf(),
{
    let next = match state.turn {
        Side::Frog => Board {
            frog: state.frog ^ (1u8 << from) ^ (1u8 << to),
            toad: state.toad,
            turn: state.turn.opponent(),
        },
        Side::Toad => Board {
            frog: state.frog,
            toad: state.toad ^ (1u8 << from) ^ (1u8 << to),
            turn: state.turn.opponent(),
        },
    };
    proof {
        match state.turn {
            Side::Frog => lemma_relocate(state.frog, from, to),
            Side::Toad => lemma_relocate(state.toad, from, to),
        }
        lemma_disjoint(state.frog, state.toad);
        lemma_disjoint(next.frog, next.toad);
    }
    next
}

/// Whether cell `i` is free of both sides.
fn is_vacant(state: &Board, i: u8) -> (free: bool)
    requires
        i < 8,
    ensures
        free == state@.vacant(i as int),
{
    proof {
        lemma_union_marked(state.frog, state.toad, i);
    }
    (state.frog | state.toad) & (1u8 << i) == 0
}

/// The legal moves of the side to move, as the states they lead to, by
/// ascending source cell. A piece slides one cell forward where that cell
/// is free; else it jumps over one piece of the other side where the cell
/// behind that piece is free. Frogs move down and never from cell 0 or 1;
/// toads move up and never from cell 6 or 7.
pub fn generate_moves(state: &Board) -> (moves: Vec<Board>)
    ensures
        positions(moves@) == state@.successors(),
        state.wf() ==> forall|k: int| 0 <= k < moves.len() ==> (#[trigger] moves[k]).wf(),
        forall|k: int|
            0 <= k < moves.len() ==> {
                &&& (#[trigger] moves[k])@.frogs.len() == state@.frogs.len()
                &&& moves[k]@.toads.len() == state@.toads.len()
                &&& moves[k]@.piece_count() == state@.piece_count()
                &&& moves[k].turn == state.turn.other()
            },
{
    let f_bits = state.frog;
    let t_bits = state.toad;
    let mut possible_moves: Vec<Board> = Vec::new();
    match state.turn {
        Side::Frog => {
            assert(state@.successors_below(2) =~= Seq::<Position>::empty()) by {
                reveal_with_fuel(Position::successors_below, 3);
            }
            assert(positions(possible_moves@) =~= Seq::<Position>::empty());
            let mut i: u8 = 2;
            while i < 8
                invariant
                    2 <= i <= 8,
                    state.turn == Side::Frog,
                    f_bits == state.frog,
                    t_bits == state.toad,
                    positions(possible_moves@) == state@.successors_below(i as int),
                    state.wf() ==> forall|k: int|
                        0 <= k < possible_moves.len() ==> (#[trigger] possible_moves[k]).wf(),
                decreases 8 - i,
            {
                let ghost before = possible_moves@;
                if f_bits & (1u8 << i) != 0 {
                    if is_vacant(state, i - 1) {
                        let next = relocated(state, i, i - 1);
                        possible_moves.push(next);
                        assert(positions(possible_moves@) =~= positions(before).push(next@));
                    } else if i >= 2 && t_bits & (1u8 << (i - 1)) != 0 && is_vacant(state, i - 2) {
                        let next = relocated(state, i, i - 2);
                        possible_moves.push(next);
                        assert(positions(possible_moves@) =~= positions(before).push(next@));
                    }
                }
                i += 1;
            }
        },
        Side::Toad => {
            assert(positions(possible_moves@) =~= Seq::<Position>::empty());
            let mut i: u8 = 0;
            while i <= 5
                invariant
                    0 <= i <= 6,
                    state.turn == Side::Toad,
                    f_bits == state.frog,
                    t_bits == state.toad,
                    positions(possible_moves@) == state@.successors_below(i as int),
                    state.wf() ==> forall|k: int|
                        0 <= k < possible_moves.len() ==> (#[trigger] possible_moves[k]).wf(),
                decreases 6 - i,
            {
                let ghost before = possible_moves@;
                if t_bits & (1u8 << i) != 0 {
                    if is_vacant(state, i + 1) {
                        let next = relocated(state, i, i + 1);
                        possible_moves.push(next);
                        assert(positions(possible_moves@) =~= positions(before).push(next@));
                    } else if i <= 5 && f_bits & (1u8 << (i + 1)) != 0 && is_vacant(state, i + 2) {
                        let next = relocated(state, i, i + 2);
                        possible_moves.push(next);
                        assert(positions(possible_moves@) =~= positions(before).push(next@));
                    }
                }
                i += 1;
            }
            assert(state@.successors_below(8) == state@.successors_below(6)) by {
                reveal_with_fuel(Position::successors_below, 3);
            }
        },
    }
    proof {
        lemma_cells_finite(state.frog);
        lemma_cells_finite(state.toad);
        assert forall|k: int| 0 <= k < possible_moves.len() implies {
            &&& (#[trigger] possible_moves[k])@.frogs.len() == state@.frogs.len()
            &&& possible_moves[k]@.toads.len() == state@.toads.len()
            &&& possible_moves[k]@.piece_count() == state@.piece_count()
            &&& possible_moves[k].turn == state.turn.other()
        } by {
            assert(positions(possible_moves@)[k] == possible_moves[k]@);
            lemma_successors_keep_invariants(state@, k);
            lemma_successor_is_step(state@, 8, k);
        }
    }
    possible_moves
}

/// A board is determined by the position it stands for.
pub proof fn lemma_view_determines_board(a: Board, b: Board)
    requires
        a@ == b@,
    ensures
        a == b,
{
    lemma_cells_determine_mask(a.frog, b.frog);
    lemma_cells_determine_mask(a.toad, b.toad);
}

/// The position of a board has finitely many pieces, all on the eight
/// cells, so what is proved of such positions holds of every board.
pub proof fn lemma_view_on_board(b: Board)
    ensures
        b@.on_board(),
        b@.frogs.finite(),
        b@.toads.finite(),
        b@.piece_count() <= 16,
{
    lemma_cells_finite(b.frog);
    lemma_cells_finite(b.toad);
}

/// The masks of a board share no bit exactly when the two sets of its
/// position are disjoint.
pub proof fn lemma_wf_is_disjoint(b: Board)
    ensures
        b.wf() == b@.disjoint(),
{
    lemma_disjoint(b.frog, b.toad);
}

} // verus!
