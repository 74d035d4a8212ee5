//! The game as mathematics: a position is two sets of cells and the side to
//! move. Everything the executable code promises is stated over this model.

use vstd::prelude::*;

verus! {

/// One of the two sides. Frogs move toward cell 0, toads toward cell 7.
#[derive(Clone, Copy, PartialEq, Eq, Structural, Debug)]
pub enum Side {
    Frog,
    Toad,
}

impl Side {
    /// The side that moves after this one.
    pub open spec fn other(self) -> Side {
        match self {
            Side::Frog => Side::Toad,
            Side::Toad => Side::Frog,
        }
    }

    /// The score of a position in which this side is to move and cannot:
    /// -10 for the frogs, +10 for the toads.
    pub open spec fn loss(self) -> int {
        match self {
            Side::Frog => -10,
            Side::Toad => 10,
        }
    }

    /// The better of two scores for this side: the frogs take the greater,
    /// the toads the smaller.
    pub open spec fn prefer(self, a: int, b: int) -> int {
        match self {
            Side::Frog => if a >= b { a } else { b },
            Side::Toad => if a <= b { a } else { b },
        }
    }

    /// The side that moves after this one.
    pub fn opponent(self) -> (next: Side)
        ensures
            next == self.other(),
    {
        match self {
            Side::Frog => Side::Toad,
            Side::Toad => Side::Frog,
        }
    }
}

/// A position: the cells that hold a frog, the cells that hold a toad, and
/// the side to move.
pub struct Position {
    pub frogs: Set<int>,
    pub toads: Set<int>,
    pub mover: Side,
}

/// The best score for `mover` among `scores`: the loss of `mover` where
/// there is none, else the greatest (frogs) or the smallest (toads).
pub open spec fn best_score(mover: Side, scores: Seq<int>) -> int
    decreases scores.len(),
{
    if scores.len() == 0 {
        mover.loss()
    } else if scores.len() == 1 {
        scores[0]
    } else {
        mover.prefer(best_score(mover, scores.drop_last()), scores.last())
    }
}

impl Position {
    /// Every piece stands on one of the eight cells.
    pub open spec fn on_board(self) -> bool {
        &&& forall|i: int| self.frogs.contains(i) ==> 0 <= i < 8
        &&& forall|i: int| self.toads.contains(i) ==> 0 <= i < 8
    }

    /// No cell holds a frog and a toad at once.
    pub open spec fn disjoint(self) -> bool {
        self.frogs.disjoint(self.toads)
    }

    /// Neither side has a piece on cell `i`.
    pub open spec fn vacant(self, i: int) -> bool {
        !self.frogs.contains(i) && !self.toads.contains(i)
    }

    /// Where the frog on cell `i` may go: one cell down if that cell is
    /// vacant; else two cells down, over a toad, if that cell is vacant. A
    /// frog on cell 0 or 1 does not move.
    pub open spec fn frog_target(self, i: int) -> Option<int> {
        if 2 <= i < 8 && self.frogs.contains(i) {
            if self.vacant(i - 1) {
                Some(i - 1)
            } else if self.toads.contains(i - 1) && self.vacant(i - 2) {
                Some(i - 2)
            } else {
                None
            }
        } else {
            None
        }
    }

    /// Where the toad on cell `i` may go: one cell up if that cell is
    /// vacant; else two cells up, over a frog, if that cell is vacant. A
    /// toad on cell 6 or 7 does not move.
    pub open spec fn toad_target(self, i: int) -> Option<int> {
        if 0 <= i <= 5 && self.toads.contains(i) {
            if self.vacant(i + 1) {
                Some(i + 1)
            } else if self.frogs.contains(i + 1) && self.vacant(i + 2) {
                Some(i + 2)
            } else {
                None
            }
        } else {
            None
        }
    }

    /// The cell that the mover's piece on cell `i` may go to, if any.
    pub open spec fn target(self, i: int) -> Option<int> {
        match self.mover {
            Side::Frog => self.frog_target(i),
            Side::Toad => self.toad_target(i),
        }
    }

    /// The position after the mover's piece on cell `from` went to cell
    /// `to`: that piece stands elsewhere, nothing else moved, nothing was
    /// taken, and the other side is to move.
    pub open spec fn relocate(self, from: int, to: int) -> Position {
        match self.mover {
            Side::Frog => Position {
                frogs: self.frogs.remove(from).insert(to),
                toads: self.toads,
                mover: Side::Toad,
            },
            Side::Toad => Position {
                frogs: self.frogs,
                toads: self.toads.remove(from).insert(to),
                mover: Side::Frog,
            },
        }
    }

    /// The successor that the piece on cell `i` contributes: at most one.
    pub open spec fn step(self, i: int) -> Option<Position> {
        match self.target(i) {
            Some(to) => Some(self.relocate(i, to)),
            None => None,
        }
    }

    /// The successors contributed by the cells below `n`, by ascending cell.
    pub open spec fn successors_below(self, n: int) -> Seq<Position>
        decreases n,
    {
        if n <= 0 {
            Seq::empty()
        } else {
            match self.step(n - 1) {
                Some(next) => self.successors_below(n - 1).push(next),
                None => self.successors_below(n - 1),
            }
        }
    }

    /// The positions one legal move away, by ascending source cell.
    pub open spec fn successors(self) -> Seq<Position> {
        self.successors_below(8)
    }

    /// The mover has no legal move.
    pub open spec fn is_terminal(self) -> bool {
        self.successors().len() == 0
    }

    /// The number of pieces on the board, both sides together.
    pub open spec fn piece_count(self) -> nat {
        self.frogs.len() + self.toads.len()
    }

    /// The position reached by moving, in turn, the mover's piece on each
    /// cell of `path`; `None` where one of these moves is not legal.
    pub open spec fn play(self, path: Seq<int>) -> Option<Position>
        decreases path.len(),
    {
        if path.len() == 0 {
            Some(self)
        } else {
            match self.step(path[0]) {
                Some(next) => next.play(path.drop_first()),
                None => None,
            }
        }
    }

    /// The character that shows cell `i`: `F` for a frog, `T` for a toad,
    /// `x` for a free cell.
    pub open spec fn glyph(self, i: int) -> char {
        if self.frogs.contains(i) {
            'F'
        } else if self.toads.contains(i) {
            'T'
        } else {
            'x'
        }
    }

    /// The board as seven characters: cell 7 first, cell 1 last. Cell 0 is
    /// not shown.
    pub open spec fn rendering(self) -> Seq<char> {
        Seq::new(7, |k: int| self.glyph(7 - k))
    }

    /// How far the piece or pieces on cell `i` can still travel at most: a
    /// frog `i` cells down, a toad `7 - i` cells up.
    pub open spec fn travel_at(self, i: int) -> nat {
        let down: nat = if self.frogs.contains(i) { i as nat } else { 0 };
        let up: nat = if self.toads.contains(i) { (7 - i) as nat } else { 0 };
        down + up
    }

    /// The sum of `travel_at` over the cells below `n`.
    pub open spec fn travel_below(self, n: int) -> nat
        decreases n,
    {
        if n <= 0 {
            0
        } else {
            self.travel_below(n - 1) + self.travel_at(n - 1)
        }
    }

    /// The distance that all pieces together can still travel. Every move
    /// makes it smaller, so no line of play is longer than this.
    pub open spec fn travel(self) -> nat {
        self.travel_below(8)
    }

    /// The values of the successors contributed by the cells below `n`, by
    /// ascending cell.
    pub open spec fn child_scores_below(self, n: int) -> Seq<int>
        decreases self.travel(), n,
        via Self::child_scores_terminate
    {
        if n <= 0 {
            Seq::empty()
        } else {
            match self.step(n - 1) {
                Some(next) => self.child_scores_below(n - 1).push(next.value()),
                None => self.child_scores_below(n - 1),
            }
        }
    }

    #[via_fn]
    proof fn child_scores_terminate(self, n: int) {
        if n > 0 && self.step(n - 1) is Some {
            lemma_step_shortens_travel(self, n - 1);
        }
    }

    /// The value of the position under best play by both sides: where the
    /// mover has no move, the mover's loss; else the best for the mover of
    /// the successors' values. It is +10 where the frogs win and -10 where
    /// the toads do.
    pub open spec fn value(self) -> int
        decreases self.travel(), 9int,  // above every cell bound of `child_scores_below`
    {
        best_score(self.mover, self.child_scores_below(8))
    }
}

/// How `travel_below` changes when the mover's piece on cell `from` goes to
/// the free cell `to`: the share of `from` leaves the sum and the share of
/// `to` enters it, each once `n` has passed the cell.
proof fn lemma_travel_below_relocate(p: Position, from: int, to: int, n: int)
    requires
        0 <= from < 8,
        0 <= to < 8,
        from != to,
        0 <= n <= 8,
        p.mover == Side::Frog ==> p.frogs.contains(from) && !p.frogs.contains(to),
        p.mover == Side::Toad ==> p.toads.contains(from) && !p.toads.contains(to),
    ensures
        p.mover == Side::Frog ==> p.relocate(from, to).travel_below(n) == p.travel_below(n) - (if from
            < n {
            from
        } else {
            0
        }) + (if to < n {
            to
        } else {
            0
        }),
        p.mover == Side::Toad ==> p.relocate(from, to).travel_below(n) == p.travel_below(n) - (if from
            < n {
            7 - from
        } else {
            0
        }) + (if to < n {
            7 - to
        } else {
            0
        }),
    decreases n,
{
    if n > 0 {
        lemma_travel_below_relocate(p, from, to, n - 1);
    }
}

/// Every move shortens the distance left to travel, by one cell (a slide) or
/// by two (a jump).
pub proof fn lemma_step_shortens_travel(p: Position, i: int)
    requires
        p.step(i) is Some,
    ensures
        p.step(i).unwrap().travel() < p.travel(),
        p.travel() - p.step(i).unwrap().travel() <= 2,
{
    lemma_travel_below_relocate(p, i, p.target(i).unwrap(), 8);
}

/// The child scores are the values of the successors, one for one.
pub proof fn lemma_child_scores(p: Position, n: int)
    ensures
        p.child_scores_below(n) == p.successors_below(n).map_values(|s: Position| s.value()),
    decreases n,
{
    let values = |s: Position| s.value();
    if n <= 0 {
        assert(p.child_scores_below(n) =~= p.successors_below(n).map_values(values));
    } else {
        lemma_child_scores(p, n - 1);
        assert(p.child_scores_below(n) =~= p.successors_below(n).map_values(values));
    }
}

/// Every successor comes from the move of one piece: it is `step(i)` for
/// some cell `i` below `n`.
pub proof fn lemma_successor_is_step(p: Position, n: int, k: int)
    requires
        0 <= k < p.successors_below(n).len(),
    ensures
        exists|i: int| 0 <= i < n && p.step(i) == Some(#[trigger] p.successors_below(n)[k]),
    decreases n,
{
    if n > 0 {
        if k < p.successors_below(n - 1).len() {
            lemma_successor_is_step(p, n - 1, k);
        } else {
            assert(p.step(n - 1) == Some(p.successors_below(n)[k]));
        }
    }
}

/// Every legal move of a piece is among the successors.
pub proof fn lemma_step_is_successor(p: Position, i: int)
    requires
        p.step(i) is Some,
    ensures
        p.successors().contains(p.step(i).unwrap()),
{
    lemma_step_within(p, i, 8);
}

proof fn lemma_step_within(p: Position, i: int, n: int)
    requires
        p.step(i) is Some,
        i < n,
    ensures
        p.successors_below(n).contains(p.step(i).unwrap()),
    decreases n,
{
    if i == n - 1 {
        assert(p.successors_below(n).last() == p.step(i).unwrap());
    } else {
        lemma_step_within(p, i, n - 1);
        let earlier = p.successors_below(n - 1);
        let next = p.step(i).unwrap();
        let k = choose|k: int| 0 <= k < earlier.len() && earlier[k] == next;
        assert(p.successors_below(n)[k] == next);
    }
}

/// The best of a sequence of scores that are all +10 or -10 is +10 or -10.
pub proof fn lemma_best_score_is_sentinel(mover: Side, scores: Seq<int>)
    requires
        forall|k: int| 0 <= k < scores.len() ==> scores[k] == 10 || scores[k] == -10,
    ensures
        best_score(mover, scores) == 10 || best_score(mover, scores) == -10,
    decreases scores.len(),
{
    if scores.len() > 1 {
        lemma_best_score_is_sentinel(mover, scores.drop_last());
    }
}

/// The value of every position is +10 or -10: there is no draw and no
/// score in between.
pub proof fn lemma_value_is_sentinel(p: Position)
    ensures
        p.value() == 10 || p.value() == -10,
    decreases p.travel(),
{
    let scores = p.child_scores_below(8);
    lemma_child_scores(p, 8);
    assert forall|k: int| 0 <= k < scores.len() implies scores[k] == 10 || scores[k] == -10 by {
        lemma_successor_is_step(p, 8, k);
        let i = choose|i: int| 0 <= i < 8 && p.step(i) == Some(p.successors_below(8)[k]);
        lemma_step_shortens_travel(p, i);
        lemma_value_is_sentinel(p.successors()[k]);
    }
    lemma_best_score_is_sentinel(p.mover, scores);
}

/// Where the mover has no move the mover has lost: the value is -10 with
/// the frogs to move and +10 with the toads to move.
pub proof fn lemma_terminal_value(p: Position)
    requires
        p.is_terminal(),
    ensures
        p.value() == p.mover.loss(),
        p.mover == Side::Frog ==> p.value() == -10,
        p.mover == Side::Toad ==> p.value() == 10,
{
    lemma_child_scores(p, 8);
}

/// A frog on cell 0 or 1 and a toad on cell 6 or 7 contribute no successor,
/// whatever stands around them.
pub proof fn lemma_boundary_pieces_stay(p: Position)
    ensures
        p.mover == Side::Frog ==> p.step(0) is None && p.step(1) is None,
        p.mover == Side::Toad ==> p.step(6) is None && p.step(7) is None,
{
}

/// A move keeps the pieces on the board and apart: where no cell held two
/// pieces before it, none does after it. The other side's pieces stay
/// where they were, and the turn passes.
pub proof fn lemma_step_keeps_disjoint(p: Position, i: int)
    requires
        p.step(i) is Some,
    ensures
        p.on_board() ==> p.step(i).unwrap().on_board(),
        p.disjoint() ==> p.step(i).unwrap().disjoint(),
        p.step(i).unwrap().mover == p.mover.other(),
        p.mover == Side::Frog ==> p.step(i).unwrap().toads == p.toads,
        p.mover == Side::Toad ==> p.step(i).unwrap().frogs == p.frogs,
{
}

/// A move neither adds nor removes a piece: each side has as many pieces
/// after it as before.
pub proof fn lemma_step_keeps_pieces(p: Position, i: int)
    requires
        p.frogs.finite(),
        p.toads.finite(),
        p.step(i) is Some,
    ensures
        p.step(i).unwrap().frogs.finite(),
        p.step(i).unwrap().toads.finite(),
        p.step(i).unwrap().frogs.len() == p.frogs.len(),
        p.step(i).unwrap().toads.len() == p.toads.len(),
        p.step(i).unwrap().piece_count() == p.piece_count(),
{
}

/// Every successor of a position has its pieces apart if the position has,
/// and as many pieces of each side.
pub proof fn lemma_successors_keep_invariants(p: Position, k: int)
    requires
        p.frogs.finite(),
        p.toads.finite(),
        0 <= k < p.successors().len(),
    ensures
        p.disjoint() ==> p.successors()[k].disjoint(),
        p.on_board() ==> p.successors()[k].on_board(),
        p.successors()[k].frogs.len() == p.frogs.len(),
        p.successors()[k].toads.len() == p.toads.len(),
        p.successors()[k].piece_count() == p.piece_count(),
        p.successors()[k].travel() < p.travel(),
{
    lemma_successor_is_step(p, 8, k);
    let i = choose|i: int| 0 <= i < 8 && p.step(i) == Some(p.successors_below(8)[k]);
    lemma_step_keeps_disjoint(p, i);
    lemma_step_keeps_pieces(p, i);
    lemma_step_shortens_travel(p, i);
}

/// Whatever is reached from a position by any number of legal moves has
/// its pieces apart if the position has, and as many pieces of each side.
/// No line of play has more moves than the distance that the pieces of the
/// position can travel.
pub proof fn lemma_play_keeps_invariants(p: Position, path: Seq<int>)
    requires
        p.frogs.finite(),
        p.toads.finite(),
        p.play(path) is Some,
    ensures
        p.disjoint() ==> p.play(path).unwrap().disjoint(),
        p.on_board() ==> p.play(path).unwrap().on_board(),
        p.play(path).unwrap().frogs.len() == p.frogs.len(),
        p.play(path).unwrap().toads.len() == p.toads.len(),
        p.play(path).unwrap().piece_count() == p.piece_count(),
        path.len() + p.play(path).unwrap().travel() <= p.travel(),
    decreases path.len(),
{
    if path.len() > 0 {
        let next = p.step(path[0]).unwrap();
        lemma_step_keeps_disjoint(p, path[0]);
        lemma_step_keeps_pieces(p, path[0]);
        lemma_step_shortens_travel(p, path[0]);
        lemma_play_keeps_invariants(next, path.drop_first());
    }
}

/// The distance left to travel is at most 56, seven for each cell, so no
/// line of play has more than 56 moves.
pub proof fn lemma_travel_bound(p: Position)
    ensures
        p.travel() <= 56,
{
    lemma_travel_below_bound(p, 8);
}

proof fn lemma_travel_below_bound(p: Position, n: int)
    requires
        0 <= n <= 8,
    ensures
        p.travel_below(n) <= 7 * n,
    decreases n,
{
    if n > 0 {
        lemma_travel_below_bound(p, n - 1);
    }
}

/// With the frogs to move, the value is at least the value of every
/// successor; with the toads to move, at most. Where there is a
/// successor, the value is the value of one of them.
pub proof fn lemma_value_is_best(p: Position)
    ensures
        forall|k: int|
            0 <= k < p.successors().len() ==> (p.mover == Side::Frog ==> p.value()
                >= #[trigger] p.successors()[k].value()) && (p.mover == Side::Toad ==> p.value()
                <= p.successors()[k].value()),
        !p.is_terminal() ==> exists|k: int|
            0 <= k < p.successors().len() && p.value() == #[trigger] p.successors()[k].value(),
{
    lemma_child_scores(p, 8);
    lemma_best_score_is_best(p.mover, p.child_scores_below(8));
    let scores = p.child_scores_below(8);
    assert forall|k: int| 0 <= k < p.successors().len() implies (p.mover == Side::Frog
        ==> p.value() >= #[trigger] p.successors()[k].value()) && (p.mover == Side::Toad
        ==> p.value() <= p.successors()[k].value()) by {
        assert(scores[k] == p.successors()[k].value());
    }
    if !p.is_terminal() {
        let k = choose|k: int| 0 <= k < scores.len() && best_score(p.mover, scores) == scores[k];
        assert(p.value() == p.successors()[k].value());
    }
}

/// The best of some scores is one of them, and no score is better for the
/// mover.
pub proof fn lemma_best_score_is_best(mover: Side, scores: Seq<int>)
    ensures
        forall|k: int|
            0 <= k < scores.len() ==> (mover == Side::Frog ==> best_score(mover, scores)
                >= #[trigger] scores[k]) && (mover == Side::Toad ==> best_score(mover, scores)
                <= scores[k]),
        scores.len() > 0 ==> exists|k: int|
            0 <= k < scores.len() && best_score(mover, scores) == #[trigger] scores[k],
    decreases scores.len(),
{
    if scores.len() == 1 {
        assert(best_score(mover, scores) == scores[0]);
    } else if scores.len() > 1 {
        let front = scores.drop_last();
        lemma_best_score_is_best(mover, front);
        let j = choose|j: int| 0 <= j < front.len() && best_score(mover, front) == front[j];
        assert(front[j] == scores[j]);
        assert forall|k: int| 0 <= k < scores.len() implies (mover == Side::Frog ==> best_score(
            mover,
            scores,
        ) >= #[trigger] scores[k]) && (mover == Side::Toad ==> best_score(mover, scores)
            <= scores[k]) by {
            if k < front.len() {
                assert(front[k] == scores[k]);
            }
        }
        if best_score(mover, scores) == scores.last() {
            assert(best_score(mover, scores) == scores[scores.len() - 1]);
        } else {
            assert(best_score(mover, scores) == scores[j]);
        }
    }
}

} // verus!
