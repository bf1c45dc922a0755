//! The board: the authoritative collection of figures, the round counter and
//! the pending selection.
//!
//! Captured figures stay in the collection as tombstones (`alive == false`),
//! so an index into `figures` is a stable identity. Occupancy queries scan the
//! live figures in collection order; a well-formed board has at most one live
//! figure per square, so the first match is the only one.

use vstd::prelude::*;

use crate::figure::Figure;
use crate::figure::FigureType;
use crate::position::coord_in_range;
use crate::position::in_bounds;
use crate::position::pos_at;
use crate::position::Position;

verus! {

/// The shared game board. `round` is the sole turn-parity signal: it goes up
/// by one after every completed move or capture. `last_interacted_position`
/// holds the square picked by a prior click, or `None` when no selection is
/// pending.
#[derive(Clone, Debug)]
pub struct Board {
    pub figures: Vec<Figure>,
    pub round: i32,
    pub last_interacted_position: Option<Position>,
}

/// Index `i` holds a live figure standing on `p`.
pub open spec fn live_at(figs: Seq<Figure>, p: Position, i: int) -> bool {
    figs[i].alive && figs[i].position == p
}

/// The least index `>= i` holding a live figure on `p`, or `figs.len()`
/// when there is none.
pub open spec fn first_live_from(figs: Seq<Figure>, p: Position, i: int) -> int
    decreases figs.len() - i,
{
    if i < 0 || i >= figs.len() {
        figs.len() as int
    } else if live_at(figs, p, i) {
        i
    } else {
        first_live_from(figs, p, i + 1)
    }
}

/// The least index holding a live figure on `p`, or `figs.len()` when the
/// square is empty.
pub open spec fn first_live(figs: Seq<Figure>, p: Position) -> int {
    first_live_from(figs, p, 0)
}

/// The figure an occupancy scan finds on `p`: the first live figure with
/// that position, if any.
pub open spec fn occupant(figs: Seq<Figure>, p: Position) -> Option<Figure> {
    if first_live(figs, p) < figs.len() {
        Some(figs[first_live(figs, p)])
    } else {
        None
    }
}

/// The square `p` holds a live figure.
pub open spec fn occupied(figs: Seq<Figure>, p: Position) -> bool {
    occupant(figs, p) is Some
}

/// What `first_live_from` finds: a live figure on `p` at the returned index,
/// none before it, and none at all when it returns `figs.len()`.
pub proof fn lemma_first_live_from(figs: Seq<Figure>, p: Position, i: int)
    requires
        0 <= i <= figs.len(),
    ensures
        i <= first_live_from(figs, p, i) <= figs.len(),
        first_live_from(figs, p, i) < figs.len() ==> live_at(figs, p, first_live_from(figs, p, i)),
        forall|j: int| i <= j < first_live_from(figs, p, i) ==> !live_at(figs, p, j),
    decreases figs.len() - i,
{
    if i < figs.len() && !live_at(figs, p, i) {
        lemma_first_live_from(figs, p, i + 1);
    }
}

/// What an occupancy scan of the whole collection finds.
pub proof fn lemma_first_live(figs: Seq<Figure>, p: Position)
    ensures
        0 <= first_live(figs, p) <= figs.len(),
        first_live(figs, p) < figs.len() ==> live_at(figs, p, first_live(figs, p)),
        forall|j: int| 0 <= j < first_live(figs, p) ==> !live_at(figs, p, j),
        occupied(figs, p) <==> exists|j: int| 0 <= j < figs.len() && live_at(figs, p, j),
{
    lemma_first_live_from(figs, p, 0);
    if first_live(figs, p) < figs.len() {
        assert(live_at(figs, p, first_live(figs, p)));
    }
}

/// Two collections whose entries match `p` at exactly the same indices are
/// scanned to the same first index.
pub proof fn lemma_first_live_same_matches(figs1: Seq<Figure>, figs2: Seq<Figure>, p: Position, i: int)
    requires
        figs1.len() == figs2.len(),
        forall|j: int| 0 <= j < figs1.len() ==> (live_at(figs1, p, j) <==> live_at(figs2, p, j)),
        0 <= i <= figs1.len(),
    ensures
        first_live_from(figs1, p, i) == first_live_from(figs2, p, i),
    decreases figs1.len() - i,
{
    if i < figs1.len() && !live_at(figs1, p, i) {
        lemma_first_live_same_matches(figs1, figs2, p, i + 1);
    }
}

/// Every live figure stands within reach of safe coordinate arithmetic.
/// Live figures of a well-formed board sit on the 8x8 board, which implies
/// this; the weaker form is what move generation itself needs.
pub open spec fn figures_in_range(figs: Seq<Figure>) -> bool {
    forall|i: int|
        0 <= i < figs.len() && figs[i].alive ==> coord_in_range(figs[i].position.x as int)
            && coord_in_range(figs[i].position.y as int)
}

/// The board's mathematical state: its figures, the round counter and the
/// pending selection, freed of the executable representation.
#[verifier::ext_equal]
pub ghost struct BoardState {
    pub figures: Seq<Figure>,
    pub round: int,
    pub selected: Option<Position>,
}

impl View for Board {
    type V = BoardState;

    open spec fn view(&self) -> BoardState {
        BoardState {
            figures: self.figures@,
            round: self.round as int,
            selected: self.last_interacted_position,
        }
    }
}

/// Board well-formedness: the round counter never went below zero, every
/// live figure stands on the board, no square holds two live figures, and a
/// pending selection points at a live figure. Established by `Board::init`
/// and preserved by every interaction.
pub open spec fn state_wf(b: BoardState) -> bool {
    &&& 0 <= b.round
    &&& forall|i: int|
        0 <= i < b.figures.len() && b.figures[i].alive ==> in_bounds(b.figures[i].position)
    &&& forall|i: int, j: int|
        0 <= i < b.figures.len() && 0 <= j < b.figures.len() && i != j && b.figures[i].alive
            && b.figures[j].alive ==> b.figures[i].position != b.figures[j].position
    &&& match b.selected {
        Some(p) => occupied(b.figures, p),
        None => true,
    }
}

/// The back-rank kind standing on file `x` in the initial position.
pub open spec fn back_rank_kind(x: int) -> FigureType {
    if x == 0 || x == 7 {
        FigureType::Rook
    } else if x == 1 || x == 6 {
        FigureType::Knight
    } else if x == 2 || x == 5 {
        FigureType::Bishop
    } else if x == 3 {
        FigureType::Queen
    } else {
        FigureType::King
    }
}

/// The figure stored at index `i` by board initialization: the white back
/// rank first, then the black back rank, then for each file a white and a
/// black pawn.
pub open spec fn init_figure(i: int) -> Figure {
    if 0 <= i < 8 {
        Figure {
            kind: back_rank_kind(i),
            position: pos_at(i, 0),
            white: true,
            alive: true,
            first_move: true,
        }
    } else if 8 <= i < 16 {
        Figure {
            kind: back_rank_kind(i - 8),
            position: pos_at(i - 8, 7),
            white: false,
            alive: true,
            first_move: true,
        }
    } else {
        let file = (i - 16) / 2;
        if (i - 16) % 2 == 0 {
            Figure {
                kind: FigureType::Pawn,
                position: pos_at(file, 1),
                white: true,
                alive: true,
                first_move: true,
            }
        } else {
            Figure {
                kind: FigureType::Pawn,
                position: pos_at(file, 6),
                white: false,
                alive: true,
                first_move: true,
            }
        }
    }
}

/// The full initial collection: 32 figures in initialization order.
pub open spec fn init_figures() -> Seq<Figure> {
    Seq::new(32, |i: int| init_figure(i))
}

/// Distinct slots of the initial collection hold figures on distinct squares.
proof fn lemma_init_positions_distinct(a: int, b: int)
    requires
        0 <= a < 32,
        0 <= b < 32,
        a != b,
    ensures
        init_figure(a).position != init_figure(b).position,
{
    assert((a - 16) == 2 * ((a - 16) / 2) + ((a - 16) % 2));
    assert((b - 16) == 2 * ((b - 16) / 2) + ((b - 16) % 2));
}

impl Board {
    /// The board is well formed (see `state_wf`).
    pub open spec fn wf(self) -> bool {
        state_wf(self@)
    }

    /// Resolves a square to the index of the live figure standing on it.
    ///
    /// Mutation paths resolve a position to an index first and re-resolve
    /// before each mutation step, rather than holding a reference across the
    /// lookup-then-mutate sequence.
    pub fn find_live_index(&self, position: Position) -> (r: Option<usize>)
        ensures
            match r {
                Some(i) => i == first_live(self.figures@, position) && i < self.figures@.len(),
                None => first_live(self.figures@, position) == self.figures@.len(),
            },
    {
        proof {
            lemma_first_live(self.figures@, position);
        }
        let n = self.figures.len();
        let mut i: usize = 0;
        while i < n
            invariant
                0 <= i <= n,
                n == self.figures@.len(),
                forall|j: int| 0 <= j < i ==> !live_at(self.figures@, position, j),
                first_live(self.figures@, position) >= i,
            decreases n - i,
        {
            let f = &self.figures[i];
            if f.alive && f.position == position {
                proof {
                    lemma_first_live(self.figures@, position);
                    assert(live_at(self.figures@, position, i as int));
                }
                return Some(i);
            }
            proof {
                lemma_first_live(self.figures@, position);
                if first_live(self.figures@, position) == i as int {
                    assert(live_at(self.figures@, position, i as int));
                    assert(false);
                }
            }
            i = i + 1;
        }
        None
    }

    /// The live figure standing on `position`, if any: a linear scan over the
    /// live figures, first match.
    pub fn occupied_by(&self, position: Position) -> (r: Option<&Figure>)
        ensures
            match r {
                Some(f) => occupant(self.figures@, position) == Some(*f),
                None => occupant(self.figures@, position) is None,
            },
    {
        match self.find_live_index(position) {
            Some(i) => Some(&self.figures[i]),
            None => None,
        }
    }

    /// Same lookup as `occupied_by`, under the interaction handler's name.
    pub fn get_figure_from_position(&self, position: Position) -> (r: Option<&Figure>)
        ensures
            match r {
                Some(f) => occupant(self.figures@, position) == Some(*f),
                None => occupant(self.figures@, position) is None,
            },
    {
        self.occupied_by(position)
    }

    /// Mutable variant of the lookup: a reference to the live figure on
    /// `position`. The rest of the board is untouched; whatever the caller
    /// writes through the reference becomes that figure's new state.
    pub fn get_figure_from_position_mut(&mut self, position: Position) -> (r: Option<&mut Figure>)
        ensures
            match r {
                Some(f) => {
                    &&& occupant(old(self).figures@, position) == Some(*f)
                    &&& final(self).figures@ == old(self).figures@.update(
                        first_live(old(self).figures@, position),
                        *final(f),
                    )
                    &&& final(self).round == old(self).round
                    &&& final(self).last_interacted_position == old(self).last_interacted_position
                },
                None => {
                    &&& occupant(old(self).figures@, position) is None
                    &&& *final(self) == *old(self)
                },
            },
    {
        match self.find_live_index(position) {
            Some(i) => {
                proof {
                    assert(self.figures@ =~= self.figures@.update(i as int, self.figures@[i as int]));
                }
                Some(&mut self.figures[i])
            },
            None => None,
        }
    }

    /// Sets up the standard initial position: both back ranks, then for each
    /// file a white and a black pawn, with the round at zero and no pending
    /// selection.
    pub fn init() -> (r: Board)
        ensures
            r.figures@ == init_figures(),
            r.round == 0,
            r.last_interacted_position is None,
            r.wf(),
    {
        let mut fig: Vec<Figure> = Vec::new();
        fig.push(Figure::new(FigureType::Rook, Position::new(0, 0), true, true));
        fig.push(Figure::new(FigureType::Knight, Position::new(1, 0), true, true));
        fig.push(Figure::new(FigureType::Bishop, Position::new(2, 0), true, true));
        fig.push(Figure::new(FigureType::Queen, Position::new(3, 0), true, true));
        fig.push(Figure::new(FigureType::King, Position::new(4, 0), true, true));
        fig.push(Figure::new(FigureType::Bishop, Position::new(5, 0), true, true));
        fig.push(Figure::new(FigureType::Knight, Position::new(6, 0), true, true));
        fig.push(Figure::new(FigureType::Rook, Position::new(7, 0), true, true));
        fig.push(Figure::new(FigureType::Rook, Position::new(0, 7), false, true));
        fig.push(Figure::new(FigureType::Knight, Position::new(1, 7), false, true));
        fig.push(Figure::new(FigureType::Bishop, Position::new(2, 7), false, true));
        fig.push(Figure::new(FigureType::Queen, Position::new(3, 7), false, true));
        fig.push(Figure::new(FigureType::King, Position::new(4, 7), false, true));
        fig.push(Figure::new(FigureType::Bishop, Position::new(5, 7), false, true));
        fig.push(Figure::new(FigureType::Knight, Position::new(6, 7), false, true));
        fig.push(Figure::new(FigureType::Rook, Position::new(7, 7), false, true));
        assert(forall|j: int| 0 <= j < 16 ==> fig@[j] == init_figure(j)) by {
            assert(fig@[0] == init_figure(0));
            assert(fig@[1] == init_figure(1));
            assert(fig@[2] == init_figure(2));
            assert(fig@[3] == init_figure(3));
            assert(fig@[4] == init_figure(4));
            assert(fig@[5] == init_figure(5));
            assert(fig@[6] == init_figure(6));
            assert(fig@[7] == init_figure(7));
            assert(fig@[8] == init_figure(8));
            assert(fig@[9] == init_figure(9));
            assert(fig@[10] == init_figure(10));
            assert(fig@[11] == init_figure(11));
            assert(fig@[12] == init_figure(12));
            assert(fig@[13] == init_figure(13));
            assert(fig@[14] == init_figure(14));
            assert(fig@[15] == init_figure(15));
        }
        let mut i: i32 = 0;
        while i < 8
            invariant
                0 <= i <= 8,
                fig@.len() == 16 + 2 * i,
                forall|j: int| 0 <= j < fig@.len() ==> fig@[j] == init_figure(j),
            decreases 8 - i,
        {
            proof {
                assert((2 * (i as int)) / 2 == i as int);
                assert((2 * (i as int)) % 2 == 0);
                assert((2 * (i as int) + 1) / 2 == i as int);
                assert((2 * (i as int) + 1) % 2 == 1);
            }
            fig.push(Figure::new(FigureType::Pawn, Position::new(i, 1), true, true));
            fig.push(Figure::new(FigureType::Pawn, Position::new(i, 6), false, true));
            i = i + 1;
        }
        let r = Board { round: 0, figures: fig, last_interacted_position: None };
        proof {
            assert(r.figures@ =~= init_figures());
            assert forall|a: int, b: int|
                0 <= a < r.figures@.len() && 0 <= b < r.figures@.len() && a != b
                    && r.figures@[a].alive && r.figures@[b].alive implies r.figures@[a].position
                != r.figures@[b].position by {
                lemma_init_positions_distinct(a, b);
            }
            assert(forall|j: int|
                0 <= j < r.figures@.len() && r.figures@[j].alive ==> in_bounds(
                    r.figures@[j].position,
                ));
        }
        r
    }
}

} // verus!
