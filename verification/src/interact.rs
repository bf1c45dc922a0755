//! The click-driven interaction state machine.
//!
//! One external event exists: "square clicked at `(x, y)`". With no pending
//! selection, clicking a live figure whose side is to move selects its
//! square; any other click is ignored. With a pending selection, the
//! selected figure's move options are recomputed, clipped to the board, and
//! the clicked square decides: a movable square relocates the figure, a
//! killable square captures the occupant and relocates the figure, anything
//! else mutates nothing. A second click always clears the selection, and a
//! completed move or capture advances the round by one. Invalid clicks —
//! wrong turn, empty square, out-of-range coordinates — are silently
//! absorbed as no-ops.

use vstd::prelude::*;

use crate::board::figures_in_range;
use crate::board::first_live;
use crate::board::lemma_first_live;
use crate::board::lemma_first_live_same_matches;
use crate::board::live_at;
use crate::board::occupant;
use crate::board::occupied;
use crate::board::state_wf;
use crate::board::Board;
use crate::board::BoardState;
use crate::figure::killed;
use crate::figure::moved_to;
use crate::figure::Figure;
use crate::laws::lemma_killable_holds_opponent;
use crate::laws::lemma_movable_is_empty;
use crate::moves::contains_position;
use crate::moves::keep_in_bounds;
use crate::moves::killable_spec;
use crate::moves::lemma_keep_in_bounds_contains;
use crate::moves::movable_spec;
use crate::moves::MoveOptions;
use crate::position::coord_in_range;
use crate::position::in_bounds;
use crate::position::Position;
use crate::turn::is_figures_turn;
use crate::turn::side_to_move;

verus! {

/// The state after a first click on `p`: the square is selected exactly
/// when a live figure stands there and its side is to move.
pub open spec fn select_step(b: BoardState, p: Position) -> BoardState {
    match occupant(b.figures, p) {
        Some(f) => if side_to_move(f.white, b.round) {
            BoardState { selected: Some(p), ..b }
        } else {
            b
        },
        None => b,
    }
}

/// The state after a second click on `target` with `origin` selected. The
/// selection always clears. When the clicked square is one of the origin
/// figure's clipped movable squares, that figure relocates and the round
/// advances; when it is a clipped killable square, the occupant dies first
/// and the figure relocates onto it; otherwise nothing else changes. The
/// inner fallbacks (no live figure on `origin` or on a killable `target`)
/// cannot be reached from a well-formed board.
pub open spec fn resolve_step(b: BoardState, origin: Position, target: Position) -> BoardState {
    let cleared = BoardState { selected: None, ..b };
    let oi = first_live(b.figures, origin);
    if oi == b.figures.len() {
        cleared
    } else {
        let mover = b.figures[oi];
        if movable_spec(mover, b.figures).contains(target) && in_bounds(target) {
            BoardState {
                figures: b.figures.update(oi, moved_to(mover, target)),
                round: b.round + 1,
                selected: None,
            }
        } else if killable_spec(mover, b.figures).contains(target) && in_bounds(target) {
            let ti = first_live(b.figures, target);
            if ti < b.figures.len() {
                let after_kill = b.figures.update(ti, killed(b.figures[ti]));
                let oi2 = first_live(after_kill, origin);
                if oi2 < after_kill.len() {
                    BoardState {
                        figures: after_kill.update(oi2, moved_to(after_kill[oi2], target)),
                        round: b.round + 1,
                        selected: None,
                    }
                } else {
                    cleared
                }
            } else {
                cleared
            }
        } else {
            cleared
        }
    }
}

/// The full transition of the interaction state machine for one click.
pub open spec fn click_step(b: BoardState, x: i32, y: i32) -> BoardState {
    let p = Position { x, y };
    match b.selected {
        None => select_step(b, p),
        Some(origin) => resolve_step(b, origin, p),
    }
}

/// The click completes a move or a capture: a selection is pending, a live
/// figure stands on it, and the clicked square is an on-board entry of that
/// figure's `movable` or `killable` set.
pub open spec fn click_applies(b: BoardState, x: i32, y: i32) -> bool {
    let p = Position { x, y };
    match b.selected {
        Some(origin) => {
            let oi = first_live(b.figures, origin);
            &&& oi < b.figures.len()
            &&& in_bounds(p)
            &&& (movable_spec(b.figures[oi], b.figures).contains(p) || killable_spec(
                b.figures[oi],
                b.figures,
            ).contains(p))
        },
        None => false,
    }
}

/// On a well-formed board, a capture target resolves cleanly: the target
/// square holds a live opponent at an index other than the mover's, the
/// target differs from the origin, and killing the occupant leaves the
/// mover's index unchanged.
proof fn lemma_capture_indices(figs: Seq<Figure>, origin: Position, target: Position)
    requires
        forall|i: int, j: int|
            0 <= i < figs.len() && 0 <= j < figs.len() && i != j && figs[i].alive && figs[j].alive
                ==> figs[i].position != figs[j].position,
        occupied(figs, origin),
        killable_spec(figs[first_live(figs, origin)], figs).contains(target),
    ensures
        0 <= first_live(figs, target) < figs.len(),
        0 <= first_live(figs, origin) < figs.len(),
        figs[first_live(figs, target)].white != figs[first_live(figs, origin)].white,
        target != origin,
        first_live(figs, target) != first_live(figs, origin),
        first_live(
            figs.update(first_live(figs, target), killed(figs[first_live(figs, target)])),
            origin,
        ) == first_live(figs, origin),
        forall|idx: int|
            0 <= idx < figs.len() && idx != first_live(figs, target) ==> figs[idx].alive
                ==> figs[idx].position != target,
{
    let oi = first_live(figs, origin);
    lemma_first_live(figs, origin);
    let mover = figs[oi];
    lemma_killable_holds_opponent(figs, mover, target);
    lemma_first_live(figs, target);
    let ti = first_live(figs, target);
    let victim = figs[ti];
    assert(victim.white != mover.white);
    if target == origin {
        if ti == oi {
            assert(victim == mover);
            assert(false);
        } else {
            assert(figs[ti].position == target && figs[oi].position == origin);
            assert(false);
        }
    }
    assert(ti != oi);
    let ak = figs.update(ti, killed(victim));
    assert forall|idx: int| 0 <= idx < figs.len() implies (live_at(figs, origin, idx) <==> live_at(
        ak,
        origin,
        idx,
    )) by {
        if idx == ti {
            assert(figs[ti].position == target);
            assert(!live_at(figs, origin, ti));
            assert(!ak[ti].alive);
        }
    }
    lemma_first_live_same_matches(figs, ak, origin, 0);
    assert forall|idx: int|
        0 <= idx < figs.len() && idx != ti && figs[idx].alive implies figs[idx].position
        != target by {
        if figs[idx].position == target {
            assert(figs[idx].position == figs[ti].position);
        }
    }
}

/// A completed move or capture advances the round by exactly one; every
/// other click leaves both the round and the figures untouched. In
/// particular the round never decreases.
pub proof fn lemma_round_monotone(b: BoardState, x: i32, y: i32)
    requires
        state_wf(b),
    ensures
        b.round <= click_step(b, x, y).round <= b.round + 1,
        click_step(b, x, y).round == b.round + 1 <==> click_applies(b, x, y),
        click_step(b, x, y).round == b.round ==> click_step(b, x, y).figures == b.figures,
{
    let p = Position { x, y };
    match b.selected {
        None => {
            assert(click_step(b, x, y).round == b.round);
            assert(!click_applies(b, x, y));
        },
        Some(origin) => {
            lemma_first_live(b.figures, origin);
            let oi = first_live(b.figures, origin);
            assert(0 <= oi < b.figures.len());
            let mover = b.figures[oi];
            if movable_spec(mover, b.figures).contains(p) && in_bounds(p) {
                assert(click_step(b, x, y).round == b.round + 1);
                assert(click_applies(b, x, y));
            } else if killable_spec(mover, b.figures).contains(p) && in_bounds(p) {
                lemma_capture_indices(b.figures, origin, p);
                assert(click_step(b, x, y).round == b.round + 1);
                assert(click_applies(b, x, y));
            } else {
                assert(click_step(b, x, y).round == b.round);
                assert(!click_applies(b, x, y));
            }
        },
    }
}

/// Every click preserves board well-formedness: live figures stay on the
/// board, no square ever holds two live figures, and a pending selection
/// keeps pointing at a live figure.
pub proof fn lemma_click_step_preserves_wf(b: BoardState, x: i32, y: i32)
    requires
        state_wf(b),
    ensures
        state_wf(click_step(b, x, y)),
{
    let p = Position { x, y };
    match b.selected {
        None => {},
        Some(origin) => {
            lemma_first_live(b.figures, origin);
            let oi = first_live(b.figures, origin);
            let mover = b.figures[oi];
            if movable_spec(mover, b.figures).contains(p) && in_bounds(p) {
                lemma_movable_is_empty(b.figures, mover, p);
                lemma_first_live(b.figures, p);
                let fs = b.figures.update(oi, moved_to(mover, p));
                assert forall|i: int, j: int|
                    0 <= i < fs.len() && 0 <= j < fs.len() && i != j && fs[i].alive
                        && fs[j].alive implies fs[i].position != fs[j].position by {
                    if i == oi {
                        assert(live_at(b.figures, p, j) == false);
                    } else if j == oi {
                        assert(live_at(b.figures, p, i) == false);
                    }
                }
                assert forall|i: int| 0 <= i < fs.len() && fs[i].alive implies in_bounds(
                    fs[i].position,
                ) by {
                    if i != oi {
                        assert(fs[i] == b.figures[i]);
                    }
                }
            } else if killable_spec(mover, b.figures).contains(p) && in_bounds(p) {
                lemma_capture_indices(b.figures, origin, p);
                let ti = first_live(b.figures, p);
                let ak = b.figures.update(ti, killed(b.figures[ti]));
                let fs = ak.update(oi, moved_to(mover, p));
                assert(!fs[ti].alive);
                assert forall|i: int, j: int|
                    0 <= i < fs.len() && 0 <= j < fs.len() && i != j && fs[i].alive
                        && fs[j].alive implies fs[i].position != fs[j].position by {
                    if i == oi {
                        assert(j != ti);
                        assert(fs[j] == b.figures[j]);
                        assert(fs[i].position == p);
                    } else if j == oi {
                        assert(i != ti);
                        assert(fs[i] == b.figures[i]);
                        assert(fs[j].position == p);
                    } else {
                        assert(i != ti && j != ti);
                        assert(fs[i] == b.figures[i] && fs[j] == b.figures[j]);
                    }
                }
                assert forall|i: int| 0 <= i < fs.len() && fs[i].alive implies in_bounds(
                    fs[i].position,
                ) by {
                    if i != oi && i != ti {
                        assert(fs[i] == b.figures[i]);
                    }
                }
            } else {
            }
        },
    }
}

impl Board {
    /// Feeds one click at `(x, y)` into the interaction state machine and
    /// applies its transition to the board.
    pub fn position_interaction(&mut self, x: i32, y: i32)
        requires
            old(self).wf(),
            old(self).round < i32::MAX,
        ensures
            final(self)@ == click_step(old(self)@, x, y),
            final(self).wf(),
    {
        proof {
            lemma_click_step_preserves_wf(self@, x, y);
        }
        let p = Position::new(x, y);
        match self.last_interacted_position {
            Some(last_pos) => {
                match self.find_live_index(last_pos) {
                    Some(oi) => {
                        let mover = self.figures[oi];
                        proof {
                            lemma_first_live(self.figures@, last_pos);
                            assert(live_at(self.figures@, last_pos, oi as int));
                            assert(in_bounds(mover.position));
                            assert(coord_in_range(mover.position.x as int));
                            assert(coord_in_range(mover.position.y as int));
                            lemma_keep_in_bounds_contains(
                                movable_spec(mover, self.figures@),
                                p,
                            );
                            lemma_keep_in_bounds_contains(
                                killable_spec(mover, self.figures@),
                                p,
                            );
                        }
                        let options = mover.get_move_options(self).remove_out_of_bounds_options();
                        if contains_position(&options.movable, p) {
                            let mut m = self.figures[oi];
                            m.set_position(x, y);
                            self.figures.set(oi, m);
                            self.round = self.round + 1;
                            self.last_interacted_position = None;
                        } else if contains_position(&options.killable, p) {
                            proof {
                                lemma_capture_indices(old(self).figures@, last_pos, p);
                            }
                            match self.find_live_index(p) {
                                Some(ti) => {
                                    let mut victim = self.figures[ti];
                                    victim.alive = false;
                                    self.figures.set(ti, victim);
                                },
                                None => {
                                    // Unreachable: a killable square holds a live opponent.
                                    proof {
                                        assert(false);
                                    }
                                },
                            }
                            match self.find_live_index(last_pos) {
                                Some(oi2) => {
                                    let mut m = self.figures[oi2];
                                    m.set_position(x, y);
                                    self.figures.set(oi2, m);
                                },
                                None => {
                                    // Unreachable: capturing elsewhere never unseats the mover.
                                    proof {
                                        assert(false);
                                    }
                                },
                            }
                            self.round = self.round + 1;
                            self.last_interacted_position = None;
                        } else {
                            self.last_interacted_position = None;
                        }
                    },
                    None => {
                        // Unreachable: a pending selection points at a live figure.
                        proof {
                            lemma_first_live(self.figures@, last_pos);
                            assert(false);
                        }
                    },
                }
            },
            None => {
                match self.find_live_index(p) {
                    Some(i) => {
                        let f = self.figures[i];
                        if is_figures_turn(f.white, self.round) {
                            self.last_interacted_position = Some(p);
                        }
                    },
                    None => {},
                }
            },
        }
    }

    /// The clipped move options of the figure on `(x, y)`, when a live
    /// figure stands there and its side is to move; `None` otherwise.
    pub fn get_options(&self, x: i32, y: i32) -> (r: Option<MoveOptions>)
        requires
            figures_in_range(self.figures@),
        ensures
            match occupant(self.figures@, Position { x, y }) {
                Some(f) => if side_to_move(f.white, self.round as int) {
                    r matches Some(o) && o.movable@ == keep_in_bounds(
                        movable_spec(f, self.figures@),
                    ) && o.killable@ == keep_in_bounds(killable_spec(f, self.figures@))
                } else {
                    r is None
                },
                None => r is None,
            },
    {
        match self.get_figure_from_position(Position::new(x, y)) {
            Some(figure) => {
                if is_figures_turn(figure.white, self.round) {
                    proof {
                        lemma_first_live(self.figures@, Position { x, y });
                    }
                    Some(figure.get_move_options(self).remove_out_of_bounds_options())
                } else {
                    None
                }
            },
            None => None,
        }
    }
}

} // verus!
