//! Threat detection: which opposing figures could capture on a given square.
//!
//! This is the primitive for check detection. It is a pure read: for every
//! live opposing figure, its raw move generation is recomputed and the
//! target's square is looked up in that figure's capture set.

use vstd::prelude::*;

use crate::board::Board;
use crate::figure::Figure;
use crate::moves::contains_position;
use crate::moves::killable_spec;
use crate::position::coord_in_range;
use crate::position::Position;

verus! {

/// `attacker` is a live opposing figure whose raw capture set reaches the
/// target's square.
pub open spec fn is_threat(figs: Seq<Figure>, attacker: Figure, target: Figure) -> bool {
    attacker.alive && attacker.white != target.white && killable_spec(attacker, figs).contains(
        target.position,
    )
}

/// The positions of the threatening figures among the first `n` entries of
/// the collection, in collection order.
pub open spec fn threat_sources_upto(figs: Seq<Figure>, target: Figure, n: int) -> Seq<Position>
    decreases n,
{
    if n <= 0 {
        Seq::empty()
    } else {
        threat_sources_upto(figs, target, n - 1) + if is_threat(figs, figs[n - 1], target) {
            seq![figs[n - 1].position]
        } else {
            Seq::empty()
        }
    }
}

/// The positions of every live opposing figure that could capture on the
/// target's square, in collection order.
pub open spec fn threat_sources(figs: Seq<Figure>, target: Figure) -> Seq<Position> {
    threat_sources_upto(figs, target, figs.len() as int)
}

impl Board {
    /// Collects the positions of the live opposing figures whose raw capture
    /// set includes the given figure's square.
    pub fn position_threatened_from(&self, figure: &Figure) -> (r: Vec<Position>)
        requires
            forall|i: int|
                0 <= i < self.figures@.len() && self.figures@[i].alive
                    && self.figures@[i].white != figure.white ==> coord_in_range(
                    self.figures@[i].position.x as int,
                ) && coord_in_range(self.figures@[i].position.y as int),
        ensures
            r@ == threat_sources(self.figures@, *figure),
    {
        let mut r: Vec<Position> = Vec::new();
        let n = self.figures.len();
        let mut i: usize = 0;
        while i < n
            invariant
                0 <= i <= n,
                n == self.figures@.len(),
                forall|j: int|
                    0 <= j < n && self.figures@[j].alive && self.figures@[j].white != figure.white
                        ==> coord_in_range(self.figures@[j].position.x as int) && coord_in_range(
                        self.figures@[j].position.y as int,
                    ),
                r@ == threat_sources_upto(self.figures@, *figure, i as int),
            decreases n - i,
        {
            let candidate = self.figures[i];
            if candidate.alive && candidate.white != figure.white {
                let opts = candidate.get_move_options(self);
                if contains_position(&opts.killable, figure.position) {
                    r.push(candidate.position);
                }
            }
            i = i + 1;
        }
        r
    }
}

} // verus!
