//! Pseudo-legal move generation.
//!
//! Given a figure and read-only board occupancy, generation produces the
//! squares the figure could move to, ignoring whose turn it is and ignoring
//! whether the move would expose its own king. `movable` holds reachable
//! empty squares, `killable` reachable squares held by an opposing figure; a
//! square never lands in both. No bounds clipping happens here: generation
//! may enumerate off-board squares, and `remove_out_of_bounds_options` clips
//! afterwards.

use vstd::prelude::*;

use crate::board::occupant;
use crate::board::occupied;
use crate::board::Board;
use crate::figure::Figure;
use crate::figure::FigureType;
use crate::position::coord_in_range;
use crate::position::in_bounds;
use crate::position::pos_at;
use crate::position::Position;

verus! {

/// The result of move generation for one figure: transient, recomputed on
/// every query, never stored.
#[derive(Clone, Debug, PartialEq, Eq)]
pub struct MoveOptions {
    pub movable: Vec<Position>,
    pub killable: Vec<Position>,
}

/// What a single-step piece adds to `movable` for the target `(x, y)`:
/// the square itself when it is empty, nothing when it is occupied.
pub open spec fn step_movable(figs: Seq<Figure>, x: int, y: int) -> Seq<Position> {
    if occupied(figs, pos_at(x, y)) {
        Seq::empty()
    } else {
        seq![pos_at(x, y)]
    }
}

/// What a single-step piece adds to `killable` for the target `(x, y)`:
/// the square itself when an opposing figure holds it, nothing otherwise.
pub open spec fn step_killable(figs: Seq<Figure>, white: bool, x: int, y: int) -> Seq<Position> {
    match occupant(figs, pos_at(x, y)) {
        Some(g) => if g.white != white {
            seq![pos_at(x, y)]
        } else {
            Seq::empty()
        },
        None => Seq::empty(),
    }
}

/// The empty squares a ray walk from `(x, y)` in direction `(dx, dy)`
/// enumerates, stepping at most `n` times: every square up to the first
/// occupied one, which stops the walk.
pub open spec fn ray_movable(figs: Seq<Figure>, x: int, y: int, dx: int, dy: int, n: nat) -> Seq<
    Position,
>
    decreases n,
{
    if n == 0 {
        Seq::empty()
    } else {
        let p = pos_at(x + dx, y + dy);
        if occupied(figs, p) {
            Seq::empty()
        } else {
            seq![p] + ray_movable(figs, x + dx, y + dy, dx, dy, (n - 1) as nat)
        }
    }
}

/// The capture squares of the same ray walk: the first occupied square when
/// an opponent holds it, nothing when a same-side figure blocks the ray.
pub open spec fn ray_killable(
    figs: Seq<Figure>,
    white: bool,
    x: int,
    y: int,
    dx: int,
    dy: int,
    n: nat,
) -> Seq<Position>
    decreases n,
{
    if n == 0 {
        Seq::empty()
    } else {
        let p = pos_at(x + dx, y + dy);
        match occupant(figs, p) {
            Some(g) => if g.white != white {
                seq![p]
            } else {
                Seq::empty()
            },
            None => ray_killable(figs, white, x + dx, y + dy, dx, dy, (n - 1) as nat),
        }
    }
}

/// The pawn's forward squares: one step toward the opponent when empty, and
/// the double step on the pawn's first move when that square is empty too.
pub open spec fn pawn_movable(figs: Seq<Figure>, f: Figure) -> Seq<Position> {
    let x = f.position.x as int;
    let y = f.position.y as int;
    let dir: int = if f.white {
        1
    } else {
        -1
    };
    if occupied(figs, pos_at(x, y + dir)) {
        Seq::empty()
    } else {
        seq![pos_at(x, y + dir)] + if f.first_move && !occupied(figs, pos_at(x, y + 2 * dir)) {
            seq![pos_at(x, y + 2 * dir)]
        } else {
            Seq::empty()
        }
    }
}

/// The pawn's capture squares: the two diagonal squares one step forward,
/// each only when an opposing figure holds it.
pub open spec fn pawn_killable(figs: Seq<Figure>, f: Figure) -> Seq<Position> {
    let x = f.position.x as int;
    let y = f.position.y as int;
    let dir: int = if f.white {
        1
    } else {
        -1
    };
    step_killable(figs, f.white, x + 1, y + dir) + step_killable(figs, f.white, x - 1, y + dir)
}

/// The king's eight adjacent targets, in generation order.
pub open spec fn king_movable(figs: Seq<Figure>, x: int, y: int) -> Seq<Position> {
    step_movable(figs, x - 1, y) + step_movable(figs, x - 1, y + 1) + step_movable(figs, x, y + 1)
        + step_movable(figs, x + 1, y + 1) + step_movable(figs, x + 1, y) + step_movable(
        figs,
        x + 1,
        y - 1,
    ) + step_movable(figs, x, y - 1) + step_movable(figs, x - 1, y - 1)
}

/// The king's eight capture targets, in generation order.
pub open spec fn king_killable(figs: Seq<Figure>, white: bool, x: int, y: int) -> Seq<Position> {
    step_killable(figs, white, x - 1, y) + step_killable(figs, white, x - 1, y + 1)
        + step_killable(figs, white, x, y + 1) + step_killable(figs, white, x + 1, y + 1)
        + step_killable(figs, white, x + 1, y) + step_killable(figs, white, x + 1, y - 1)
        + step_killable(figs, white, x, y - 1) + step_killable(figs, white, x - 1, y - 1)
}

/// The knight's eight L-shaped targets, in generation order.
pub open spec fn knight_movable(figs: Seq<Figure>, x: int, y: int) -> Seq<Position> {
    step_movable(figs, x - 2, y + 1) + step_movable(figs, x - 1, y + 2) + step_movable(
        figs,
        x + 1,
        y + 2,
    ) + step_movable(figs, x + 2, y + 1) + step_movable(figs, x + 1, y - 2) + step_movable(
        figs,
        x + 2,
        y - 1,
    ) + step_movable(figs, x - 2, y - 1) + step_movable(figs, x - 1, y - 2)
}

/// The knight's eight capture targets, in generation order.
pub open spec fn knight_killable(figs: Seq<Figure>, white: bool, x: int, y: int) -> Seq<Position> {
    step_killable(figs, white, x - 2, y + 1) + step_killable(figs, white, x - 1, y + 2)
        + step_killable(figs, white, x + 1, y + 2) + step_killable(figs, white, x + 2, y + 1)
        + step_killable(figs, white, x + 1, y - 2) + step_killable(figs, white, x + 2, y - 1)
        + step_killable(figs, white, x - 2, y - 1) + step_killable(figs, white, x - 1, y - 2)
}

/// The rook's four rays (left, right, down, up), in generation order.
pub open spec fn rook_movable(figs: Seq<Figure>, x: int, y: int) -> Seq<Position> {
    ray_movable(figs, x, y, -1, 0, 7) + ray_movable(figs, x, y, 1, 0, 7) + ray_movable(
        figs,
        x,
        y,
        0,
        -1,
        7,
    ) + ray_movable(figs, x, y, 0, 1, 7)
}

/// The rook's capture squares along the same four rays.
pub open spec fn rook_killable(figs: Seq<Figure>, white: bool, x: int, y: int) -> Seq<Position> {
    ray_killable(figs, white, x, y, -1, 0, 7) + ray_killable(figs, white, x, y, 1, 0, 7)
        + ray_killable(figs, white, x, y, 0, -1, 7) + ray_killable(figs, white, x, y, 0, 1, 7)
}

/// The bishop's four diagonal rays, in generation order.
pub open spec fn bishop_movable(figs: Seq<Figure>, x: int, y: int) -> Seq<Position> {
    ray_movable(figs, x, y, -1, -1, 7) + ray_movable(figs, x, y, 1, -1, 7) + ray_movable(
        figs,
        x,
        y,
        1,
        1,
        7,
    ) + ray_movable(figs, x, y, -1, 1, 7)
}

/// The bishop's capture squares along the same four rays.
pub open spec fn bishop_killable(figs: Seq<Figure>, white: bool, x: int, y: int) -> Seq<Position> {
    ray_killable(figs, white, x, y, -1, -1, 7) + ray_killable(figs, white, x, y, 1, -1, 7)
        + ray_killable(figs, white, x, y, 1, 1, 7) + ray_killable(figs, white, x, y, -1, 1, 7)
}

/// Every empty square the figure's kind can reach, in generation order.
pub open spec fn movable_spec(f: Figure, figs: Seq<Figure>) -> Seq<Position> {
    let x = f.position.x as int;
    let y = f.position.y as int;
    match f.kind {
        FigureType::Pawn => pawn_movable(figs, f),
        FigureType::King => king_movable(figs, x, y),
        FigureType::Knight => knight_movable(figs, x, y),
        FigureType::Rook => rook_movable(figs, x, y),
        FigureType::Bishop => bishop_movable(figs, x, y),
        FigureType::Queen => rook_movable(figs, x, y) + bishop_movable(figs, x, y),
    }
}

/// Every opposing-held square the figure's kind can capture on, in
/// generation order.
pub open spec fn killable_spec(f: Figure, figs: Seq<Figure>) -> Seq<Position> {
    let x = f.position.x as int;
    let y = f.position.y as int;
    match f.kind {
        FigureType::Pawn => pawn_killable(figs, f),
        FigureType::King => king_killable(figs, f.white, x, y),
        FigureType::Knight => knight_killable(figs, f.white, x, y),
        FigureType::Rook => rook_killable(figs, f.white, x, y),
        FigureType::Bishop => bishop_killable(figs, f.white, x, y),
        FigureType::Queen => rook_killable(figs, f.white, x, y) + bishop_killable(
            figs,
            f.white,
            x,
            y,
        ),
    }
}

/// Classifies the single target square `(x, y)`: empty squares extend
/// `movable`, opposing-held squares extend `killable`.
fn classify_square(
    board: &Board,
    white: bool,
    x: i32,
    y: i32,
    movable: &mut Vec<Position>,
    killable: &mut Vec<Position>,
)
    ensures
        final(movable)@ == old(movable)@ + step_movable(board.figures@, x as int, y as int),
        final(killable)@ == old(killable)@ + step_killable(
            board.figures@,
            white,
            x as int,
            y as int,
        ),
{
    let p = Position::new(x, y);
    match board.occupied_by(p) {
        Some(f) => {
            if f.white != white {
                killable.push(p);
            }
        },
        None => {
            movable.push(p);
        },
    }
}

/// Extends `killable` with the target `(x, y)` exactly when an opposing
/// figure holds it; used for the pawn's diagonal captures.
fn push_if_enemy(board: &Board, white: bool, x: i32, y: i32, killable: &mut Vec<Position>)
    ensures
        final(killable)@ == old(killable)@ + step_killable(
            board.figures@,
            white,
            x as int,
            y as int,
        ),
{
    let p = Position::new(x, y);
    match board.occupied_by(p) {
        Some(f) => {
            if f.white != white {
                killable.push(p);
            }
        },
        None => {},
    }
}

/// Walks one ray from `(x0, y0)` in direction `(dx, dy)`, up to 7 steps:
/// empty squares extend `movable` and the walk goes on; the first occupied
/// square stops it, extending `killable` when an opponent holds it.
fn walk_ray(
    board: &Board,
    white: bool,
    x0: i32,
    y0: i32,
    dx: i32,
    dy: i32,
    movable: &mut Vec<Position>,
    killable: &mut Vec<Position>,
)
    requires
        coord_in_range(x0 as int),
        coord_in_range(y0 as int),
        -1 <= dx as int <= 1,
        -1 <= dy as int <= 1,
    ensures
        final(movable)@ == old(movable)@ + ray_movable(
            board.figures@,
            x0 as int,
            y0 as int,
            dx as int,
            dy as int,
            7,
        ),
        final(killable)@ == old(killable)@ + ray_killable(
            board.figures@,
            white,
            x0 as int,
            y0 as int,
            dx as int,
            dy as int,
            7,
        ),
{
    let mut cx: i32 = x0;
    let mut cy: i32 = y0;
    let mut d: i32 = 0;
    let ghost mut collected: Seq<Position> = Seq::empty();
    while d < 7
        invariant_except_break
            coord_in_range(x0 as int),
            coord_in_range(y0 as int),
            -1 <= dx as int <= 1,
            -1 <= dy as int <= 1,
            0 <= d <= 7,
            -(d as int) <= cx as int - x0 as int <= d as int,
            -(d as int) <= cy as int - y0 as int <= d as int,
            movable@ == old(movable)@ + collected,
            killable@ == old(killable)@,
            ray_movable(board.figures@, x0 as int, y0 as int, dx as int, dy as int, 7)
                == collected + ray_movable(
                board.figures@,
                cx as int,
                cy as int,
                dx as int,
                dy as int,
                (7 - d) as nat,
            ),
            ray_killable(board.figures@, white, x0 as int, y0 as int, dx as int, dy as int, 7)
                == ray_killable(
                board.figures@,
                white,
                cx as int,
                cy as int,
                dx as int,
                dy as int,
                (7 - d) as nat,
            ),
        ensures
            movable@ == old(movable)@ + ray_movable(
                board.figures@,
                x0 as int,
                y0 as int,
                dx as int,
                dy as int,
                7,
            ),
            killable@ == old(killable)@ + ray_killable(
                board.figures@,
                white,
                x0 as int,
                y0 as int,
                dx as int,
                dy as int,
                7,
            ),
        decreases 7 - d,
    {
        let nx = cx + dx;
        let ny = cy + dy;
        let p = Position::new(nx, ny);
        match board.occupied_by(p) {
            Some(f) => {
                if f.white != white {
                    killable.push(p);
                }
                break ;
            },
            None => {
                movable.push(p);
                proof {
                    collected = collected + seq![p];
                }
                cx = nx;
                cy = ny;
                d = d + 1;
            },
        }
    }
}

impl Figure {
    /// Produces this figure's pseudo-legal move options against the given
    /// board occupancy, following its kind's geometry.
    pub fn get_move_options(&self, board: &Board) -> (r: MoveOptions)
        requires
            coord_in_range(self.position.x as int),
            coord_in_range(self.position.y as int),
        ensures
            r.movable@ == movable_spec(*self, board.figures@),
            r.killable@ == killable_spec(*self, board.figures@),
    {
        let mut movable: Vec<Position> = Vec::new();
        let mut killable: Vec<Position> = Vec::new();
        let x = self.position.x;
        let y = self.position.y;
        match self.kind {
            FigureType::Pawn => {
                let direction: i32 = if self.white {
                    1
                } else {
                    -1
                };
                let p = Position::new(x, y + direction);
                if board.occupied_by(p).is_none() {
                    movable.push(p);
                    if self.first_move {
                        let p2 = Position::new(x, y + 2 * direction);
                        if board.occupied_by(p2).is_none() {
                            movable.push(p2);
                        }
                    }
                }
                push_if_enemy(board, self.white, x + 1, y + direction, &mut killable);
                push_if_enemy(board, self.white, x - 1, y + direction, &mut killable);
            },
            FigureType::King => {
                classify_square(board, self.white, x - 1, y, &mut movable, &mut killable);
                classify_square(board, self.white, x - 1, y + 1, &mut movable, &mut killable);
                classify_square(board, self.white, x, y + 1, &mut movable, &mut killable);
                classify_square(board, self.white, x + 1, y + 1, &mut movable, &mut killable);
                classify_square(board, self.white, x + 1, y, &mut movable, &mut killable);
                classify_square(board, self.white, x + 1, y - 1, &mut movable, &mut killable);
                classify_square(board, self.white, x, y - 1, &mut movable, &mut killable);
                classify_square(board, self.white, x - 1, y - 1, &mut movable, &mut killable);
            },
            FigureType::Knight => {
                classify_square(board, self.white, x - 2, y + 1, &mut movable, &mut killable);
                classify_square(board, self.white, x - 1, y + 2, &mut movable, &mut killable);
                classify_square(board, self.white, x + 1, y + 2, &mut movable, &mut killable);
                classify_square(board, self.white, x + 2, y + 1, &mut movable, &mut killable);
                classify_square(board, self.white, x + 1, y - 2, &mut movable, &mut killable);
                classify_square(board, self.white, x + 2, y - 1, &mut movable, &mut killable);
                classify_square(board, self.white, x - 2, y - 1, &mut movable, &mut killable);
                classify_square(board, self.white, x - 1, y - 2, &mut movable, &mut killable);
            },
            FigureType::Rook => {
                walk_ray(board, self.white, x, y, -1, 0, &mut movable, &mut killable);
                walk_ray(board, self.white, x, y, 1, 0, &mut movable, &mut killable);
                walk_ray(board, self.white, x, y, 0, -1, &mut movable, &mut killable);
                walk_ray(board, self.white, x, y, 0, 1, &mut movable, &mut killable);
            },
            FigureType::Bishop => {
                walk_ray(board, self.white, x, y, -1, -1, &mut movable, &mut killable);
                walk_ray(board, self.white, x, y, 1, -1, &mut movable, &mut killable);
                walk_ray(board, self.white, x, y, 1, 1, &mut movable, &mut killable);
                walk_ray(board, self.white, x, y, -1, 1, &mut movable, &mut killable);
            },
            FigureType::Queen => {
                walk_ray(board, self.white, x, y, -1, 0, &mut movable, &mut killable);
                walk_ray(board, self.white, x, y, 1, 0, &mut movable, &mut killable);
                walk_ray(board, self.white, x, y, 0, -1, &mut movable, &mut killable);
                walk_ray(board, self.white, x, y, 0, 1, &mut movable, &mut killable);
                walk_ray(board, self.white, x, y, -1, -1, &mut movable, &mut killable);
                walk_ray(board, self.white, x, y, 1, -1, &mut movable, &mut killable);
                walk_ray(board, self.white, x, y, 1, 1, &mut movable, &mut killable);
                walk_ray(board, self.white, x, y, -1, 1, &mut movable, &mut killable);
            },
        }
        MoveOptions { movable, killable }
    }
}

/// The subsequence of `s` whose entries lie on the board, in their
/// original order.
pub open spec fn keep_in_bounds(s: Seq<Position>) -> Seq<Position>
    decreases s.len(),
{
    if s.len() == 0 {
        Seq::empty()
    } else {
        let rest = keep_in_bounds(s.drop_last());
        if in_bounds(s.last()) {
            rest.push(s.last())
        } else {
            rest
        }
    }
}

/// The filtered sequence holds exactly the original entries that lie on
/// the board.
pub proof fn lemma_keep_in_bounds_contains(s: Seq<Position>, p: Position)
    ensures
        keep_in_bounds(s).contains(p) <==> s.contains(p) && in_bounds(p),
    decreases s.len(),
{
    if s.len() > 0 {
        lemma_keep_in_bounds_contains(s.drop_last(), p);
        let rest = keep_in_bounds(s.drop_last());
        if s.contains(p) && in_bounds(p) {
            let i = choose|i: int| 0 <= i < s.len() && s[i] == p;
            if i < s.len() - 1 {
                assert(s.drop_last()[i] == p);
                assert(s.drop_last().contains(p));
                let j = choose|j: int| 0 <= j < rest.len() && rest[j] == p;
                assert(keep_in_bounds(s)[j] == p);
            } else {
                assert(p == s.last());
                assert(keep_in_bounds(s)[rest.len() as int] == p);
            }
            assert(keep_in_bounds(s).contains(p));
        }
        if keep_in_bounds(s).contains(p) {
            let j = choose|j: int| 0 <= j < keep_in_bounds(s).len() && keep_in_bounds(s)[j] == p;
            if in_bounds(s.last()) && j == keep_in_bounds(s).len() - 1 {
                assert(p == s.last());
                assert(s[s.len() - 1] == p);
                assert(s.contains(p));
            } else {
                assert(rest[j] == p);
                assert(rest.contains(p));
                let i = choose|i: int| 0 <= i < s.drop_last().len() && s.drop_last()[i] == p;
                assert(s[i] == p);
                assert(s.contains(p));
            }
        }
    }
}

/// Whether `v` holds the position `p`.
pub fn contains_position(v: &Vec<Position>, p: Position) -> (r: bool)
    ensures
        r == v@.contains(p),
{
    let n = v.len();
    let mut i: usize = 0;
    while i < n
        invariant
            0 <= i <= n,
            n == v@.len(),
            forall|j: int| 0 <= j < i ==> v@[j] != p,
        decreases n - i,
    {
        if v[i] == p {
            proof {
                assert(v@[i as int] == p);
            }
            return true;
        }
        i = i + 1;
    }
    false
}

/// The entries of `v` that lie on the board, in their original order.
fn filter_in_bounds(v: &Vec<Position>) -> (r: Vec<Position>)
    ensures
        r@ == keep_in_bounds(v@),
{
    let mut r: Vec<Position> = Vec::new();
    let n = v.len();
    let mut i: usize = 0;
    while i < n
        invariant
            0 <= i <= n,
            n == v@.len(),
            r@ == keep_in_bounds(v@.take(i as int)),
        decreases n - i,
    {
        let p = v[i];
        proof {
            assert(v@.take(i + 1).drop_last() =~= v@.take(i as int));
            assert(v@.take(i + 1).last() == v@[i as int]);
        }
        if p.x >= 0 && p.x < 8 && p.y >= 0 && p.y < 8 {
            r.push(p);
        }
        i = i + 1;
    }
    proof {
        assert(v@.take(n as int) =~= v@);
    }
    r
}

impl MoveOptions {
    /// Retains only on-board entries, keeping their order.
    ///
    /// Both lists are clipped: a capture square outside the board is as
    /// unreachable as an empty one, so the filter is applied symmetrically.
    pub fn remove_out_of_bounds_options(self) -> (r: Self)
        ensures
            r.movable@ == keep_in_bounds(self.movable@),
            r.killable@ == keep_in_bounds(self.killable@),
    {
        MoveOptions {
            movable: filter_in_bounds(&self.movable),
            killable: filter_in_bounds(&self.killable),
        }
    }
}

} // verus!
