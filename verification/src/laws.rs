//! Laws of move generation, proved once over the specification functions.
//!
//! Generation classifies squares strictly: `movable` squares are empty,
//! `killable` squares hold an opposing figure, and a ray never enumerates
//! past its first occupied square.

use vstd::prelude::*;

use crate::board::occupant;
use crate::board::occupied;
use crate::figure::Figure;
use crate::figure::FigureType;
use crate::moves::bishop_killable;
use crate::moves::bishop_movable;
use crate::moves::killable_spec;
use crate::moves::king_killable;
use crate::moves::king_movable;
use crate::moves::knight_killable;
use crate::moves::knight_movable;
use crate::moves::movable_spec;
use crate::moves::pawn_killable;
use crate::moves::pawn_movable;
use crate::moves::ray_killable;
use crate::moves::ray_movable;
use crate::moves::rook_killable;
use crate::moves::rook_movable;
use crate::moves::step_killable;
use crate::moves::step_movable;
use crate::position::coord_in_range;
use crate::position::pos_at;
use crate::position::Position;

verus! {

/// A concatenation holds exactly what one of its parts holds.
proof fn lemma_add_contains(a: Seq<Position>, b: Seq<Position>, p: Position)
    ensures
        (a + b).contains(p) <==> a.contains(p) || b.contains(p),
{
    if (a + b).contains(p) {
        let i = choose|i: int| 0 <= i < (a + b).len() && (a + b)[i] == p;
        if i < a.len() {
            assert(a[i] == p);
        } else {
            assert(b[i - a.len()] == p);
        }
    }
    if a.contains(p) {
        let i = choose|i: int| 0 <= i < a.len() && a[i] == p;
        assert((a + b)[i] == p);
    }
    if b.contains(p) {
        let i = choose|i: int| 0 <= i < b.len() && b[i] == p;
        assert((a + b)[a.len() + i] == p);
    }
}

/// A singleton holds only its one element.
proof fn lemma_singleton_contains(q: Position, p: Position)
    requires
        seq![q].contains(p),
    ensures
        p == q,
{
    let i = choose|i: int| 0 <= i < seq![q].len() && seq![q][i] == p;
    assert(seq![q][0] == q);
}

/// A single-step target in `movable` is an empty square.
proof fn lemma_step_movable_unoccupied(figs: Seq<Figure>, x: int, y: int, p: Position)
    requires
        step_movable(figs, x, y).contains(p),
    ensures
        !occupied(figs, p),
{
    lemma_singleton_contains(pos_at(x, y), p);
}

/// A single-step target in `killable` holds an opposing figure.
proof fn lemma_step_killable_enemy(figs: Seq<Figure>, white: bool, x: int, y: int, p: Position)
    requires
        step_killable(figs, white, x, y).contains(p),
    ensures
        occupant(figs, p) matches Some(g) && g.white != white,
{
    lemma_singleton_contains(pos_at(x, y), p);
}

/// A ray square in `movable` is an empty square.
proof fn lemma_ray_movable_unoccupied(
    figs: Seq<Figure>,
    x: int,
    y: int,
    dx: int,
    dy: int,
    n: nat,
    p: Position,
)
    requires
        ray_movable(figs, x, y, dx, dy, n).contains(p),
    ensures
        !occupied(figs, p),
    decreases n,
{
    if n > 0 {
        let q = pos_at(x + dx, y + dy);
        if !occupied(figs, q) {
            let tail = ray_movable(figs, x + dx, y + dy, dx, dy, (n - 1) as nat);
            lemma_add_contains(seq![q], tail, p);
            if seq![q].contains(p) {
                lemma_singleton_contains(q, p);
            } else {
                lemma_ray_movable_unoccupied(figs, x + dx, y + dy, dx, dy, (n - 1) as nat, p);
            }
        }
    }
}

/// A ray square in `killable` holds an opposing figure.
proof fn lemma_ray_killable_enemy(
    figs: Seq<Figure>,
    white: bool,
    x: int,
    y: int,
    dx: int,
    dy: int,
    n: nat,
    p: Position,
)
    requires
        ray_killable(figs, white, x, y, dx, dy, n).contains(p),
    ensures
        occupant(figs, p) matches Some(g) && g.white != white,
    decreases n,
{
    if n > 0 {
        let q = pos_at(x + dx, y + dy);
        match occupant(figs, q) {
            Some(g) => {
                if g.white != white {
                    lemma_singleton_contains(q, p);
                }
            },
            None => {
                lemma_ray_killable_enemy(figs, white, x + dx, y + dy, dx, dy, (n - 1) as nat, p);
            },
        }
    }
}

/// Generated `killable` squares always hold an opposing figure — never a
/// same-side one, and never nobody. Holds for every figure kind.
pub proof fn lemma_killable_holds_opponent(figs: Seq<Figure>, f: Figure, p: Position)
    requires
        killable_spec(f, figs).contains(p),
    ensures
        occupant(figs, p) matches Some(g) && g.white != f.white,
{
    let x = f.position.x as int;
    let y = f.position.y as int;
    let w = f.white;
    match f.kind {
        FigureType::Pawn => {
            let s1 = step_killable(figs, w, x + 1, y + (if w { 1int } else { -1int }));
            let s2 = step_killable(figs, w, x - 1, y + (if w { 1int } else { -1int }));
            assert(pawn_killable(figs, f) == s1 + s2);
            lemma_add_contains(s1, s2, p);
            if s1.contains(p) {
                lemma_step_killable_enemy(figs, w, x + 1, y + (if w { 1int } else { -1int }), p);
            } else {
                lemma_step_killable_enemy(figs, w, x - 1, y + (if w { 1int } else { -1int }), p);
            }
        },
        FigureType::King => {
            let s1 = step_killable(figs, w, x - 1, y);
            let s2 = step_killable(figs, w, x - 1, y + 1);
            let s3 = step_killable(figs, w, x, y + 1);
            let s4 = step_killable(figs, w, x + 1, y + 1);
            let s5 = step_killable(figs, w, x + 1, y);
            let s6 = step_killable(figs, w, x + 1, y - 1);
            let s7 = step_killable(figs, w, x, y - 1);
            let s8 = step_killable(figs, w, x - 1, y - 1);
            assert(king_killable(figs, w, x, y) == s1 + s2 + s3 + s4 + s5 + s6 + s7 + s8);
            lemma_add_contains(s1 + s2 + s3 + s4 + s5 + s6 + s7, s8, p);
            lemma_add_contains(s1 + s2 + s3 + s4 + s5 + s6, s7, p);
            lemma_add_contains(s1 + s2 + s3 + s4 + s5, s6, p);
            lemma_add_contains(s1 + s2 + s3 + s4, s5, p);
            lemma_add_contains(s1 + s2 + s3, s4, p);
            lemma_add_contains(s1 + s2, s3, p);
            lemma_add_contains(s1, s2, p);
            if s1.contains(p) {
                lemma_step_killable_enemy(figs, w, x - 1, y, p);
            } else if s2.contains(p) {
                lemma_step_killable_enemy(figs, w, x - 1, y + 1, p);
            } else if s3.contains(p) {
                lemma_step_killable_enemy(figs, w, x, y + 1, p);
            } else if s4.contains(p) {
                lemma_step_killable_enemy(figs, w, x + 1, y + 1, p);
            } else if s5.contains(p) {
                lemma_step_killable_enemy(figs, w, x + 1, y, p);
            } else if s6.contains(p) {
                lemma_step_killable_enemy(figs, w, x + 1, y - 1, p);
            } else if s7.contains(p) {
                lemma_step_killable_enemy(figs, w, x, y - 1, p);
            } else {
                lemma_step_killable_enemy(figs, w, x - 1, y - 1, p);
            }
        },
        FigureType::Knight => {
            let s1 = step_killable(figs, w, x - 2, y + 1);
            let s2 = step_killable(figs, w, x - 1, y + 2);
            let s3 = step_killable(figs, w, x + 1, y + 2);
            let s4 = step_killable(figs, w, x + 2, y + 1);
            let s5 = step_killable(figs, w, x + 1, y - 2);
            let s6 = step_killable(figs, w, x + 2, y - 1);
            let s7 = step_killable(figs, w, x - 2, y - 1);
            let s8 = step_killable(figs, w, x - 1, y - 2);
            assert(knight_killable(figs, w, x, y) == s1 + s2 + s3 + s4 + s5 + s6 + s7 + s8);
            lemma_add_contains(s1 + s2 + s3 + s4 + s5 + s6 + s7, s8, p);
            lemma_add_contains(s1 + s2 + s3 + s4 + s5 + s6, s7, p);
            lemma_add_contains(s1 + s2 + s3 + s4 + s5, s6, p);
            lemma_add_contains(s1 + s2 + s3 + s4, s5, p);
            lemma_add_contains(s1 + s2 + s3, s4, p);
            lemma_add_contains(s1 + s2, s3, p);
            lemma_add_contains(s1, s2, p);
            if s1.contains(p) {
                lemma_step_killable_enemy(figs, w, x - 2, y + 1, p);
            } else if s2.contains(p) {
                lemma_step_killable_enemy(figs, w, x - 1, y + 2, p);
            } else if s3.contains(p) {
                lemma_step_killable_enemy(figs, w, x + 1, y + 2, p);
            } else if s4.contains(p) {
                lemma_step_killable_enemy(figs, w, x + 2, y + 1, p);
            } else if s5.contains(p) {
                lemma_step_killable_enemy(figs, w, x + 1, y - 2, p);
            } else if s6.contains(p) {
                lemma_step_killable_enemy(figs, w, x + 2, y - 1, p);
            } else if s7.contains(p) {
                lemma_step_killable_enemy(figs, w, x - 2, y - 1, p);
            } else {
                lemma_step_killable_enemy(figs, w, x - 1, y - 2, p);
            }
        },
        FigureType::Rook => {
            lemma_rook_killable_enemy(figs, w, x, y, p);
        },
        FigureType::Bishop => {
            lemma_bishop_killable_enemy(figs, w, x, y, p);
        },
        FigureType::Queen => {
            lemma_add_contains(rook_killable(figs, w, x, y), bishop_killable(figs, w, x, y), p);
            if rook_killable(figs, w, x, y).contains(p) {
                lemma_rook_killable_enemy(figs, w, x, y, p);
            } else {
                lemma_bishop_killable_enemy(figs, w, x, y, p);
            }
        },
    }
}

/// Rook capture squares hold an opposing figure.
proof fn lemma_rook_killable_enemy(figs: Seq<Figure>, w: bool, x: int, y: int, p: Position)
    requires
        rook_killable(figs, w, x, y).contains(p),
    ensures
        occupant(figs, p) matches Some(g) && g.white != w,
{
    let s1 = ray_killable(figs, w, x, y, -1, 0, 7);
    let s2 = ray_killable(figs, w, x, y, 1, 0, 7);
    let s3 = ray_killable(figs, w, x, y, 0, -1, 7);
    let s4 = ray_killable(figs, w, x, y, 0, 1, 7);
    lemma_add_contains(s1 + s2 + s3, s4, p);
    lemma_add_contains(s1 + s2, s3, p);
    lemma_add_contains(s1, s2, p);
    if s1.contains(p) {
        lemma_ray_killable_enemy(figs, w, x, y, -1, 0, 7, p);
    } else if s2.contains(p) {
        lemma_ray_killable_enemy(figs, w, x, y, 1, 0, 7, p);
    } else if s3.contains(p) {
        lemma_ray_killable_enemy(figs, w, x, y, 0, -1, 7, p);
    } else {
        lemma_ray_killable_enemy(figs, w, x, y, 0, 1, 7, p);
    }
}

/// Bishop capture squares hold an opposing figure.
proof fn lemma_bishop_killable_enemy(figs: Seq<Figure>, w: bool, x: int, y: int, p: Position)
    requires
        bishop_killable(figs, w, x, y).contains(p),
    ensures
        occupant(figs, p) matches Some(g) && g.white != w,
{
    let s1 = ray_killable(figs, w, x, y, -1, -1, 7);
    let s2 = ray_killable(figs, w, x, y, 1, -1, 7);
    let s3 = ray_killable(figs, w, x, y, 1, 1, 7);
    let s4 = ray_killable(figs, w, x, y, -1, 1, 7);
    lemma_add_contains(s1 + s2 + s3, s4, p);
    lemma_add_contains(s1 + s2, s3, p);
    lemma_add_contains(s1, s2, p);
    if s1.contains(p) {
        lemma_ray_killable_enemy(figs, w, x, y, -1, -1, 7, p);
    } else if s2.contains(p) {
        lemma_ray_killable_enemy(figs, w, x, y, 1, -1, 7, p);
    } else if s3.contains(p) {
        lemma_ray_killable_enemy(figs, w, x, y, 1, 1, 7, p);
    } else {
        lemma_ray_killable_enemy(figs, w, x, y, -1, 1, 7, p);
    }
}

/// Rook destination squares are empty.
proof fn lemma_rook_movable_unoccupied(figs: Seq<Figure>, x: int, y: int, p: Position)
    requires
        rook_movable(figs, x, y).contains(p),
    ensures
        !occupied(figs, p),
{
    let s1 = ray_movable(figs, x, y, -1, 0, 7);
    let s2 = ray_movable(figs, x, y, 1, 0, 7);
    let s3 = ray_movable(figs, x, y, 0, -1, 7);
    let s4 = ray_movable(figs, x, y, 0, 1, 7);
    lemma_add_contains(s1 + s2 + s3, s4, p);
    lemma_add_contains(s1 + s2, s3, p);
    lemma_add_contains(s1, s2, p);
    if s1.contains(p) {
        lemma_ray_movable_unoccupied(figs, x, y, -1, 0, 7, p);
    } else if s2.contains(p) {
        lemma_ray_movable_unoccupied(figs, x, y, 1, 0, 7, p);
    } else if s3.contains(p) {
        lemma_ray_movable_unoccupied(figs, x, y, 0, -1, 7, p);
    } else {
        lemma_ray_movable_unoccupied(figs, x, y, 0, 1, 7, p);
    }
}

/// Bishop destination squares are empty.
proof fn lemma_bishop_movable_unoccupied(figs: Seq<Figure>, x: int, y: int, p: Position)
    requires
        bishop_movable(figs, x, y).contains(p),
    ensures
        !occupied(figs, p),
{
    let s1 = ray_movable(figs, x, y, -1, -1, 7);
    let s2 = ray_movable(figs, x, y, 1, -1, 7);
    let s3 = ray_movable(figs, x, y, 1, 1, 7);
    let s4 = ray_movable(figs, x, y, -1, 1, 7);
    lemma_add_contains(s1 + s2 + s3, s4, p);
    lemma_add_contains(s1 + s2, s3, p);
    lemma_add_contains(s1, s2, p);
    if s1.contains(p) {
        lemma_ray_movable_unoccupied(figs, x, y, -1, -1, 7, p);
    } else if s2.contains(p) {
        lemma_ray_movable_unoccupied(figs, x, y, 1, -1, 7, p);
    } else if s3.contains(p) {
        lemma_ray_movable_unoccupied(figs, x, y, 1, 1, 7, p);
    } else {
        lemma_ray_movable_unoccupied(figs, x, y, -1, 1, 7, p);
    }
}

/// Generated `movable` squares are always empty squares.
pub proof fn lemma_movable_is_empty(figs: Seq<Figure>, f: Figure, p: Position)
    requires
        movable_spec(f, figs).contains(p),
    ensures
        !occupied(figs, p),
{
    let x = f.position.x as int;
    let y = f.position.y as int;
    match f.kind {
        FigureType::Pawn => {
            let dir: int = if f.white {
                1
            } else {
                -1
            };
            let front = pos_at(x, y + dir);
            let front2 = pos_at(x, y + 2 * dir);
            if !occupied(figs, front) {
                let second = if f.first_move && !occupied(figs, front2) {
                    seq![front2]
                } else {
                    Seq::<Position>::empty()
                };
                assert(pawn_movable(figs, f) == seq![front] + second);
                lemma_add_contains(seq![front], second, p);
                if seq![front].contains(p) {
                    lemma_singleton_contains(front, p);
                } else {
                    lemma_singleton_contains(front2, p);
                }
            }
        },
        FigureType::King => {
            let s1 = step_movable(figs, x - 1, y);
            let s2 = step_movable(figs, x - 1, y + 1);
            let s3 = step_movable(figs, x, y + 1);
            let s4 = step_movable(figs, x + 1, y + 1);
            let s5 = step_movable(figs, x + 1, y);
            let s6 = step_movable(figs, x + 1, y - 1);
            let s7 = step_movable(figs, x, y - 1);
            let s8 = step_movable(figs, x - 1, y - 1);
            assert(king_movable(figs, x, y) == s1 + s2 + s3 + s4 + s5 + s6 + s7 + s8);
            lemma_add_contains(s1 + s2 + s3 + s4 + s5 + s6 + s7, s8, p);
            lemma_add_contains(s1 + s2 + s3 + s4 + s5 + s6, s7, p);
            lemma_add_contains(s1 + s2 + s3 + s4 + s5, s6, p);
            lemma_add_contains(s1 + s2 + s3 + s4, s5, p);
            lemma_add_contains(s1 + s2 + s3, s4, p);
            lemma_add_contains(s1 + s2, s3, p);
            lemma_add_contains(s1, s2, p);
            if s1.contains(p) {
                lemma_step_movable_unoccupied(figs, x - 1, y, p);
            } else if s2.contains(p) {
                lemma_step_movable_unoccupied(figs, x - 1, y + 1, p);
            } else if s3.contains(p) {
                lemma_step_movable_unoccupied(figs, x, y + 1, p);
            } else if s4.contains(p) {
                lemma_step_movable_unoccupied(figs, x + 1, y + 1, p);
            } else if s5.contains(p) {
                lemma_step_movable_unoccupied(figs, x + 1, y, p);
            } else if s6.contains(p) {
                lemma_step_movable_unoccupied(figs, x + 1, y - 1, p);
            } else if s7.contains(p) {
                lemma_step_movable_unoccupied(figs, x, y - 1, p);
            } else {
                lemma_step_movable_unoccupied(figs, x - 1, y - 1, p);
            }
        },
        FigureType::Knight => {
            let s1 = step_movable(figs, x - 2, y + 1);
            let s2 = step_movable(figs, x - 1, y + 2);
            let s3 = step_movable(figs, x + 1, y + 2);
            let s4 = step_movable(figs, x + 2, y + 1);
            let s5 = step_movable(figs, x + 1, y - 2);
            let s6 = step_movable(figs, x + 2, y - 1);
            let s7 = step_movable(figs, x - 2, y - 1);
            let s8 = step_movable(figs, x - 1, y - 2);
            assert(knight_movable(figs, x, y) == s1 + s2 + s3 + s4 + s5 + s6 + s7 + s8);
            lemma_add_contains(s1 + s2 + s3 + s4 + s5 + s6 + s7, s8, p);
            lemma_add_contains(s1 + s2 + s3 + s4 + s5 + s6, s7, p);
            lemma_add_contains(s1 + s2 + s3 + s4 + s5, s6, p);
            lemma_add_contains(s1 + s2 + s3 + s4, s5, p);
            lemma_add_contains(s1 + s2 + s3, s4, p);
            lemma_add_contains(s1 + s2, s3, p);
            lemma_add_contains(s1, s2, p);
            if s1.contains(p) {
                lemma_step_movable_unoccupied(figs, x - 2, y + 1, p);
            } else if s2.contains(p) {
                lemma_step_movable_unoccupied(figs, x - 1, y + 2, p);
            } else if s3.contains(p) {
                lemma_step_movable_unoccupied(figs, x + 1, y + 2, p);
            } else if s4.contains(p) {
                lemma_step_movable_unoccupied(figs, x + 2, y + 1, p);
            } else if s5.contains(p) {
                lemma_step_movable_unoccupied(figs, x + 1, y - 2, p);
            } else if s6.contains(p) {
                lemma_step_movable_unoccupied(figs, x + 2, y - 1, p);
            } else if s7.contains(p) {
                lemma_step_movable_unoccupied(figs, x - 2, y - 1, p);
            } else {
                lemma_step_movable_unoccupied(figs, x - 1, y - 2, p);
            }
        },
        FigureType::Rook => {
            lemma_rook_movable_unoccupied(figs, x, y, p);
        },
        FigureType::Bishop => {
            lemma_bishop_movable_unoccupied(figs, x, y, p);
        },
        FigureType::Queen => {
            lemma_add_contains(rook_movable(figs, x, y), bishop_movable(figs, x, y), p);
            if rook_movable(figs, x, y).contains(p) {
                lemma_rook_movable_unoccupied(figs, x, y, p);
            } else {
                lemma_bishop_movable_unoccupied(figs, x, y, p);
            }
        },
    }
}

/// `(dx, dy)` is one of the ray directions the given kind walks.
pub open spec fn kind_ray_direction(kind: FigureType, dx: int, dy: int) -> bool {
    match kind {
        FigureType::Rook => (dx == -1 && dy == 0) || (dx == 1 && dy == 0) || (dx == 0 && dy == -1)
            || (dx == 0 && dy == 1),
        FigureType::Bishop => (dx == -1 && dy == -1) || (dx == 1 && dy == -1) || (dx == 1 && dy
            == 1) || (dx == -1 && dy == 1),
        FigureType::Queen => (dx == -1 && dy == 0) || (dx == 1 && dy == 0) || (dx == 0 && dy == -1)
            || (dx == 0 && dy == 1) || (dx == -1 && dy == -1) || (dx == 1 && dy == -1) || (dx == 1
            && dy == 1) || (dx == -1 && dy == 1),
        _ => false,
    }
}

/// A direction a ray can walk: a king-step offset, not the null offset.
pub open spec fn unit_direction(dx: int, dy: int) -> bool {
    -1 <= dx <= 1 && -1 <= dy <= 1 && !(dx == 0 && dy == 0)
}

/// Every square a ray enumerates for `movable` lies `m` steps out along the
/// ray, for some `1 <= m <= n`.
proof fn lemma_ray_movable_shape(
    figs: Seq<Figure>,
    x: int,
    y: int,
    dx: int,
    dy: int,
    n: nat,
    p: Position,
) -> (m: int)
    requires
        ray_movable(figs, x, y, dx, dy, n).contains(p),
    ensures
        1 <= m <= n,
        p == pos_at(x + m * dx, y + m * dy),
    decreases n,
{
    let q = pos_at(x + dx, y + dy);
    let tail = ray_movable(figs, x + dx, y + dy, dx, dy, (n - 1) as nat);
    lemma_add_contains(seq![q], tail, p);
    if seq![q].contains(p) {
        lemma_singleton_contains(q, p);
        assert(x + 1 * dx == x + dx) by (nonlinear_arith);
        assert(y + 1 * dy == y + dy) by (nonlinear_arith);
        1
    } else {
        let m0 = lemma_ray_movable_shape(figs, x + dx, y + dy, dx, dy, (n - 1) as nat, p);
        assert((x + dx) + m0 * dx == x + (m0 + 1) * dx) by (nonlinear_arith);
        assert((y + dy) + m0 * dy == y + (m0 + 1) * dy) by (nonlinear_arith);
        m0 + 1
    }
}

/// Every square a ray enumerates for `killable` lies `m` steps out along the
/// ray, for some `1 <= m <= n`.
proof fn lemma_ray_killable_shape(
    figs: Seq<Figure>,
    white: bool,
    x: int,
    y: int,
    dx: int,
    dy: int,
    n: nat,
    p: Position,
) -> (m: int)
    requires
        ray_killable(figs, white, x, y, dx, dy, n).contains(p),
    ensures
        1 <= m <= n,
        p == pos_at(x + m * dx, y + m * dy),
    decreases n,
{
    let q = pos_at(x + dx, y + dy);
    match occupant(figs, q) {
        Some(g) => {
            lemma_singleton_contains(q, p);
            assert(x + 1 * dx == x + dx) by (nonlinear_arith);
            assert(y + 1 * dy == y + dy) by (nonlinear_arith);
            1
        },
        None => {
            let m0 = lemma_ray_killable_shape(
                figs,
                white,
                x + dx,
                y + dy,
                dx,
                dy,
                (n - 1) as nat,
                p,
            );
            assert((x + dx) + m0 * dx == x + (m0 + 1) * dx) by (nonlinear_arith);
            assert((y + dy) + m0 * dy == y + (m0 + 1) * dy) by (nonlinear_arith);
            m0 + 1
        },
    }
}

/// Two squares a bounded number of steps out along unit directions coincide
/// only at the same step of the same direction.
proof fn lemma_ray_points_distinct(
    x: int,
    y: int,
    dx: int,
    dy: int,
    k: int,
    dx2: int,
    dy2: int,
    m: int,
    same_dir: bool,
)
    requires
        coord_in_range(x),
        coord_in_range(y),
        unit_direction(dx, dy),
        unit_direction(dx2, dy2),
        1 <= k <= 7,
        1 <= m <= 7,
        same_dir ==> dx2 == dx && dy2 == dy && m != k,
        !same_dir ==> !(dx2 == dx && dy2 == dy),
    ensures
        pos_at(x + m * dx2, y + m * dy2) != pos_at(x + k * dx, y + k * dy),
{
    assert(m * dx2 != k * dx || m * dy2 != k * dy) by (nonlinear_arith)
        requires
            -1 <= dx <= 1,
            -1 <= dy <= 1,
            -1 <= dx2 <= 1,
            -1 <= dy2 <= 1,
            !(dx == 0 && dy == 0),
            !(dx2 == 0 && dy2 == 0),
            1 <= k <= 7,
            1 <= m <= 7,
            (dx2 == dx && dy2 == dy) ==> m != k,
    ;
    assert(-8 <= m * dx2 <= 8 && -8 <= m * dy2 <= 8 && -8 <= k * dx <= 8 && -8 <= k * dy <= 8)
        by (nonlinear_arith)
        requires
            -1 <= dx <= 1,
            -1 <= dy <= 1,
            -1 <= dx2 <= 1,
            -1 <= dy2 <= 1,
            1 <= k <= 7,
            1 <= m <= 7,
    ;
    assert((x + m * dx2) as i32 == x + m * dx2);
    assert((x + k * dx) as i32 == x + k * dx);
    assert((y + m * dy2) as i32 == y + m * dy2);
    assert((y + k * dy) as i32 == y + k * dy);
}

/// A ray walked from `s` steps out never enumerates the square `k` steps
/// out once some square `j` steps out, behind `k`, is occupied.
proof fn lemma_ray_blocked_from(
    figs: Seq<Figure>,
    white: bool,
    x: int,
    y: int,
    dx: int,
    dy: int,
    s: int,
    j: int,
    k: int,
    n: nat,
)
    requires
        coord_in_range(x),
        coord_in_range(y),
        unit_direction(dx, dy),
        0 <= s,
        s + n <= 7,
        s < j < k <= 7,
        occupied(figs, pos_at(x + j * dx, y + j * dy)),
    ensures
        !ray_movable(figs, x + s * dx, y + s * dy, dx, dy, n).contains(
            pos_at(x + k * dx, y + k * dy),
        ),
        !ray_killable(figs, white, x + s * dx, y + s * dy, dx, dy, n).contains(
            pos_at(x + k * dx, y + k * dy),
        ),
    decreases n,
{
    let t = pos_at(x + k * dx, y + k * dy);
    if n > 0 {
        let q = pos_at((x + s * dx) + dx, (y + s * dy) + dy);
        assert((x + s * dx) + dx == x + (s + 1) * dx) by (nonlinear_arith);
        assert((y + s * dy) + dy == y + (s + 1) * dy) by (nonlinear_arith);
        if s + 1 < k {
            lemma_ray_points_distinct(x, y, dx, dy, k, dx, dy, s + 1, true);
            assert(q != t);
        }
        if s + 1 == j {
            assert(occupied(figs, q));
            if occupied(figs, q) {
                match occupant(figs, q) {
                    Some(g) => {
                        if g.white != white {
                            lemma_singleton_contains_not(q, t);
                        }
                    },
                    None => {},
                }
            }
        } else {
            if !occupied(figs, q) {
                let tail_m = ray_movable(figs, x + (s + 1) * dx, y + (s + 1) * dy, dx, dy, (n - 1) as nat);
                lemma_ray_blocked_from(figs, white, x, y, dx, dy, s + 1, j, k, (n - 1) as nat);
                lemma_add_contains(seq![q], tail_m, t);
                if seq![q].contains(t) {
                    lemma_singleton_contains(q, t);
                }
            } else {
                match occupant(figs, q) {
                    Some(g) => {
                        if g.white != white {
                            lemma_singleton_contains_not(q, t);
                        }
                    },
                    None => {},
                }
            }
        }
    }
}

/// A singleton of one square does not hold a different square.
proof fn lemma_singleton_contains_not(q: Position, t: Position)
    requires
        q != t,
    ensures
        !seq![q].contains(t),
{
    if seq![q].contains(t) {
        lemma_singleton_contains(q, t);
    }
}

/// Neither list of one ray walked from the figure's own square holds the
/// square `k` steps out along direction `(dx, dy)`, once a square `j < k`
/// steps out along that direction is occupied. Covers both the blocked
/// direction itself and every other direction, whose rays never meet it.
proof fn lemma_component_excludes(
    figs: Seq<Figure>,
    white: bool,
    x: int,
    y: int,
    dx: int,
    dy: int,
    dx2: int,
    dy2: int,
    j: int,
    k: int,
)
    requires
        coord_in_range(x),
        coord_in_range(y),
        unit_direction(dx, dy),
        unit_direction(dx2, dy2),
        1 <= j < k <= 7,
        occupied(figs, pos_at(x + j * dx, y + j * dy)),
    ensures
        !ray_movable(figs, x, y, dx2, dy2, 7).contains(pos_at(x + k * dx, y + k * dy)),
        !ray_killable(figs, white, x, y, dx2, dy2, 7).contains(pos_at(x + k * dx, y + k * dy)),
{
    let t = pos_at(x + k * dx, y + k * dy);
    if dx2 == dx && dy2 == dy {
        assert(x + 0 * dx == x) by (nonlinear_arith);
        assert(y + 0 * dy == y) by (nonlinear_arith);
        lemma_ray_blocked_from(figs, white, x, y, dx, dy, 0, j, k, 7);
    } else {
        if ray_movable(figs, x, y, dx2, dy2, 7).contains(t) {
            let m = lemma_ray_movable_shape(figs, x, y, dx2, dy2, 7, t);
            lemma_ray_points_distinct(x, y, dx, dy, k, dx2, dy2, m, false);
        }
        if ray_killable(figs, white, x, y, dx2, dy2, 7).contains(t) {
            let m = lemma_ray_killable_shape(figs, white, x, y, dx2, dy2, 7, t);
            lemma_ray_points_distinct(x, y, dx, dy, k, dx2, dy2, m, false);
        }
    }
}

/// A ray stops enumerating at the first occupied square: for the sliding
/// kinds, once the square `j` steps out along one of the kind's directions
/// is occupied, every square farther out along that direction is absent
/// from both `movable` and `killable`.
pub proof fn lemma_ray_stops_at_blocker(
    figs: Seq<Figure>,
    f: Figure,
    dx: int,
    dy: int,
    j: int,
    k: int,
)
    requires
        kind_ray_direction(f.kind, dx, dy),
        1 <= j < k <= 7,
        occupied(
            figs,
            pos_at(f.position.x as int + j * dx, f.position.y as int + j * dy),
        ),
        coord_in_range(f.position.x as int),
        coord_in_range(f.position.y as int),
    ensures
        !movable_spec(f, figs).contains(
            pos_at(f.position.x as int + k * dx, f.position.y as int + k * dy),
        ),
        !killable_spec(f, figs).contains(
            pos_at(f.position.x as int + k * dx, f.position.y as int + k * dy),
        ),
{
    let x = f.position.x as int;
    let y = f.position.y as int;
    let w = f.white;
    let t = pos_at(x + k * dx, y + k * dy);
    lemma_component_excludes(figs, w, x, y, dx, dy, -1, 0, j, k);
    lemma_component_excludes(figs, w, x, y, dx, dy, 1, 0, j, k);
    lemma_component_excludes(figs, w, x, y, dx, dy, 0, -1, j, k);
    lemma_component_excludes(figs, w, x, y, dx, dy, 0, 1, j, k);
    lemma_component_excludes(figs, w, x, y, dx, dy, -1, -1, j, k);
    lemma_component_excludes(figs, w, x, y, dx, dy, 1, -1, j, k);
    lemma_component_excludes(figs, w, x, y, dx, dy, 1, 1, j, k);
    lemma_component_excludes(figs, w, x, y, dx, dy, -1, 1, j, k);
    match f.kind {
        FigureType::Rook => {
            if movable_spec(f, figs).contains(t) {
                let s1 = ray_movable(figs, x, y, -1, 0, 7);
                let s2 = ray_movable(figs, x, y, 1, 0, 7);
                let s3 = ray_movable(figs, x, y, 0, -1, 7);
                let s4 = ray_movable(figs, x, y, 0, 1, 7);
                lemma_add_contains(s1 + s2 + s3, s4, t);
                lemma_add_contains(s1 + s2, s3, t);
                lemma_add_contains(s1, s2, t);
            }
            if killable_spec(f, figs).contains(t) {
                let s1 = ray_killable(figs, w, x, y, -1, 0, 7);
                let s2 = ray_killable(figs, w, x, y, 1, 0, 7);
                let s3 = ray_killable(figs, w, x, y, 0, -1, 7);
                let s4 = ray_killable(figs, w, x, y, 0, 1, 7);
                lemma_add_contains(s1 + s2 + s3, s4, t);
                lemma_add_contains(s1 + s2, s3, t);
                lemma_add_contains(s1, s2, t);
            }
        },
        FigureType::Bishop => {
            if movable_spec(f, figs).contains(t) {
                let s1 = ray_movable(figs, x, y, -1, -1, 7);
                let s2 = ray_movable(figs, x, y, 1, -1, 7);
                let s3 = ray_movable(figs, x, y, 1, 1, 7);
                let s4 = ray_movable(figs, x, y, -1, 1, 7);
                lemma_add_contains(s1 + s2 + s3, s4, t);
                lemma_add_contains(s1 + s2, s3, t);
                lemma_add_contains(s1, s2, t);
            }
            if killable_spec(f, figs).contains(t) {
                let s1 = ray_killable(figs, w, x, y, -1, -1, 7);
                let s2 = ray_killable(figs, w, x, y, 1, -1, 7);
                let s3 = ray_killable(figs, w, x, y, 1, 1, 7);
                let s4 = ray_killable(figs, w, x, y, -1, 1, 7);
                lemma_add_contains(s1 + s2 + s3, s4, t);
                lemma_add_contains(s1 + s2, s3, t);
                lemma_add_contains(s1, s2, t);
            }
        },
        FigureType::Queen => {
            if movable_spec(f, figs).contains(t) {
                lemma_add_contains(rook_movable(figs, x, y), bishop_movable(figs, x, y), t);
                let s1 = ray_movable(figs, x, y, -1, 0, 7);
                let s2 = ray_movable(figs, x, y, 1, 0, 7);
                let s3 = ray_movable(figs, x, y, 0, -1, 7);
                let s4 = ray_movable(figs, x, y, 0, 1, 7);
                lemma_add_contains(s1 + s2 + s3, s4, t);
                lemma_add_contains(s1 + s2, s3, t);
                lemma_add_contains(s1, s2, t);
                let b1 = ray_movable(figs, x, y, -1, -1, 7);
                let b2 = ray_movable(figs, x, y, 1, -1, 7);
                let b3 = ray_movable(figs, x, y, 1, 1, 7);
                let b4 = ray_movable(figs, x, y, -1, 1, 7);
                lemma_add_contains(b1 + b2 + b3, b4, t);
                lemma_add_contains(b1 + b2, b3, t);
                lemma_add_contains(b1, b2, t);
            }
            if killable_spec(f, figs).contains(t) {
                lemma_add_contains(rook_killable(figs, w, x, y), bishop_killable(figs, w, x, y), t);
                let s1 = ray_killable(figs, w, x, y, -1, 0, 7);
                let s2 = ray_killable(figs, w, x, y, 1, 0, 7);
                let s3 = ray_killable(figs, w, x, y, 0, -1, 7);
                let s4 = ray_killable(figs, w, x, y, 0, 1, 7);
                lemma_add_contains(s1 + s2 + s3, s4, t);
                lemma_add_contains(s1 + s2, s3, t);
                lemma_add_contains(s1, s2, t);
                let b1 = ray_killable(figs, w, x, y, -1, -1, 7);
                let b2 = ray_killable(figs, w, x, y, 1, -1, 7);
                let b3 = ray_killable(figs, w, x, y, 1, 1, 7);
                let b4 = ray_killable(figs, w, x, y, -1, 1, 7);
                lemma_add_contains(b1 + b2 + b3, b4, t);
                lemma_add_contains(b1 + b2, b3, t);
                lemma_add_contains(b1, b2, t);
            }
        },
        _ => {},
    }
}

/// A square never appears in both `movable` and `killable`: the former are
/// empty, the latter occupied.
pub proof fn lemma_movable_killable_disjoint(figs: Seq<Figure>, f: Figure, p: Position)
    ensures
        !(movable_spec(f, figs).contains(p) && killable_spec(f, figs).contains(p)),
{
    if movable_spec(f, figs).contains(p) && killable_spec(f, figs).contains(p) {
        lemma_movable_is_empty(figs, f, p);
        lemma_killable_holds_opponent(figs, f, p);
    }
}

} // verus!
