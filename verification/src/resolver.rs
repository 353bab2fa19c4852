//! The movement resolver: for an occupied cell, the candidate destination
//! for this tick, one rule per substance category.
//!
//! The rules are deterministic functions of the grid and of the random
//! draws made for the particle, so each executable resolver takes the
//! draws as booleans and is proved to return exactly the corresponding
//! spec-level target. Out-of-bounds neighbors always count as
//! unavailable, so substances stack against the grid boundary as if it
//! were a wall.

use vstd::prelude::*;

use crate::element::ElementType;
use crate::matrix::{is_empty, ParticleMatrix};

verus! {

/// Whether `(x, y)` is a cell of the grid and currently unoccupied — the
/// only condition under which it may become a move target.
pub open spec fn empty_at(m: ParticleMatrix, x: int, y: int) -> bool {
    &&& m.in_bounds_spec(x, y)
    &&& m.cell(x, y) is None
}

/// Destination of a movable solid standing at `(x, y)`: straight down if
/// the cell below is empty; otherwise one of the two empty diagonal-down
/// cells, with `go_left` deciding when both are free; otherwise stay.
pub open spec fn movable_solid_target(m: ParticleMatrix, x: int, y: int, go_left: bool) -> (
    int,
    int,
) {
    if empty_at(m, x, y - 1) {
        (x, y - 1)
    } else if empty_at(m, x - 1, y - 1) && empty_at(m, x + 1, y - 1) {
        if go_left {
            (x - 1, y - 1)
        } else {
            (x + 1, y - 1)
        }
    } else if empty_at(m, x - 1, y - 1) {
        (x - 1, y - 1)
    } else if empty_at(m, x + 1, y - 1) {
        (x + 1, y - 1)
    } else {
        (x, y)
    }
}

/// Destination of a liquid standing at `(x, y)`: straight down if empty;
/// otherwise an empty lateral neighbor, with `go_left` deciding when both
/// are free; otherwise, when `bubble` was drawn (probability
/// `dispersion_rate / 100`), one cell up if that is empty; otherwise stay.
pub open spec fn liquid_target(m: ParticleMatrix, x: int, y: int, go_left: bool, bubble: bool) -> (
    int,
    int,
) {
    if empty_at(m, x, y - 1) {
        (x, y - 1)
    } else if empty_at(m, x - 1, y) && empty_at(m, x + 1, y) {
        if go_left {
            (x - 1, y)
        } else {
            (x + 1, y)
        }
    } else if empty_at(m, x - 1, y) {
        (x - 1, y)
    } else if empty_at(m, x + 1, y) {
        (x + 1, y)
    } else if empty_at(m, x, y + 1) && bubble {
        (x, y + 1)
    } else {
        (x, y)
    }
}

/// Destination of a gas standing at `(x, y)`: the vertical mirror of a
/// liquid. Up if empty; otherwise an empty lateral neighbor; otherwise,
/// when `sink` was drawn (probability `1 - dispersion_rate / 100`), one
/// cell down if that is empty; otherwise stay.
pub open spec fn gas_target(m: ParticleMatrix, x: int, y: int, go_left: bool, sink: bool) -> (
    int,
    int,
) {
    if empty_at(m, x, y + 1) {
        (x, y + 1)
    } else if empty_at(m, x - 1, y) && empty_at(m, x + 1, y) {
        if go_left {
            (x - 1, y)
        } else {
            (x + 1, y)
        }
    } else if empty_at(m, x - 1, y) {
        (x - 1, y)
    } else if empty_at(m, x + 1, y) {
        (x + 1, y)
    } else if empty_at(m, x, y - 1) && sink {
        (x, y - 1)
    } else {
        (x, y)
    }
}

/// The destination of particle `i` for one tick, given the random draws:
/// `go_left` breaks lateral ties and `against` is the draw for moving
/// against the primary flow direction (a liquid's bubble, a gas's sink).
/// Immovable solids never move, and the erase sentinel is never
/// simulated.
pub open spec fn resolve_target(m: ParticleMatrix, i: int, go_left: bool, against: bool) -> (
    int,
    int,
) {
    let p = m.particle(i);
    let x = p.x as int;
    let y = p.y as int;
    match p.element.element_type {
        ElementType::MovableSolid => movable_solid_target(m, x, y, go_left),
        ElementType::Liquid => liquid_target(m, x, y, go_left, against),
        ElementType::Gas => gas_target(m, x, y, go_left, against),
        ElementType::ImmovableSolid => (x, y),
        ElementType::Erase => (x, y),
    }
}

/// Whether some pair of draws could send particle `i` to `(cx, cy)` this
/// tick. Staying put does not count as a move.
pub open spec fn may_move_to(m: ParticleMatrix, i: int, cx: int, cy: int) -> bool {
    &&& !(cx == m.particle(i).x as int && cy == m.particle(i).y as int)
    &&& {
        ||| resolve_target(m, i, true, true) == (cx, cy)
        ||| resolve_target(m, i, true, false) == (cx, cy)
        ||| resolve_target(m, i, false, true) == (cx, cy)
        ||| resolve_target(m, i, false, false) == (cx, cy)
    }
}

/// Whether every pair of draws sends particle `i` to `(cx, cy)` this
/// tick: the particle proposes that move no matter what was drawn.
pub open spec fn must_move_to(m: ParticleMatrix, i: int, cx: int, cy: int) -> bool {
    &&& !(cx == m.particle(i).x as int && cy == m.particle(i).y as int)
    &&& resolve_target(m, i, true, true) == (cx, cy)
    &&& resolve_target(m, i, true, false) == (cx, cy)
    &&& resolve_target(m, i, false, true) == (cx, cy)
    &&& resolve_target(m, i, false, false) == (cx, cy)
}

/// A resolver target is the particle's own cell or an empty in-bounds
/// cell of the snapshot it was computed against.
pub proof fn lemma_target_stays_or_empty(m: ParticleMatrix, i: int, go_left: bool, against: bool)
    ensures
        ({
            let p = m.particle(i);
            let t = resolve_target(m, i, go_left, against);
            t == (p.x as int, p.y as int) || empty_at(m, t.0, t.1)
        }),
{
}

/// Computes the movable-solid rule against the live grid; `go_left` is
/// the lateral draw (taken with probability `(100 - friction) / 200`).
pub fn simulate_movable_solid(m: &ParticleMatrix, x: usize, y: usize, go_left: bool) -> (r: (
    usize,
    usize,
))
    requires
        m.wf(),
        m.in_bounds_spec(x as int, y as int),
    ensures
        (r.0 as int, r.1 as int) == movable_solid_target(*m, x as int, y as int, go_left),
{
    if y > 0 && is_empty(m, x, y - 1) {
        (x, y - 1)
    } else {
        let down_left = x > 0 && y > 0 && is_empty(m, x - 1, y - 1);
        let down_right = y > 0 && x < usize::MAX && is_empty(m, x + 1, y - 1);
        if down_left && down_right {
            if go_left {
                (x - 1, y - 1)
            } else {
                (x + 1, y - 1)
            }
        } else if down_left {
            (x - 1, y - 1)
        } else if down_right {
            (x + 1, y - 1)
        } else {
            (x, y)
        }
    }
}

/// Computes the liquid rule against the live grid; `go_left` is the
/// lateral draw (probability one half) and `bubble` the upward draw
/// (probability `dispersion_rate / 100`).
pub fn simulate_liquid(m: &ParticleMatrix, x: usize, y: usize, go_left: bool, bubble: bool) -> (r: (
    usize,
    usize,
))
    requires
        m.wf(),
        m.in_bounds_spec(x as int, y as int),
    ensures
        (r.0 as int, r.1 as int) == liquid_target(*m, x as int, y as int, go_left, bubble),
{
    if y > 0 && is_empty(m, x, y - 1) {
        (x, y - 1)
    } else {
        let left = x > 0 && is_empty(m, x - 1, y);
        let right = x < usize::MAX && is_empty(m, x + 1, y);
        if left && right {
            if go_left {
                (x - 1, y)
            } else {
                (x + 1, y)
            }
        } else if left {
            (x - 1, y)
        } else if right {
            (x + 1, y)
        } else if y < usize::MAX && is_empty(m, x, y + 1) && bubble {
            (x, y + 1)
        } else {
            (x, y)
        }
    }
}

/// Computes the gas rule against the live grid; `go_left` is the lateral
/// draw (probability one half) and `sink` the downward draw (probability
/// `1 - dispersion_rate / 100`).
pub fn simulate_gas(m: &ParticleMatrix, x: usize, y: usize, go_left: bool, sink: bool) -> (r: (
    usize,
    usize,
))
    requires
        m.wf(),
        m.in_bounds_spec(x as int, y as int),
    ensures
        (r.0 as int, r.1 as int) == gas_target(*m, x as int, y as int, go_left, sink),
{
    if y < usize::MAX && is_empty(m, x, y + 1) {
        (x, y + 1)
    } else {
        let left = x > 0 && is_empty(m, x - 1, y);
        let right = x < usize::MAX && is_empty(m, x + 1, y);
        if left && right {
            if go_left {
                (x - 1, y)
            } else {
                (x + 1, y)
            }
        } else if left {
            (x - 1, y)
        } else if right {
            (x + 1, y)
        } else if y > 0 && is_empty(m, x, y - 1) && sink {
            (x, y - 1)
        } else {
            (x, y)
        }
    }
}

} // verus!
