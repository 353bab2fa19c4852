//! Laws of the simulation, proved from the contracts of the grid, the
//! movement resolver and the step scheduler: rest stability of immovable
//! solids, deterministic straight fall, collision resolution at a
//! contested cell, and the vertical drives of gases and liquids.

use vstd::prelude::*;

use crate::element::ElementType;
use crate::matrix::{
    lemma_row_major_bounds, lemma_row_major_injective, ParticleMatrix,
};
use crate::resolver::{empty_at, may_move_to, must_move_to, resolve_target};
use crate::scheduler::{tick_rel, uncontested};

verus! {

/// A chain of grid states in which each next state is reachable from the
/// previous one by one tick.
pub open spec fn tick_chain(states: Seq<ParticleMatrix>) -> bool {
    forall|k: int| 0 <= k < states.len() - 1 ==> tick_rel(#[trigger] states[k], states[k + 1])
}

/// Rest stability: an immovable solid never changes cell across any
/// number of ticks, under any neighbor configuration.
pub proof fn lemma_rest_stability(states: Seq<ParticleMatrix>, i: int)
    requires
        states.len() >= 1,
        tick_chain(states),
        states[0].live(i),
        states[0].particle(i).element.element_type == ElementType::ImmovableSolid,
    ensures
        states.last().live(i),
        states.last().particle(i).x == states[0].particle(i).x,
        states.last().particle(i).y == states[0].particle(i).y,
    decreases states.len(),
{
    if states.len() > 1 {
        let tail = states.subrange(1, states.len() as int);
        assert(tick_rel(states[0], states[1]));
        assert(tail[0] == states[1]);
        assert forall|k: int| 0 <= k < tail.len() - 1 implies tick_rel(
            #[trigger] tail[k],
            tail[k + 1],
        ) by {
            assert(tail[k] == states[k + 1]);
            assert(tail[k + 1] == states[k + 2]);
            assert(tick_rel(states[k + 1], states[k + 2]));
        }
        lemma_rest_stability(tail, i);
        assert(tail.last() == states.last());
    }
}

/// One step of straight fall: a movable solid whose straight-down cell
/// is empty proposes it under every draw; if no other particle can reach
/// that cell, the fall certainly happens this tick.
pub proof fn lemma_straight_fall_step(g: ParticleMatrix, m: ParticleMatrix, i: int)
    requires
        tick_rel(g, m),
        g.live(i),
        g.particle(i).element.element_type == ElementType::MovableSolid,
        empty_at(g, g.particle(i).x as int, g.particle(i).y as int - 1),
        uncontested(g, i, g.particle(i).x as int, g.particle(i).y as int - 1),
    ensures
        m.live(i),
        m.particle(i).x == g.particle(i).x,
        m.particle(i).y == g.particle(i).y - 1,
{
    let x = g.particle(i).x as int;
    let y = g.particle(i).y as int;
    assert(must_move_to(g, i, x, y - 1));
}

/// One step of a gas's rise: the vertical mirror of straight fall.
pub proof fn lemma_gas_rises_step(g: ParticleMatrix, m: ParticleMatrix, i: int)
    requires
        tick_rel(g, m),
        g.live(i),
        g.particle(i).element.element_type == ElementType::Gas,
        empty_at(g, g.particle(i).x as int, g.particle(i).y as int + 1),
        uncontested(g, i, g.particle(i).x as int, g.particle(i).y as int + 1),
    ensures
        m.live(i),
        m.particle(i).x == g.particle(i).x,
        m.particle(i).y == g.particle(i).y + 1,
{
    let x = g.particle(i).x as int;
    let y = g.particle(i).y as int;
    assert(must_move_to(g, i, x, y + 1));
}

/// One step of a liquid's settling: straight down when the cell below is
/// empty, under every draw.
pub proof fn lemma_liquid_settles_step(g: ParticleMatrix, m: ParticleMatrix, i: int)
    requires
        tick_rel(g, m),
        g.live(i),
        g.particle(i).element.element_type == ElementType::Liquid,
        empty_at(g, g.particle(i).x as int, g.particle(i).y as int - 1),
        uncontested(g, i, g.particle(i).x as int, g.particle(i).y as int - 1),
    ensures
        m.live(i),
        m.particle(i).x == g.particle(i).x,
        m.particle(i).y == g.particle(i).y - 1,
{
    let x = g.particle(i).x as int;
    let y = g.particle(i).y as int;
    assert(must_move_to(g, i, x, y - 1));
}

/// In a well-formed grid whose only live particle is `i`, every cell
/// other than the particle's own is empty.
pub proof fn lemma_lone_particle_open_grid(g: ParticleMatrix, i: int, cx: int, cy: int)
    requires
        g.wf(),
        g.live(i),
        forall|o: int| #[trigger] g.live(o) ==> o == i,
        g.in_bounds_spec(cx, cy),
        !(cx == g.particle(i).x && cy == g.particle(i).y),
    ensures
        empty_at(g, cx, cy),
{
    let w = g.width as int;
    let h = g.height as int;
    lemma_row_major_bounds(w, h, cx, cy);
    if g.cell(cx, cy) is Some {
        assert(g.cells@[g.idx(cx, cy)] is Some);
        let o = g.cell(cx, cy)->0 as int;
        assert(g.live(o));
        let po = g.particle(o);
        lemma_row_major_injective(w, h, po.x as int, po.y as int, cx, cy);
        assert(false);
    }
}

/// Straight fall, whole descent: a movable solid placed at `(x, y)` as
/// the only particle in the grid falls exactly one cell per tick and
/// stands at `(x, 0)` after exactly `y` ticks — deterministically, since
/// the straight-down cell is empty at every step.
pub proof fn lemma_straight_fall(states: Seq<ParticleMatrix>, i: int)
    requires
        states.len() >= 1,
        tick_chain(states),
        forall|k: int| 0 <= k < states.len() ==> (#[trigger] states[k]).wf(),
        states[0].live(i),
        forall|o: int| #[trigger] states[0].live(o) ==> o == i,
        states[0].particle(i).element.element_type == ElementType::MovableSolid,
        states.len() == states[0].particle(i).y + 1,
    ensures
        states.last().live(i),
        states.last().particle(i).x == states[0].particle(i).x,
        states.last().particle(i).y == 0,
    decreases states.len(),
{
    let g = states[0];
    let x = g.particle(i).x as int;
    let y = g.particle(i).y as int;
    if states.len() > 1 {
        let m = states[1];
        assert(tick_rel(g, m));
        lemma_lone_particle_open_grid(g, i, x, y - 1);
        lemma_straight_fall_step(g, m, i);
        let tail = states.subrange(1, states.len() as int);
        assert(tail[0] == m);
        assert forall|k: int| 0 <= k < tail.len() - 1 implies tick_rel(
            #[trigger] tail[k],
            tail[k + 1],
        ) by {
            assert(tail[k] == states[k + 1]);
            assert(tail[k + 1] == states[k + 2]);
            assert(tick_rel(states[k + 1], states[k + 2]));
        }
        assert forall|k: int| 0 <= k < tail.len() implies (#[trigger] tail[k]).wf() by {
            assert(tail[k] == states[k + 1]);
            assert(states[k + 1].wf());
        }
        assert forall|o: int| #[trigger] m.live(o) implies o == i by {
            assert(g.live(o));
        }
        assert(m.particle(i).element == g.particle(i).element);
        lemma_straight_fall(tail, i);
        assert(tail.last() == states.last());
    }
}

/// A liquid over an empty column settles to the bottom the same way a
/// movable solid falls: one cell per tick, reaching `(x, 0)` after
/// exactly `y` ticks when it is the only particle in the grid.
pub proof fn lemma_liquid_settles(states: Seq<ParticleMatrix>, i: int)
    requires
        states.len() >= 1,
        tick_chain(states),
        forall|k: int| 0 <= k < states.len() ==> (#[trigger] states[k]).wf(),
        states[0].live(i),
        forall|o: int| #[trigger] states[0].live(o) ==> o == i,
        states[0].particle(i).element.element_type == ElementType::Liquid,
        states.len() == states[0].particle(i).y + 1,
    ensures
        states.last().live(i),
        states.last().particle(i).x == states[0].particle(i).x,
        states.last().particle(i).y == 0,
    decreases states.len(),
{
    let g = states[0];
    let x = g.particle(i).x as int;
    let y = g.particle(i).y as int;
    if states.len() > 1 {
        let m = states[1];
        assert(tick_rel(g, m));
        lemma_lone_particle_open_grid(g, i, x, y - 1);
        lemma_liquid_settles_step(g, m, i);
        let tail = states.subrange(1, states.len() as int);
        assert(tail[0] == m);
        assert forall|k: int| 0 <= k < tail.len() - 1 implies tick_rel(
            #[trigger] tail[k],
            tail[k + 1],
        ) by {
            assert(tail[k] == states[k + 1]);
            assert(tail[k + 1] == states[k + 2]);
            assert(tick_rel(states[k + 1], states[k + 2]));
        }
        assert forall|k: int| 0 <= k < tail.len() implies (#[trigger] tail[k]).wf() by {
            assert(tail[k] == states[k + 1]);
            assert(states[k + 1].wf());
        }
        assert forall|o: int| #[trigger] m.live(o) implies o == i by {
            assert(g.live(o));
        }
        assert(m.particle(i).element == g.particle(i).element);
        lemma_liquid_settles(tail, i);
        assert(tail.last() == states.last());
    }
}

/// A gas under an open column rises to the top: one cell per tick,
/// reaching the topmost cell of the column after exactly
/// `height - 1 - y` ticks when it is the only particle in the grid.
pub proof fn lemma_gas_rises(states: Seq<ParticleMatrix>, i: int)
    requires
        states.len() >= 1,
        tick_chain(states),
        forall|k: int| 0 <= k < states.len() ==> (#[trigger] states[k]).wf(),
        states[0].live(i),
        forall|o: int| #[trigger] states[0].live(o) ==> o == i,
        states[0].particle(i).element.element_type == ElementType::Gas,
        states.len() == states[0].height - states[0].particle(i).y,
    ensures
        states.last().live(i),
        states.last().particle(i).x == states[0].particle(i).x,
        states.last().particle(i).y == states[0].height - 1,
    decreases states.len(),
{
    let g = states[0];
    let x = g.particle(i).x as int;
    let y = g.particle(i).y as int;
    if states.len() > 1 {
        let m = states[1];
        assert(tick_rel(g, m));
        lemma_lone_particle_open_grid(g, i, x, y + 1);
        lemma_gas_rises_step(g, m, i);
        let tail = states.subrange(1, states.len() as int);
        assert(tail[0] == m);
        assert forall|k: int| 0 <= k < tail.len() - 1 implies tick_rel(
            #[trigger] tail[k],
            tail[k + 1],
        ) by {
            assert(tail[k] == states[k + 1]);
            assert(tail[k + 1] == states[k + 2]);
            assert(tick_rel(states[k + 1], states[k + 2]));
        }
        assert forall|k: int| 0 <= k < tail.len() implies (#[trigger] tail[k]).wf() by {
            assert(tail[k] == states[k + 1]);
            assert(states[k + 1].wf());
        }
        assert forall|o: int| #[trigger] m.live(o) implies o == i by {
            assert(g.live(o));
        }
        assert(m.particle(i).element == g.particle(i).element);
        lemma_gas_rises(tail, i);
        assert(tail.last() == states.last());
    }
}

/// Commit collision resolution: when two particles both propose the same
/// destination under every draw, it was empty, and nobody else can reach
/// it, then after the tick exactly one of the two occupies it and the
/// other stands exactly where it was. Neither particle is created or
/// destroyed.
pub proof fn lemma_commit_collision(
    g: ParticleMatrix,
    m: ParticleMatrix,
    i: int,
    j: int,
    cx: int,
    cy: int,
)
    requires
        g.wf(),
        m.wf(),
        tick_rel(g, m),
        g.live(i),
        g.live(j),
        i != j,
        must_move_to(g, i, cx, cy),
        must_move_to(g, j, cx, cy),
        empty_at(g, cx, cy),
        forall|o: int|
            #[trigger] g.live(o) && o != i && o != j ==> !may_move_to(g, o, cx, cy),
    ensures
        m.live(i),
        m.live(j),
        m.cell(cx, cy) is Some,
        (m.particle(i).x == cx && m.particle(i).y == cy && m.particle(j) == g.particle(j)) || (
        m.particle(j).x == cx && m.particle(j).y == cy && m.particle(i) == g.particle(i)),
        !(m.particle(i).x == cx && m.particle(i).y == cy && m.particle(j).x == cx && m.particle(
            j,
        ).y == cy),
{
    let w = g.width as int;
    let h = g.height as int;
    // some forced contender exists, so the cell is occupied afterwards
    assert(m.cell(cx, cy) is Some);
    lemma_row_major_bounds(w, h, cx, cy);
    let o = m.cell(cx, cy)->0 as int;
    assert(m.cells@[m.idx(cx, cy)] is Some);
    assert(m.live(o));
    let po = m.particle(o);
    assert(m.idx(po.x as int, po.y as int) == m.idx(cx, cy));
    lemma_row_major_injective(w, h, po.x as int, po.y as int, cx, cy);
    assert(po.x == cx && po.y == cy);
    assert(g.live(o));
    // the occupant moved there, so it is one of the two contenders
    if o != i && o != j {
        let p0 = g.particle(o);
        if p0.x == po.x && p0.y == po.y {
            lemma_row_major_bounds(w, h, p0.x as int, p0.y as int);
            assert(g.cells@[g.idx(p0.x as int, p0.y as int)] is Some);
            assert(false);
        } else {
            assert(may_move_to(g, o, cx, cy));
            assert(false);
        }
    }
    // the loser could only have gone to the contested cell, which is
    // taken, so it stayed put
    assert forall|l: int|
        (l == i || l == j) && l != o implies m.particle(l) == g.particle(l) by {
        let p0 = g.particle(l);
        let p1 = m.particle(l);
        if !(p1.x == p0.x && p1.y == p0.y) {
            assert(may_move_to(g, l, p1.x as int, p1.y as int));
            assert(resolve_target(g, l, true, true) == (cx, cy));
            assert(p1.x == cx && p1.y == cy);
            assert(m.live(l));
            assert(m.cells@[m.idx(p1.x as int, p1.y as int)]->0 == l);
            assert(l == o);
            assert(false);
        }
        assert(p1.element == p0.element);
        assert(p1 == p0);
    }
    if o == i {
        assert(m.particle(j) == g.particle(j));
    } else {
        assert(o == j);
        assert(m.particle(i) == g.particle(i));
    }
    // never both: the grid holds one particle per cell
    if m.particle(i).x == cx && m.particle(i).y == cy && m.particle(j).x == cx && m.particle(j).y
        == cy {
        assert(m.cells@[m.idx(cx, cy)]->0 == i);
        assert(m.cells@[m.idx(cx, cy)]->0 == j);
        assert(false);
    }
}

} // verus!
