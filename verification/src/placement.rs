//! The placement controller: painting and erasing with a square brush.
//!
//! A brush is described by its world-space side length, kept in
//! `[10, 100]` in steps of 10 by [`PlacementSize`]; with cells 10 world
//! units wide, a brush of side `s` covers every cell whose center lies
//! in the square, the `2 * (s / 20) + 1` cells around the center cell in
//! each axis. The footprint is clipped to the grid: painting near an
//! edge only ever touches in-bounds cells.
//!
//! Painting a substance spawns a particle on every empty cell of the
//! footprint and never overwrites an occupied cell; painting with the
//! erase tool destroys the particle of every occupied cell of the
//! footprint, and erasing an empty cell is a harmless no-op.

use vstd::prelude::*;

use crate::element::{Element, ElementType};
use crate::matrix::{lemma_row_major_bounds, lemma_row_major_injective, spawn_particle, ParticleMatrix};

verus! {

/// The smallest brush side, also the side step and the cell size.
pub const MIN_PLACEMENT_SIZE: u32 = 10;

/// The largest brush side.
pub const MAX_PLACEMENT_SIZE: u32 = 100;

/// The current brush: a square of side `size` world units.
pub struct PlacementSize {
    pub size: u32,
}

impl PlacementSize {
    /// A valid brush side lies in `[10, 100]`.
    pub open spec fn wf(self) -> bool {
        MIN_PLACEMENT_SIZE <= self.size <= MAX_PLACEMENT_SIZE
    }

    /// The starting brush: the smallest one.
    pub fn new() -> (s: PlacementSize)
        ensures
            s.wf(),
            s.size == MIN_PLACEMENT_SIZE,
    {
        PlacementSize { size: MIN_PLACEMENT_SIZE }
    }

    /// Grows the brush by one step, saturating at the largest side.
    pub fn increase(&mut self)
        requires
            old(self).wf(),
        ensures
            final(self).wf(),
            final(self).size == if old(self).size + 10 <= MAX_PLACEMENT_SIZE {
                old(self).size + 10
            } else {
                MAX_PLACEMENT_SIZE as int
            },
    {
        if self.size + 10 <= MAX_PLACEMENT_SIZE {
            self.size = self.size + 10;
        } else {
            self.size = MAX_PLACEMENT_SIZE;
        }
    }

    /// Shrinks the brush by one step, saturating at the smallest side.
    pub fn decrease(&mut self)
        requires
            old(self).wf(),
        ensures
            final(self).wf(),
            final(self).size == if old(self).size - 10 >= MIN_PLACEMENT_SIZE {
                old(self).size - 10
            } else {
                MIN_PLACEMENT_SIZE as int
            },
    {
        if self.size >= MIN_PLACEMENT_SIZE + 10 {
            self.size = self.size - 10;
        } else {
            self.size = MIN_PLACEMENT_SIZE;
        }
    }
}

/// The brush side actually used by `paint`: clamped into `[10, 100]`.
pub open spec fn clamp_brush(size: int) -> int {
    if size < MIN_PLACEMENT_SIZE {
        MIN_PLACEMENT_SIZE as int
    } else if size > MAX_PLACEMENT_SIZE {
        MAX_PLACEMENT_SIZE as int
    } else {
        size
    }
}

/// Half-width of the footprint, in cells, of a brush of side `size`.
pub open spec fn brush_half(size: int) -> int {
    clamp_brush(size) / 20
}

/// Whether cell `(x, y)` lies in the square footprint of half-width
/// `half` centered on cell `(cx, cy)`.
pub open spec fn in_footprint(cx: int, cy: int, half: int, x: int, y: int) -> bool {
    &&& cx - half <= x <= cx + half
    &&& cy - half <= y <= cy + half
}

/// What painting with element `e` leaves on one footprint cell, relating
/// the grid before (`g`) and after (`m`). Erasing leaves the cell empty;
/// painting a substance fills an empty cell with a particle of `e` and
/// leaves an occupied cell exactly as it was.
pub open spec fn painted_cell(g: ParticleMatrix, m: ParticleMatrix, e: Element, x: int, y: int) -> bool {
    if e.element_type == ElementType::Erase {
        m.cell(x, y) is None
    } else if g.cell(x, y) is None {
        &&& m.cell(x, y) is Some
        &&& m.live(m.cell(x, y)->0 as int)
        &&& m.particle(m.cell(x, y)->0 as int).element == e
    } else {
        m.cell(x, y) == g.cell(x, y)
    }
}

impl ParticleMatrix {
    /// Paints (or erases, when `element` is the erase tool) the square
    /// brush footprint of side `size` centered on the in-bounds cell
    /// `(cx, cy)`, clipped to the grid: only in-bounds cells are ever
    /// affected. Painting never overwrites an occupied cell, and erasing
    /// an empty cell changes nothing.
    pub fn paint(&mut self, cx: usize, cy: usize, size: u32, element: &Element)
        requires
            old(self).wf(),
            old(self).in_bounds_spec(cx as int, cy as int),
            element.wf(),
            old(self).particles@.len() + 121 <= usize::MAX,
        ensures
            final(self).wf(),
            final(self).width == old(self).width,
            final(self).height == old(self).height,
            forall|x: int, y: int|
                old(self).in_bounds_spec(x, y) && !in_footprint(
                    cx as int,
                    cy as int,
                    brush_half(size as int),
                    x,
                    y,
                ) ==> final(self).cell(x, y) == old(self).cell(x, y),
            forall|x: int, y: int|
                old(self).in_bounds_spec(x, y) && in_footprint(
                    cx as int,
                    cy as int,
                    brush_half(size as int),
                    x,
                    y,
                ) ==> painted_cell(*old(self), *final(self), *element, x, y),
            forall|i: int|
                #[trigger] old(self).live(i) ==> {
                    let p = old(self).particle(i);
                    if element.element_type == ElementType::Erase && in_footprint(
                        cx as int,
                        cy as int,
                        brush_half(size as int),
                        p.x as int,
                        p.y as int,
                    ) {
                        !final(self).live(i)
                    } else {
                        final(self).live(i) && final(self).particle(i) == p
                    }
                },
            forall|i: int|
                #[trigger] final(self).live(i) && !old(self).live(i) ==> {
                    let p = final(self).particle(i);
                    &&& element.element_type != ElementType::Erase
                    &&& p.element == *element
                    &&& in_footprint(
                        cx as int,
                        cy as int,
                        brush_half(size as int),
                        p.x as int,
                        p.y as int,
                    )
                    &&& old(self).cell(p.x as int, p.y as int) is None
                },
            element.element_type == ElementType::Erase ==> final(self).particles@.len() == old(
                self,
            ).particles@.len(),
    {
        let ghost g = *old(self);
        let ghost hf = brush_half(size as int);
        let s: u32 = if size < MIN_PLACEMENT_SIZE {
            MIN_PLACEMENT_SIZE
        } else if size > MAX_PLACEMENT_SIZE {
            MAX_PLACEMENT_SIZE
        } else {
            size
        };
        let half: usize = (s / 20) as usize;
        proof {
            assert(half == hf);
            assert(hf <= 5);
        }
        let x_lo: usize = if cx >= half {
            cx - half
        } else {
            0
        };
        let x_hi: usize = if self.width - 1 - cx <= half {
            self.width - 1
        } else {
            cx + half
        };
        let y_lo: usize = if cy >= half {
            cy - half
        } else {
            0
        };
        let y_hi: usize = if self.height - 1 - cy <= half {
            self.height - 1
        } else {
            cy + half
        };
        let erase = element.element_type == ElementType::Erase;
        let mut y = y_lo;
        while y <= y_hi
            invariant
                self.wf(),
                g.wf(),
                element.wf(),
                erase == (element.element_type == ElementType::Erase),
                self.width == g.width,
                self.height == g.height,
                0 <= x_lo <= x_hi < g.width,
                0 <= y_lo <= y <= y_hi + 1,
                y_hi < g.height,
                x_hi - x_lo <= 10,
                y_hi - y_lo <= 10,
                g.particles@.len() + 121 <= usize::MAX,
                self.particles@.len() <= g.particles@.len() + (y - y_lo) * 11,
                erase ==> self.particles@.len() == g.particles@.len(),
                forall|x2: int, y2: int|
                    g.in_bounds_spec(x2, y2) && !(x_lo <= x2 <= x_hi && y_lo <= y2 < y)
                        ==> #[trigger] self.cell(x2, y2) == g.cell(x2, y2),
                forall|x2: int, y2: int|
                    x_lo <= x2 <= x_hi && y_lo <= y2 < y ==> painted_cell(
                        g,
                        *self,
                        *element,
                        x2,
                        y2,
                    ),
                forall|i: int|
                    #[trigger] g.live(i) ==> {
                        let p = g.particle(i);
                        if erase && x_lo <= p.x <= x_hi && y_lo <= p.y < y {
                            !self.live(i)
                        } else {
                            self.live(i) && self.particle(i) == p
                        }
                    },
                forall|i: int|
                    #[trigger] self.live(i) && !g.live(i) ==> {
                        let p = self.particle(i);
                        &&& !erase
                        &&& p.element == *element
                        &&& x_lo <= p.x <= x_hi && y_lo <= p.y < y
                        &&& g.cell(p.x as int, p.y as int) is None
                    },
            decreases y_hi + 1 - y,
        {
            let mut x = x_lo;
            while x <= x_hi
                invariant
                    self.wf(),
                    g.wf(),
                    element.wf(),
                    erase == (element.element_type == ElementType::Erase),
                    self.width == g.width,
                    self.height == g.height,
                    0 <= x_lo <= x <= x_hi + 1,
                    x_hi < g.width,
                    0 <= y_lo <= y <= y_hi,
                    y_hi < g.height,
                    x_hi - x_lo <= 10,
                    y_hi - y_lo <= 10,
                    g.particles@.len() + 121 <= usize::MAX,
                    self.particles@.len() <= g.particles@.len() + (y - y_lo) * 11 + (x - x_lo),
                    erase ==> self.particles@.len() == g.particles@.len(),
                    forall|x2: int, y2: int|
                        g.in_bounds_spec(x2, y2) && !(x_lo <= x2 <= x_hi && (y_lo <= y2 < y || (y2
                            == y && x_lo <= x2 < x))) ==> #[trigger] self.cell(x2, y2) == g.cell(
                            x2,
                            y2,
                        ),
                    forall|x2: int, y2: int|
                        x_lo <= x2 <= x_hi && (y_lo <= y2 < y || (y2 == y && x_lo <= x2 < x))
                            ==> painted_cell(g, *self, *element, x2, y2),
                    forall|i: int|
                        #[trigger] g.live(i) ==> {
                            let p = g.particle(i);
                            if erase && x_lo <= p.x <= x_hi && (y_lo <= p.y < y || (p.y == y
                                && x_lo <= p.x < x)) {
                                !self.live(i)
                            } else {
                                self.live(i) && self.particle(i) == p
                            }
                        },
                    forall|i: int|
                        #[trigger] self.live(i) && !g.live(i) ==> {
                            let p = self.particle(i);
                            &&& !erase
                            &&& p.element == *element
                            &&& x_lo <= p.x <= x_hi
                            &&& y_lo <= p.y < y || (p.y == y && x_lo <= p.x < x)
                            &&& g.cell(p.x as int, p.y as int) is None
                        },
                decreases x_hi + 1 - x,
            {
                let ghost before = *self;
                if erase {
                    let _erased = self.clear(x, y);
                } else {
                    let here = self.get(x, y);
                    if here.is_none() {
                        let _id = spawn_particle(self, x, y, element.clone());
                    }
                }
                proof {
                    let aft = *self;
                    let xi = x as int;
                    let yi = y as int;
                    assert forall|x2: int, y2: int|
                        x_lo <= x2 <= x_hi && (y_lo <= y2 < y || (y2 == y && x_lo <= x2 < x + 1))
                            implies painted_cell(g, aft, *element, x2, y2) by {
                        if x2 == xi && y2 == yi {
                            if !erase {
                                assert(before.cell(xi, yi) == g.cell(xi, yi));
                            }
                        } else {
                            assert(painted_cell(g, before, *element, x2, y2));
                            assert(aft.cell(x2, y2) == before.cell(x2, y2));
                            if !erase && g.cell(x2, y2) is None {
                                let id = before.cell(x2, y2)->0 as int;
                                assert(before.live(id));
                                assert(aft.live(id) && aft.particle(id) == before.particle(id));
                            }
                        }
                    }
                    assert forall|i: int| #[trigger] g.live(i) implies {
                        let p = g.particle(i);
                        if erase && x_lo <= p.x <= x_hi && (y_lo <= p.y < y || (p.y == y && x_lo
                            <= p.x < x + 1)) {
                            !aft.live(i)
                        } else {
                            aft.live(i) && aft.particle(i) == p
                        }
                    } by {
                        let p = g.particle(i);
                        if erase {
                            if x_lo <= p.x <= x_hi && (y_lo <= p.y < y || (p.y == yi && x_lo <= p.x
                                < x)) {
                                assert(!before.live(i));
                            } else if p.x == xi && p.y == yi {
                                assert(before.live(i) && before.particle(i) == p);
                                assert(before.cell(xi, yi) is Some && before.cell(xi, yi)->0 == i);
                            } else {
                                assert(before.live(i) && before.particle(i) == p);
                                if before.cell(xi, yi) is Some {
                                    lemma_row_major_bounds(
                                        before.width as int,
                                        before.height as int,
                                        xi,
                                        yi,
                                    );
                                    let j = before.cell(xi, yi)->0 as int;
                                    assert(before.cells@[before.idx(xi, yi)] is Some);
                                    assert(before.live(j));
                                    let pj = before.particle(j);
                                    assert(before.idx(pj.x as int, pj.y as int) == before.idx(
                                        xi,
                                        yi,
                                    ));
                                    lemma_row_major_injective(
                                        before.width as int,
                                        before.height as int,
                                        pj.x as int,
                                        pj.y as int,
                                        xi,
                                        yi,
                                    );
                                    assert(j != i);
                                }
                            }
                        } else {
                            assert(before.live(i) && before.particle(i) == p);
                        }
                    }
                    assert forall|i: int| #[trigger] aft.live(i) && !g.live(i) implies {
                        let p = aft.particle(i);
                        &&& !erase
                        &&& p.element == *element
                        &&& x_lo <= p.x <= x_hi
                        &&& y_lo <= p.y < y || (p.y == yi && x_lo <= p.x < x + 1)
                        &&& g.cell(p.x as int, p.y as int) is None
                    } by {
                        if before.live(i) {
                            assert(aft.particle(i) == before.particle(i));
                        } else {
                            assert(!erase);
                            assert(before.cell(xi, yi) == g.cell(xi, yi));
                        }
                    }
                }
                x = x + 1;
            }
            y = y + 1;
        }
        proof {
            assert forall|x: int, y2: int|
                g.in_bounds_spec(x, y2) && in_footprint(
                    cx as int,
                    cy as int,
                    brush_half(size as int),
                    x,
                    y2,
                ) implies painted_cell(g, *self, *element, x, y2) by {
                assert(x_lo <= x <= x_hi && y_lo <= y2 <= y_hi);
            }
        }
    }
}

} // verus!
