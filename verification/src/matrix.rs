//! The occupancy grid: a fixed `height x width` table in which every cell
//! is either empty or holds the id of exactly one particle, plus the
//! arena of particles themselves.
//!
//! The well-formedness predicate [`ParticleMatrix::wf`] is the central
//! invariant: a live particle's stored coordinate always equals the cell
//! that references it, and every occupied cell references a live particle
//! whose coordinate maps back to that cell. Together these make the
//! occupied cells and the live particles a bijection, so no two cells can
//! ever reference the same particle.

use vstd::prelude::*;

use crate::element::{Element, ElementType};

verus! {

/// Default grid width: a 7200-unit world span at 10 world units per cell.
pub const MATRIX_WIDTH: usize = 720;

/// Default grid height: a 4800-unit world span at 10 world units per cell.
pub const MATRIX_HEIGHT: usize = 480;

/// An instance of a non-erase element occupying exactly one cell; it
/// carries its own current coordinate.
pub struct Particle {
    pub element: Element,
    pub x: usize,
    pub y: usize,
}

/// The occupancy grid and the particle arena. `cells` is row-major,
/// indexed by `y * width + x`; `y` increases upward (gravity pulls
/// toward decreasing `y`). A slot in `particles` goes back to `None`
/// when the particle is erased, so particle ids are stable for the
/// lifetime of the grid.
pub struct ParticleMatrix {
    pub width: usize,
    pub height: usize,
    pub cells: Vec<Option<usize>>,
    pub particles: Vec<Option<Particle>>,
}

/// Row-major position of cell `(x, y)` in a grid `width` cells wide.
pub open spec fn row_major(width: int, x: int, y: int) -> int {
    y * width + x
}

/// The cell index is within the table exactly when the coordinate is.
pub proof fn lemma_row_major_bounds(width: int, height: int, x: int, y: int)
    by (nonlinear_arith)
    requires
        0 <= x < width,
        0 <= y < height,
    ensures
        0 <= row_major(width, x, y) < width * height,
{
}

/// Distinct in-bounds coordinates map to distinct cell indices.
pub proof fn lemma_row_major_injective(
    width: int,
    height: int,
    x1: int,
    y1: int,
    x2: int,
    y2: int,
)
    by (nonlinear_arith)
    requires
        0 <= x1 < width,
        0 <= y1 < height,
        0 <= x2 < width,
        0 <= y2 < height,
        row_major(width, x1, y1) == row_major(width, x2, y2),
    ensures
        x1 == x2,
        y1 == y2,
{
}

impl ParticleMatrix {
    /// Whether `(x, y)` addresses a cell of the grid.
    pub open spec fn in_bounds_spec(self, x: int, y: int) -> bool {
        &&& 0 <= x < self.width
        &&& 0 <= y < self.height
    }

    /// The table position of cell `(x, y)`.
    pub open spec fn idx(self, x: int, y: int) -> int {
        row_major(self.width as int, x, y)
    }

    /// The content of cell `(x, y)`: `None`, or the id of the particle
    /// standing there. Meaningful for in-bounds coordinates.
    pub open spec fn cell(self, x: int, y: int) -> Option<usize> {
        self.cells@[self.idx(x, y)]
    }

    /// Whether `i` is the id of a live (not yet erased) particle.
    pub open spec fn live(self, i: int) -> bool {
        &&& 0 <= i < self.particles@.len()
        &&& self.particles@[i] is Some
    }

    /// The particle with id `i` (meaningful when `live(i)`).
    pub open spec fn particle(self, i: int) -> Particle {
        self.particles@[i]->0
    }

    /// The occupancy invariant.
    ///
    /// * the table has exactly `width * height` slots;
    /// * every live particle stands in bounds, its element parameters are
    ///   valid, it is not the erase sentinel, and the cell at its stored
    ///   coordinate references it;
    /// * every occupied cell references a live particle whose stored
    ///   coordinate maps back to exactly that cell.
    pub open spec fn wf(self) -> bool {
        &&& self.cells@.len() == self.width * self.height
        &&& forall|i: int|
            #[trigger] self.live(i) ==> {
                let p = self.particle(i);
                &&& p.x < self.width
                &&& p.y < self.height
                &&& p.element.wf()
                &&& p.element.element_type != ElementType::Erase
                &&& self.cells@[self.idx(p.x as int, p.y as int)] is Some
                &&& self.cells@[self.idx(p.x as int, p.y as int)]->0 == i
            }
        &&& forall|ci: int|
            0 <= ci < self.cells@.len() && #[trigger] self.cells@[ci] is Some ==> {
                let i = self.cells@[ci]->0 as int;
                &&& self.live(i)
                &&& self.idx(self.particle(i).x as int, self.particle(i).y as int) == ci
            }
    }

    /// A fresh, fully empty grid with the given fixed dimensions.
    pub fn new(width: usize, height: usize) -> (m: ParticleMatrix)
        requires
            width * height <= usize::MAX,
        ensures
            m.wf(),
            m.width == width,
            m.height == height,
            m.particles@.len() == 0,
            forall|x: int, y: int| m.in_bounds_spec(x, y) ==> #[trigger] m.cell(x, y) is None,
    {
        let n: usize = width * height;
        let mut cells: Vec<Option<usize>> = Vec::new();
        while cells.len() < n
            invariant
                cells@.len() <= n,
                forall|k: int| 0 <= k < cells@.len() ==> #[trigger] cells@[k] is None,
            decreases n - cells@.len(),
        {
            cells.push(None);
        }
        let m = ParticleMatrix { width, height, cells, particles: Vec::new() };
        proof {
            assert forall|x: int, y: int| m.in_bounds_spec(x, y) implies #[trigger] m.cell(
                x,
                y,
            ) is None by {
                lemma_row_major_bounds(width as int, height as int, x, y);
            }
        }
        m
    }

    /// The table position of an in-bounds cell, as an executable index.
    pub fn cell_index(&self, x: usize, y: usize) -> (ci: usize)
        requires
            self.wf(),
            self.in_bounds_spec(x as int, y as int),
        ensures
            ci == self.idx(x as int, y as int),
            ci < self.cells@.len(),
    {
        let total = self.cells.len();
        proof {
            lemma_row_major_bounds(self.width as int, self.height as int, x as int, y as int);
            assert(self.idx(x as int, y as int) < total);
        }
        y * self.width + x
    }

    /// Defensive cell query: `None` for an out-of-range coordinate rather
    /// than a failure, because movement rules probe neighbors that may
    /// fall outside the grid at its edges.
    pub fn get(&self, x: usize, y: usize) -> (r: Option<usize>)
        requires
            self.wf(),
        ensures
            r == if self.in_bounds_spec(x as int, y as int) {
                self.cell(x as int, y as int)
            } else {
                None::<usize>
            },
    {
        if x < self.width && y < self.height {
            let ci = self.cell_index(x, y);
            self.cells[ci]
        } else {
            None
        }
    }
}

impl ParticleMatrix {
    /// Defensively clears one cell. If `(x, y)` is in bounds and occupied,
    /// the particle standing there is destroyed and its id returned;
    /// clearing an empty or out-of-bounds cell is a harmless no-op.
    pub fn clear(&mut self, x: usize, y: usize) -> (erased: Option<usize>)
        requires
            old(self).wf(),
        ensures
            final(self).wf(),
            final(self).width == old(self).width,
            final(self).height == old(self).height,
            final(self).particles@.len() == old(self).particles@.len(),
            erased == if old(self).in_bounds_spec(x as int, y as int) {
                old(self).cell(x as int, y as int)
            } else {
                None::<usize>
            },
            old(self).in_bounds_spec(x as int, y as int) ==> final(self).cell(
                x as int,
                y as int,
            ) is None,
            forall|cx: int, cy: int|
                old(self).in_bounds_spec(cx, cy) && !(cx == x && cy == y) ==> final(self).cell(
                    cx,
                    cy,
                ) == old(self).cell(cx, cy),
            forall|i: int|
                #[trigger] old(self).live(i) && (erased is Some ==> i != erased->0)
                    ==> final(self).live(i) && final(self).particle(i) == old(self).particle(i),
            forall|i: int| #[trigger] final(self).live(i) ==> old(self).live(i),
            erased is Some ==> !final(self).live(erased->0 as int),
    {
        if x < self.width && y < self.height {
            let ci = self.cell_index(x, y);
            match self.cells[ci] {
                Some(i) => {
                    self.cells[ci] = None;
                    self.particles[i] = None;
                    proof {
                        let g = *old(self);
                        let m = *self;
                        assert forall|j: int| #[trigger] m.live(j) implies {
                            let p = m.particle(j);
                            &&& p.x < m.width
                            &&& p.y < m.height
                            &&& p.element.wf()
                            &&& p.element.element_type != ElementType::Erase
                            &&& m.cells@[m.idx(p.x as int, p.y as int)] is Some
                            &&& m.cells@[m.idx(p.x as int, p.y as int)]->0 == j
                        } by {
                            assert(g.live(j));
                            assert(j != i);
                            let p = g.particle(j);
                            lemma_row_major_bounds(
                                g.width as int,
                                g.height as int,
                                p.x as int,
                                p.y as int,
                            );
                            assert(g.cells@[g.idx(p.x as int, p.y as int)] is Some);
                            assert(g.cells@[g.idx(p.x as int, p.y as int)]->0 == j);
                            if g.idx(p.x as int, p.y as int) == ci as int {
                                assert(g.cells@[ci as int] == Some(i));
                                assert(false);
                            }
                        }
                        assert forall|cj: int|
                            0 <= cj < m.cells@.len() && #[trigger] m.cells@[cj] is Some implies {
                            let j = m.cells@[cj]->0 as int;
                            &&& m.live(j)
                            &&& m.idx(m.particle(j).x as int, m.particle(j).y as int) == cj
                        } by {
                            let j = m.cells@[cj]->0 as int;
                            assert(g.cells@[cj] is Some);
                            assert(g.live(j));
                            assert(j != i);
                        }
                        assert forall|cx: int, cy: int|
                            g.in_bounds_spec(cx, cy) && !(cx == x && cy == y) implies m.cell(cx, cy)
                            == g.cell(cx, cy) by {
                            lemma_row_major_bounds(m.width as int, m.height as int, cx, cy);
                            if m.idx(cx, cy) == ci {
                                lemma_row_major_injective(
                                    m.width as int,
                                    m.height as int,
                                    cx,
                                    cy,
                                    x as int,
                                    y as int,
                                );
                            }
                        }
                    }
                    Some(i)
                },
                None => None,
            }
        } else {
            None
        }
    }
}

/// Creates a particle of `element` on the empty in-bounds cell `(x, y)`
/// and returns its id (which equals the number of arena slots before the
/// call). Every previously live particle is untouched and every other
/// cell keeps its content.
pub fn spawn_particle(m: &mut ParticleMatrix, x: usize, y: usize, element: Element) -> (id: usize)
    requires
        old(m).wf(),
        old(m).in_bounds_spec(x as int, y as int),
        old(m).cell(x as int, y as int) is None,
        element.wf(),
        element.element_type != ElementType::Erase,
        old(m).particles@.len() < usize::MAX,
    ensures
        final(m).wf(),
        final(m).width == old(m).width,
        final(m).height == old(m).height,
        id == old(m).particles@.len(),
        final(m).particles@.len() == old(m).particles@.len() + 1,
        final(m).live(id as int),
        final(m).particle(id as int) == (Particle { element, x, y }),
        final(m).cell(x as int, y as int) == Some(id),
        forall|i: int|
            #[trigger] old(m).live(i) ==> final(m).live(i) && final(m).particle(i) == old(
                m,
            ).particle(i),
        forall|i: int| #[trigger] final(m).live(i) ==> old(m).live(i) || i == id,
        forall|cx: int, cy: int|
            old(m).in_bounds_spec(cx, cy) && !(cx == x && cy == y) ==> final(m).cell(cx, cy) == old(
                m,
            ).cell(cx, cy),
{
    let id = m.particles.len();
    let ci = m.cell_index(x, y);
    m.particles.push(Some(Particle { element, x, y }));
    m.cells[ci] = Some(id);
    proof {
        let g = *old(m);
        let mm = *m;
        assert forall|i: int| #[trigger] mm.live(i) && i != id implies g.live(i) && mm.particle(i)
            == g.particle(i) by {}
        assert forall|j: int| #[trigger] mm.live(j) implies {
            let p = mm.particle(j);
            &&& p.x < mm.width
            &&& p.y < mm.height
            &&& p.element.wf()
            &&& p.element.element_type != ElementType::Erase
            &&& mm.cells@[mm.idx(p.x as int, p.y as int)] is Some
            &&& mm.cells@[mm.idx(p.x as int, p.y as int)]->0 == j
        } by {
            if j == id {
                assert(mm.cells@[ci as int] == Some(id));
            } else {
                assert(g.live(j));
                let p = g.particle(j);
                lemma_row_major_bounds(g.width as int, g.height as int, p.x as int, p.y as int);
                assert(g.cells@[g.idx(p.x as int, p.y as int)] is Some);
                assert(g.cells@[ci as int] is None);
            }
        }
        assert forall|cj: int|
            0 <= cj < mm.cells@.len() && #[trigger] mm.cells@[cj] is Some implies {
            let j = mm.cells@[cj]->0 as int;
            &&& mm.live(j)
            &&& mm.idx(mm.particle(j).x as int, mm.particle(j).y as int) == cj
        } by {
            if cj != ci {
                assert(g.cells@[cj] is Some);
                assert(g.live(g.cells@[cj]->0 as int));
            }
        }
        assert forall|cx: int, cy: int|
            g.in_bounds_spec(cx, cy) && !(cx == x && cy == y) implies mm.cell(cx, cy) == g.cell(
            cx,
            cy,
        ) by {
            lemma_row_major_bounds(mm.width as int, mm.height as int, cx, cy);
            if mm.idx(cx, cy) == ci {
                lemma_row_major_injective(
                    mm.width as int,
                    mm.height as int,
                    cx,
                    cy,
                    x as int,
                    y as int,
                );
            }
        }
    }
    id
}

/// The occupancy bijection: in a well-formed grid, the particle referenced
/// by an occupied cell stores exactly that cell's coordinate, and two
/// distinct cells never reference the same particle.
pub proof fn lemma_occupancy_bijection(
    m: ParticleMatrix,
    x1: int,
    y1: int,
    x2: int,
    y2: int,
)
    requires
        m.wf(),
        m.in_bounds_spec(x1, y1),
        m.in_bounds_spec(x2, y2),
        m.cell(x1, y1) is Some,
        !(x1 == x2 && y1 == y2),
    ensures
        m.live(m.cell(x1, y1)->0 as int),
        m.particle(m.cell(x1, y1)->0 as int).x == x1,
        m.particle(m.cell(x1, y1)->0 as int).y == y1,
        m.cell(x2, y2) != m.cell(x1, y1),
{
    lemma_row_major_bounds(m.width as int, m.height as int, x1, y1);
    lemma_row_major_bounds(m.width as int, m.height as int, x2, y2);
    let i = m.cell(x1, y1)->0 as int;
    let p = m.particle(i);
    lemma_row_major_injective(m.width as int, m.height as int, p.x as int, p.y as int, x1, y1);
    if m.cell(x2, y2) == m.cell(x1, y1) {
        lemma_row_major_injective(m.width as int, m.height as int, x1, y1, x2, y2);
    }
}

/// Whether a (possibly negative) coordinate lies within the grid.
pub fn is_in_bounds(m: &ParticleMatrix, x: isize, y: isize) -> (r: bool)
    ensures
        r == m.in_bounds_spec(x as int, y as int),
{
    x >= 0 && (x as usize) < m.width && y >= 0 && (y as usize) < m.height
}

/// Whether cell `(x, y)` exists and is unoccupied. An out-of-bounds
/// coordinate reports `false`: such a cell is never a legal move target,
/// so substances stack against the grid boundary as if it were a wall.
pub fn is_empty(m: &ParticleMatrix, x: usize, y: usize) -> (r: bool)
    requires
        m.wf(),
    ensures
        r == (m.in_bounds_spec(x as int, y as int) && m.cell(x as int, y as int) is None),
{
    if x < m.width && y < m.height {
        let ci = m.cell_index(x, y);
        m.cells[ci].is_none()
    } else {
        false
    }
}

} // verus!
