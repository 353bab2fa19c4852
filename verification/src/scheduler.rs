//! The step scheduler: one simulation tick in two phases.
//!
//! **Propose**: every live particle is asked once, against the grid as it
//! stood at the start of the tick, for its candidate destination; only
//! real moves (destination differs from the current cell) are recorded.
//!
//! **Commit**: the proposals are shuffled (a fixed scan order would bias
//! motion toward one side), then applied one at a time against the live
//! grid, re-checking just before each write that the destination is
//! still empty. A proposal whose destination was taken by an earlier
//! commit of the same tick is dropped: the particle stays put, with no
//! retry. This re-validation is what preserves the one-particle-per-cell
//! invariant when two particles propose the same destination.

use vstd::prelude::*;

use crate::element::ElementType;
use crate::matrix::{lemma_row_major_bounds, lemma_row_major_injective, Particle, ParticleMatrix};
use crate::resolver::{
    empty_at, may_move_to, must_move_to, resolve_target, simulate_gas, simulate_liquid,
    simulate_movable_solid, lemma_target_stays_or_empty,
};

verus! {

/// A proposed relocation: the particle with id `id` intends to occupy
/// cell `(x, y)` this tick.
#[derive(Clone, Copy, Debug, PartialEq, Eq, Structural)]
pub struct MoveProposal {
    pub id: usize,
    pub x: usize,
    pub y: usize,
}

#[verifier::external_type_specification]
#[verifier::external_body]
pub struct ExThreadRng(rand::rngs::ThreadRng);

/// Relies on rand::thread_rng: a handle to the thread-local random
/// number generator, used for every draw of one tick.
#[verifier::external_body]
fn fresh_rng() -> rand::rngs::ThreadRng {
    rand::thread_rng()
}

/// Relies on rand::Rng::gen_ratio: a Bernoulli draw that is true with
/// probability `numerator / denominator`. It panics unless
/// `0 < denominator` and `numerator <= denominator`; a ratio of zero is
/// always false and a ratio of one always true.
#[verifier::external_body]
fn draw_ratio(rng: &mut rand::rngs::ThreadRng, numerator: u32, denominator: u32) -> (r: bool)
    requires
        0 < denominator,
        numerator <= denominator,
    ensures
        numerator == 0 ==> !r,
        numerator == denominator ==> r,
{
    rand::Rng::gen_ratio(rng, numerator, denominator)
}

/// `p` lists, for each slot of `a`, which slot of `b` it came from, and
/// `q` is its inverse: `a` holds exactly the elements of `b`, reordered.
pub open spec fn is_reordering(
    p: Seq<int>,
    q: Seq<int>,
    a: Seq<MoveProposal>,
    b: Seq<MoveProposal>,
) -> bool {
    &&& a.len() == b.len()
    &&& p.len() == b.len()
    &&& q.len() == b.len()
    &&& forall|k: int| 0 <= k < p.len() ==> 0 <= #[trigger] p[k] < b.len()
    &&& forall|k: int| 0 <= k < p.len() ==> #[trigger] q[p[k]] == k
    &&& forall|j: int| 0 <= j < q.len() ==> 0 <= #[trigger] q[j] < b.len() && p[q[j]] == j
    &&& forall|k: int| 0 <= k < a.len() ==> #[trigger] a[k] == b[p[k]]
}

/// `a` is a permutation of `b`.
pub open spec fn is_permutation_of(a: Seq<MoveProposal>, b: Seq<MoveProposal>) -> bool {
    exists|p: Seq<int>, q: Seq<int>| is_reordering(p, q, a, b)
}

/// Relies on rand::seq::SliceRandom::shuffle: an in-place Fisher-Yates
/// shuffle, which only swaps elements, so the final vector is a
/// permutation of the old one.
#[verifier::external_body]
fn shuffle_proposals(rng: &mut rand::rngs::ThreadRng, moves: &mut Vec<MoveProposal>)
    ensures
        is_permutation_of(final(moves)@, old(moves)@),
{
    rand::seq::SliceRandom::shuffle(moves.as_mut_slice(), rng)
}

/// A proposal is valid against snapshot `g` when its particle is live
/// and some pair of draws really sends that particle to the proposed
/// cell (which is then an empty cell of the snapshot).
pub open spec fn proposal_valid(g: ParticleMatrix, mv: MoveProposal) -> bool {
    &&& g.live(mv.id as int)
    &&& may_move_to(g, mv.id as int, mv.x as int, mv.y as int)
}

/// Every proposal in the batch is valid against `g`.
pub open spec fn proposals_valid(g: ParticleMatrix, s: Seq<MoveProposal>) -> bool {
    forall|k: int| 0 <= k < s.len() ==> proposal_valid(g, #[trigger] s[k])
}

/// No particle appears twice in the batch (each particle is asked once).
pub open spec fn distinct_ids(s: Seq<MoveProposal>) -> bool {
    forall|k1: int, k2: int| 0 <= k1 < k2 < s.len() ==> (#[trigger] s[k1]).id != (#[trigger] s[k2]).id
}

/// Some proposal among the first `n` targets cell `(cx, cy)`.
pub open spec fn targeted_upto(s: Seq<MoveProposal>, n: int, cx: int, cy: int) -> bool {
    exists|k: int| 0 <= k < n && k < s.len() && (#[trigger] s[k]).x == cx && s[k].y == cy
}

/// Some proposal in the batch targets cell `(cx, cy)`.
pub open spec fn targeted(s: Seq<MoveProposal>, cx: int, cy: int) -> bool {
    targeted_upto(s, s.len() as int, cx, cy)
}

/// One of the first `n` proposals concerns particle `i`.
pub open spec fn id_upto(s: Seq<MoveProposal>, n: int, i: int) -> bool {
    exists|k: int| 0 <= k < n && k < s.len() && (#[trigger] s[k]).id == i
}

/// At most one proposal in the batch targets cell `(cx, cy)`.
pub open spec fn sole_target(s: Seq<MoveProposal>, cx: int, cy: int) -> bool {
    forall|k1: int, k2: int|
        (0 <= k1 < s.len() && 0 <= k2 < s.len() && (#[trigger] s[k1]).x == cx && s[k1].y == cy
            && (#[trigger] s[k2]).x == cx && s[k2].y == cy) ==> k1 == k2
}

/// One of the first `n` proposals sends particle `i` to `(cx, cy)`.
pub open spec fn contains_move_upto(s: Seq<MoveProposal>, n: int, i: int, cx: int, cy: int) -> bool {
    exists|k: int|
        0 <= k < n && k < s.len() && (#[trigger] s[k]).id == i && s[k].x == cx && s[k].y == cy
}

/// The batch contains a proposal sending particle `i` to `(cx, cy)`.
pub open spec fn contains_move(s: Seq<MoveProposal>, i: int, cx: int, cy: int) -> bool {
    contains_move_upto(s, s.len() as int, i, cx, cy)
}

/// Raising the index bound keeps a containment fact true.
pub proof fn lemma_upto_weaken(s: Seq<MoveProposal>, n1: int, n2: int)
    requires
        n1 <= n2,
    ensures
        forall|cx: int, cy: int|
            #[trigger] targeted_upto(s, n1, cx, cy) ==> targeted_upto(s, n2, cx, cy),
        forall|i: int| #[trigger] id_upto(s, n1, i) ==> id_upto(s, n2, i),
        forall|i: int, cx: int, cy: int|
            #[trigger] contains_move_upto(s, n1, i, cx, cy) ==> contains_move_upto(
                s,
                n2,
                i,
                cx,
                cy,
            ),
{
    assert forall|cx: int, cy: int| #[trigger] targeted_upto(s, n1, cx, cy) implies targeted_upto(
        s,
        n2,
        cx,
        cy,
    ) by {
        let k = choose|k: int| 0 <= k < n1 && k < s.len() && (#[trigger] s[k]).x == cx && s[k].y == cy;
        assert(0 <= k < n2 && k < s.len() && s[k].x == cx && s[k].y == cy);
    }
    assert forall|i: int| #[trigger] id_upto(s, n1, i) implies id_upto(s, n2, i) by {
        let k = choose|k: int| 0 <= k < n1 && k < s.len() && (#[trigger] s[k]).id == i;
        assert(0 <= k < n2 && k < s.len() && s[k].id == i);
    }
    assert forall|i: int, cx: int, cy: int| #[trigger] contains_move_upto(s, n1, i, cx, cy) implies
        contains_move_upto(s, n2, i, cx, cy) by {
        let k = choose|k: int|
            0 <= k < n1 && k < s.len() && (#[trigger] s[k]).id == i && s[k].x == cx && s[k].y == cy;
        assert(0 <= k < n2 && k < s.len() && s[k].id == i && s[k].x == cx && s[k].y == cy);
    }
}

/// A valid proposal's destination is an empty in-bounds cell of the
/// snapshot, distinct from the particle's current cell.
pub proof fn lemma_valid_target(g: ParticleMatrix, mv: MoveProposal)
    requires
        proposal_valid(g, mv),
    ensures
        empty_at(g, mv.x as int, mv.y as int),
        !(mv.x == g.particle(mv.id as int).x && mv.y == g.particle(mv.id as int).y),
{
    let i = mv.id as int;
    lemma_target_stays_or_empty(g, i, true, true);
    lemma_target_stays_or_empty(g, i, true, false);
    lemma_target_stays_or_empty(g, i, false, true);
    lemma_target_stays_or_empty(g, i, false, false);
}

/// Phase one: asks the movement resolver once per live particle against
/// the stable snapshot `m`, drawing this tick's randomness, and records
/// the proposals whose destination differs from the current cell.
///
/// The result is valid against `m`, mentions each particle at most once,
/// and is complete for forced moves: a particle that proposes the same
/// destination under every draw is certainly in the batch.
fn propose(m: &ParticleMatrix, rng: &mut rand::rngs::ThreadRng) -> (moves: Vec<MoveProposal>)
    requires
        m.wf(),
    ensures
        proposals_valid(*m, moves@),
        distinct_ids(moves@),
        forall|i: int, cx: int, cy: int|
            m.live(i) && #[trigger] must_move_to(*m, i, cx, cy) ==> contains_move(
                moves@,
                i,
                cx,
                cy,
            ),
{
    let mut moves: Vec<MoveProposal> = Vec::new();
    let n = m.particles.len();
    let mut i: usize = 0;
    while i < n
        invariant
            m.wf(),
            n == m.particles@.len(),
            i <= n,
            proposals_valid(*m, moves@),
            forall|k: int| 0 <= k < moves@.len() ==> (#[trigger] moves@[k]).id < i,
            distinct_ids(moves@),
            forall|j: int, cx: int, cy: int|
                0 <= j < i && m.live(j) && #[trigger] must_move_to(*m, j, cx, cy)
                    ==> contains_move(moves@, j, cx, cy),
        decreases n - i,
    {
        let ghost moves_before = moves@;
        match &m.particles[i] {
            Some(p) => {
                let x = p.x;
                let y = p.y;
                proof {
                    assert(m.live(i as int));
                    assert(m.particle(i as int) == *p);
                }
                let kind = p.element.element_type;
                let (tx, ty): (usize, usize) = match kind {
                    ElementType::MovableSolid => {
                        let go_left = draw_ratio(rng, 100 - p.element.friction, 200);
                        let t = simulate_movable_solid(m, x, y, go_left);
                        proof {
                            assert((t.0 as int, t.1 as int) == resolve_target(
                                *m,
                                i as int,
                                go_left,
                                true,
                            ));
                        }
                        t
                    },
                    ElementType::Liquid => {
                        let go_left = draw_ratio(rng, 1, 2);
                        let bubble = draw_ratio(rng, p.element.dispersion_rate, 100);
                        let t = simulate_liquid(m, x, y, go_left, bubble);
                        proof {
                            assert((t.0 as int, t.1 as int) == resolve_target(
                                *m,
                                i as int,
                                go_left,
                                bubble,
                            ));
                        }
                        t
                    },
                    ElementType::Gas => {
                        let go_left = draw_ratio(rng, 1, 2);
                        let sink = draw_ratio(rng, 100 - p.element.dispersion_rate, 100);
                        let t = simulate_gas(m, x, y, go_left, sink);
                        proof {
                            assert((t.0 as int, t.1 as int) == resolve_target(
                                *m,
                                i as int,
                                go_left,
                                sink,
                            ));
                        }
                        t
                    },
                    ElementType::ImmovableSolid => {
                        proof {
                            assert((x as int, y as int) == resolve_target(*m, i as int, true, true));
                        }
                        (x, y)
                    },
                    ElementType::Erase => {
                        proof {
                            assert((x as int, y as int) == resolve_target(*m, i as int, true, true));
                        }
                        (x, y)
                    },
                };
                proof {
                    assert(exists|l: bool, a: bool|
                        (tx as int, ty as int) == resolve_target(*m, i as int, l, a));
                }
                if tx != x || ty != y {
                    moves.push(MoveProposal { id: i, x: tx, y: ty });
                }
                proof {
                    assert forall|j: int, cx: int, cy: int|
                        0 <= j < i + 1 && m.live(j) && #[trigger] must_move_to(*m, j, cx, cy)
                            implies contains_move(moves@, j, cx, cy) by {
                        if j < i {
                            assert(contains_move(moves_before, j, cx, cy));
                            let k = choose|k: int|
                                0 <= k < moves_before.len() && (#[trigger] moves_before[k]).id == j
                                    && moves_before[k].x == cx && moves_before[k].y == cy;
                            assert(moves@[k].id == j && moves@[k].x == cx && moves@[k].y == cy);
                        } else {
                            let (l, a) = choose|l: bool, a: bool|
                                (tx as int, ty as int) == resolve_target(*m, i as int, l, a);
                            assert(resolve_target(*m, i as int, l, a) == (cx, cy));
                            assert(moves@[moves@.len() - 1].id == j);
                        }
                    }
                }
            },
            None => {},
        }
        i = i + 1;
    }
    moves
}

/// Phase two: applies the batch one proposal at a time against the live
/// grid. Each destination is re-checked immediately before writing; a
/// proposal whose destination has been taken by an earlier commit of
/// this same batch is dropped and its particle stays put. Returns the
/// proposals that were applied, in application order.
///
/// Beyond preserving the occupancy invariant, the contract pins down:
/// particles are never created or destroyed, a particle without a
/// proposal does not move, every particle ends at its own cell or at the
/// cell its proposal named, a proposal whose destination was empty and
/// uncontested is certainly applied, and a cell that was empty but
/// targeted is certainly occupied afterwards.
fn commit(m: &mut ParticleMatrix, moves: &Vec<MoveProposal>) -> (applied: Vec<MoveProposal>)
    requires
        old(m).wf(),
        proposals_valid(*old(m), moves@),
        distinct_ids(moves@),
    ensures
        final(m).wf(),
        final(m).width == old(m).width,
        final(m).height == old(m).height,
        final(m).particles@.len() == old(m).particles@.len(),
        forall|i: int| old(m).live(i) <==> #[trigger] final(m).live(i),
        forall|i: int|
            #[trigger] old(m).live(i) ==> final(m).particle(i).element == old(m).particle(
                i,
            ).element,
        forall|i: int|
            #[trigger] old(m).live(i) ==> {
                let p0 = old(m).particle(i);
                let p1 = final(m).particle(i);
                (p1.x == p0.x && p1.y == p0.y) || contains_move(moves@, i, p1.x as int, p1.y as int)
            },
        forall|k: int|
            0 <= k < moves@.len() && empty_at(
                *old(m),
                (#[trigger] moves@[k]).x as int,
                moves@[k].y as int,
            ) && sole_target(moves@, moves@[k].x as int, moves@[k].y as int) ==> final(m).particle(
                moves@[k].id as int,
            ).x == moves@[k].x && final(m).particle(moves@[k].id as int).y == moves@[k].y,
        forall|cx: int, cy: int|
            empty_at(*old(m), cx, cy) && #[trigger] targeted(moves@, cx, cy) ==> final(m).cell(
                cx,
                cy,
            ) is Some,
        forall|j: int|
            0 <= j < applied@.len() ==> {
                let e = #[trigger] applied@[j];
                &&& old(m).live(e.id as int)
                &&& final(m).particle(e.id as int).x == e.x
                &&& final(m).particle(e.id as int).y == e.y
                &&& contains_move(moves@, e.id as int, e.x as int, e.y as int)
            },
        forall|i: int|
            #[trigger] old(m).live(i) && !(final(m).particle(i).x == old(m).particle(i).x
                && final(m).particle(i).y == old(m).particle(i).y) ==> id_upto(
                applied@,
                applied@.len() as int,
                i,
            ),
{
    let ghost g = *old(m);
    let mut applied: Vec<MoveProposal> = Vec::new();
    let n = moves.len();
    let mut k: usize = 0;
    while k < n
        invariant
            g.wf(),
            m.wf(),
            proposals_valid(g, moves@),
            distinct_ids(moves@),
            n == moves@.len(),
            k <= n,
            m.width == g.width,
            m.height == g.height,
            m.particles@.len() == g.particles@.len(),
            forall|i: int| g.live(i) <==> #[trigger] m.live(i),
            forall|i: int|
                #[trigger] g.live(i) ==> m.particle(i).element == g.particle(i).element,
            forall|i: int|
                #[trigger] g.live(i) ==> {
                    let p0 = g.particle(i);
                    let p1 = m.particle(i);
                    (p1.x == p0.x && p1.y == p0.y) || contains_move_upto(
                        moves@,
                        k as int,
                        i,
                        p1.x as int,
                        p1.y as int,
                    )
                },
            forall|k2: int|
                0 <= k2 < k && empty_at(
                    g,
                    (#[trigger] moves@[k2]).x as int,
                    moves@[k2].y as int,
                ) && sole_target(moves@, moves@[k2].x as int, moves@[k2].y as int) ==> m.particle(
                    moves@[k2].id as int,
                ).x == moves@[k2].x && m.particle(moves@[k2].id as int).y == moves@[k2].y,
            forall|cx: int, cy: int|
                g.in_bounds_spec(cx, cy) && #[trigger] m.cell(cx, cy) is Some ==> g.cell(
                    cx,
                    cy,
                ) is Some || targeted_upto(moves@, k as int, cx, cy),
            forall|cx: int, cy: int|
                empty_at(g, cx, cy) && #[trigger] targeted_upto(moves@, k as int, cx, cy)
                    ==> m.cell(cx, cy) is Some,
            forall|cx: int, cy: int|
                empty_at(g, cx, cy) && #[trigger] m.cell(cx, cy) is Some ==> id_upto(
                    moves@,
                    k as int,
                    m.cell(cx, cy)->0 as int,
                ),
            forall|j: int|
                0 <= j < applied@.len() ==> {
                    let e = #[trigger] applied@[j];
                    &&& g.live(e.id as int)
                    &&& m.particle(e.id as int).x == e.x
                    &&& m.particle(e.id as int).y == e.y
                    &&& contains_move_upto(moves@, k as int, e.id as int, e.x as int, e.y as int)
                },
            forall|i: int|
                #[trigger] g.live(i) && !(m.particle(i).x == g.particle(i).x && m.particle(i).y
                    == g.particle(i).y) ==> id_upto(applied@, applied@.len() as int, i),
        decreases n - k,
    {
        let ghost m0 = *m;
        let ghost applied0 = applied@;
        let mv = moves[k];
        proof {
            assert(proposal_valid(g, moves@[k as int]));
            lemma_valid_target(g, moves@[k as int]);
            assert(m.live(mv.id as int));
        }
        let p = m.particles[mv.id].as_ref().unwrap();
        let px = p.x;
        let py = p.y;
        let elem = p.element.clone();
        let cit = m.cell_index(mv.x, mv.y);
        if m.cells[cit].is_none() {
            let cis = m.cell_index(px, py);
            m.cells[cis] = None;
            m.cells[cit] = Some(mv.id);
            m.particles[mv.id] = Some(Particle { element: elem, x: mv.x, y: mv.y });
            applied.push(mv);
            proof {
                let id = mv.id as int;
                let tx = mv.x as int;
                let ty = mv.y as int;
                let w = g.width as int;
                let h = g.height as int;
                lemma_upto_weaken(moves@, k as int, k + 1);
                assert(m0.cells@[cis as int] is Some && m0.cells@[cis as int]->0 == id);
                assert(cis != cit);
                assert(m0.cells@[m0.idx(tx, ty)] is None);
                // liveness and elements are untouched
                assert forall|i: int| g.live(i) <==> #[trigger] m.live(i) by {
                    if i == id {
                        assert(m.live(id));
                        assert(g.live(id));
                    } else if 0 <= i < m0.particles@.len() {
                        assert(m.particles@[i] == m0.particles@[i]);
                        assert(m0.live(i) <==> g.live(i));
                        assert(m0.live(i) <==> m.live(i));
                    } else {
                        assert(!m.live(i) && !g.live(i));
                    }
                }
                // the occupancy invariant holds again
                assert forall|j: int| #[trigger] m.live(j) implies {
                    let p1 = m.particle(j);
                    &&& p1.x < m.width
                    &&& p1.y < m.height
                    &&& p1.element.wf()
                    &&& p1.element.element_type != ElementType::Erase
                    &&& m.cells@[m.idx(p1.x as int, p1.y as int)] is Some
                    &&& m.cells@[m.idx(p1.x as int, p1.y as int)]->0 == j
                } by {
                    if j == id {
                        assert(m.cells@[cit as int] == Some(mv.id));
                    } else {
                        assert(m0.live(j));
                        let p1 = m0.particle(j);
                        lemma_row_major_bounds(w, h, p1.x as int, p1.y as int);
                        assert(m0.cells@[m0.idx(p1.x as int, p1.y as int)] is Some);
                        assert(m0.cells@[m0.idx(p1.x as int, p1.y as int)]->0 == j);
                    }
                }
                assert forall|ci: int|
                    0 <= ci < m.cells@.len() && #[trigger] m.cells@[ci] is Some implies {
                    let j = m.cells@[ci]->0 as int;
                    &&& m.live(j)
                    &&& m.idx(m.particle(j).x as int, m.particle(j).y as int) == ci
                } by {
                    if ci == cit as int {
                    } else {
                        assert(m0.cells@[ci] is Some);
                        let j = m0.cells@[ci]->0 as int;
                        assert(m0.live(j));
                        if j == id {
                            assert(m0.idx(m0.particle(id).x as int, m0.particle(id).y as int)
                                == ci);
                            assert(m0.cells@[cis as int]->0 == id);
                            assert(m0.idx(m0.particle(id).x as int, m0.particle(id).y as int)
                                == cis as int);
                            assert(false);
                        }
                    }
                }
                assert(m.wf());
                // cells that were filled are targets of processed proposals,
                // and cells filled while empty in the snapshot stay filled
                assert forall|cx: int, cy: int|
                    g.in_bounds_spec(cx, cy) && #[trigger] m.cell(cx, cy) is Some implies g.cell(
                    cx,
                    cy,
                ) is Some || targeted_upto(moves@, k + 1, cx, cy) by {
                    lemma_row_major_bounds(w, h, cx, cy);
                    let ci = m.idx(cx, cy);
                    if ci == cit as int {
                        lemma_row_major_injective(w, h, cx, cy, tx, ty);
                        assert((moves@[k as int]).x == cx && moves@[k as int].y == cy);
                        assert(targeted_upto(moves@, k + 1, cx, cy));
                    } else if ci == cis as int {
                        assert(m.cells@[ci] is None);
                    } else {
                        assert(m0.cell(cx, cy) == m.cell(cx, cy));
                    }
                }
                assert forall|cx: int, cy: int|
                    empty_at(g, cx, cy) && #[trigger] targeted_upto(moves@, k + 1, cx, cy) implies
                    m.cell(cx, cy) is Some by {
                    lemma_row_major_bounds(w, h, cx, cy);
                    let ci = m.idx(cx, cy);
                    let k3 = choose|k3: int|
                        0 <= k3 < k + 1 && k3 < moves@.len() && (#[trigger] moves@[k3]).x == cx
                            && moves@[k3].y == cy;
                    if k3 < k {
                        assert(targeted_upto(moves@, k as int, cx, cy));
                        assert(m0.cell(cx, cy) is Some);
                        if ci == cis as int {
                            assert(m0.cell(cx, cy)->0 == id);
                            assert(id_upto(moves@, k as int, id));
                            let k4 = choose|k4: int|
                                0 <= k4 < k && k4 < moves@.len() && (#[trigger] moves@[k4]).id
                                    == mv.id;
                            assert(false);
                        }
                        assert(m.cells@[ci] == m0.cells@[ci]);
                    } else {
                        lemma_row_major_injective(w, h, cx, cy, tx, ty);
                        assert(m.cells@[cit as int] is Some);
                    }
                }
                assert forall|cx: int, cy: int|
                    empty_at(g, cx, cy) && #[trigger] m.cell(cx, cy) is Some implies id_upto(
                    moves@,
                    k + 1,
                    m.cell(cx, cy)->0 as int,
                ) by {
                    lemma_row_major_bounds(w, h, cx, cy);
                    let ci = m.idx(cx, cy);
                    if ci == cit as int {
                        assert(m.cell(cx, cy)->0 == mv.id);
                        assert((moves@[k as int]).id == mv.id);
                    } else if ci == cis as int {
                        assert(m.cells@[ci] is None);
                    } else {
                        assert(m0.cell(cx, cy) == m.cell(cx, cy));
                        assert(id_upto(moves@, k as int, m0.cell(cx, cy)->0 as int));
                    }
                }
                // every applied event still describes its particle
                assert forall|j: int| 0 <= j < applied@.len() implies {
                    let e = #[trigger] applied@[j];
                    &&& g.live(e.id as int)
                    &&& m.particle(e.id as int).x == e.x
                    &&& m.particle(e.id as int).y == e.y
                    &&& contains_move_upto(moves@, k + 1, e.id as int, e.x as int, e.y as int)
                } by {
                    let e = applied@[j];
                    if j < applied0.len() {
                        assert(applied0[j] == e);
                        assert(contains_move_upto(moves@, k as int, e.id as int, e.x as int, e.y as int));
                        let k3 = choose|k3: int|
                            0 <= k3 < k && k3 < moves@.len() && (#[trigger] moves@[k3]).id
                                == e.id as int && moves@[k3].x == e.x as int && moves@[k3].y
                                == e.y as int;
                        assert(moves@[k3].id != moves@[k as int].id);
                        assert(m.particle(e.id as int) == m0.particle(e.id as int));
                    } else {
                        assert(e == mv);
                        assert((moves@[k as int]).id == e.id);
                    }
                }
                // a particle that moved shows up among the applied events
                assert forall|i: int|
                    #[trigger] g.live(i) && !(m.particle(i).x == g.particle(i).x && m.particle(
                    i,
                ).y == g.particle(i).y) implies id_upto(applied@, applied@.len() as int, i) by {
                    if i == id {
                        assert((applied@[applied@.len() - 1]).id == i);
                    } else {
                        assert(m.particle(i) == m0.particle(i));
                        assert(id_upto(applied0, applied0.len() as int, i));
                        let j = choose|j: int|
                            0 <= j < applied0.len() && j < applied0.len() && (#[trigger] applied0[j]).id == i;
                        assert((applied@[j]).id == i);
                    }
                }
            }
        } else {
            proof {
                lemma_upto_weaken(moves@, k as int, k + 1);
                let tx = mv.x as int;
                let ty = mv.y as int;
                let w = g.width as int;
                let h = g.height as int;
                assert(m.cells@[cit as int] is Some);
                assert forall|cx: int, cy: int|
                    empty_at(g, cx, cy) && #[trigger] targeted_upto(moves@, k + 1, cx, cy) implies
                    m.cell(cx, cy) is Some by {
                    lemma_row_major_bounds(w, h, cx, cy);
                    let k3 = choose|k3: int|
                        0 <= k3 < k + 1 && k3 < moves@.len() && (#[trigger] moves@[k3]).x == cx
                            && moves@[k3].y == cy;
                    if k3 < k {
                        assert(targeted_upto(moves@, k as int, cx, cy));
                    } else {
                        lemma_row_major_injective(w, h, cx, cy, tx, ty);
                    }
                }
            }
        }
        proof {
            let id = mv.id as int;
            let tx = mv.x as int;
            let ty = mv.y as int;
            lemma_upto_weaken(moves@, k as int, k + 1);
            // movement bound
            assert forall|i: int| #[trigger] g.live(i) implies {
                let p0 = g.particle(i);
                let p1 = m.particle(i);
                (p1.x == p0.x && p1.y == p0.y) || contains_move_upto(
                    moves@,
                    k + 1,
                    i,
                    p1.x as int,
                    p1.y as int,
                )
            } by {
                let p0 = g.particle(i);
                let p1 = m.particle(i);
                if i == id {
                    if !(p1.x == p0.x && p1.y == p0.y) {
                        if p1 == m0.particle(i) {
                            assert(contains_move_upto(
                                moves@,
                                k as int,
                                i,
                                p1.x as int,
                                p1.y as int,
                            ));
                        } else {
                            assert(p1.x == mv.x && p1.y == mv.y);
                            assert((moves@[k as int]).id == i);
                        }
                    }
                } else {
                    assert(p1 == m0.particle(i));
                    if !(p1.x == p0.x && p1.y == p0.y) {
                        assert(contains_move_upto(moves@, k as int, i, p1.x as int, p1.y as int));
                    }
                }
            }
            // forced landings stay landed, and this step's landing
            assert forall|k2: int|
                0 <= k2 < k + 1 && empty_at(
                    g,
                    (#[trigger] moves@[k2]).x as int,
                    moves@[k2].y as int,
                ) && sole_target(moves@, moves@[k2].x as int, moves@[k2].y as int) implies
                m.particle(moves@[k2].id as int).x == moves@[k2].x && m.particle(
                    moves@[k2].id as int,
                ).y == moves@[k2].y by {
                let e = moves@[k2];
                if k2 < k {
                    assert(e.id != mv.id);
                    assert(m.particle(e.id as int) == m0.particle(e.id as int));
                } else {
                    assert(k2 == k);
                    if m0.cells@[m0.idx(tx, ty)] is Some {
                        assert(g.in_bounds_spec(tx, ty) && m0.cell(tx, ty) is Some);
                        assert(g.cell(tx, ty) is Some || targeted_upto(moves@, k as int, tx, ty));
                        let k3 = choose|k3: int|
                            0 <= k3 < k && k3 < moves@.len() && (#[trigger] moves@[k3]).x == tx
                                && moves@[k3].y == ty;
                        assert(false);
                    }
                }
            }
        }
        k = k + 1;
    }
    applied
}

/// No live particle other than `i` could reach `(cx, cy)` this tick,
/// whatever is drawn.
pub open spec fn uncontested(g: ParticleMatrix, i: int, cx: int, cy: int) -> bool {
    forall|j: int| #[trigger] g.live(j) && j != i ==> !may_move_to(g, j, cx, cy)
}

/// What one tick promises, relating the grid before (`g`) to the grid
/// after (`m`):
///
/// * dimensions and the particle arena's length are unchanged, no
///   particle is created or destroyed, and no element changes;
/// * every particle either stays or ends on a cell that some draw could
///   have sent it to, which was empty in the snapshot;
/// * an immovable solid never changes cell, under any neighbor
///   configuration;
/// * a particle whose move is forced (the same destination under every
///   draw), with no other particle able to reach that destination,
///   certainly ends there;
/// * a cell that was empty but was the forced destination of some
///   particle is certainly occupied afterwards — of several contenders
///   for one cell, exactly one wins and the rest stay put.
pub open spec fn tick_rel(g: ParticleMatrix, m: ParticleMatrix) -> bool {
    &&& m.width == g.width
    &&& m.height == g.height
    &&& m.particles@.len() == g.particles@.len()
    &&& forall|i: int| g.live(i) <==> #[trigger] m.live(i)
    &&& forall|i: int| #[trigger] g.live(i) ==> m.particle(i).element == g.particle(i).element
    &&& forall|i: int|
        #[trigger] g.live(i) ==> {
            let p0 = g.particle(i);
            let p1 = m.particle(i);
            (p1.x == p0.x && p1.y == p0.y) || (may_move_to(g, i, p1.x as int, p1.y as int)
                && empty_at(g, p1.x as int, p1.y as int))
        }
    &&& forall|i: int|
        #[trigger] g.live(i) && g.particle(i).element.element_type
            == ElementType::ImmovableSolid ==> m.particle(i).x == g.particle(i).x && m.particle(
            i,
        ).y == g.particle(i).y
    &&& forall|i: int, cx: int, cy: int|
        g.live(i) && #[trigger] must_move_to(g, i, cx, cy) && uncontested(g, i, cx, cy)
            ==> m.particle(i).x == cx && m.particle(i).y == cy
    &&& forall|cx: int, cy: int|
        #[trigger] empty_at(g, cx, cy) && (exists|i: int|
            g.live(i) && #[trigger] must_move_to(g, i, cx, cy)) ==> m.cell(cx, cy) is Some
}

impl ParticleMatrix {
    /// One simulation tick: propose against the start-of-tick snapshot,
    /// shuffle the proposals, then commit them with re-validation.
    /// Returns the applied relocations, in application order, for a
    /// rendering collaborator to consume.
    pub fn tick(&mut self) -> (applied: Vec<MoveProposal>)
        requires
            old(self).wf(),
        ensures
            final(self).wf(),
            tick_rel(*old(self), *final(self)),
            forall|j: int|
                0 <= j < applied@.len() ==> {
                    let e = #[trigger] applied@[j];
                    &&& old(self).live(e.id as int)
                    &&& may_move_to(*old(self), e.id as int, e.x as int, e.y as int)
                    &&& final(self).particle(e.id as int).x == e.x
                    &&& final(self).particle(e.id as int).y == e.y
                },
            forall|i: int|
                #[trigger] old(self).live(i) && !(final(self).particle(i).x == old(self).particle(
                    i,
                ).x && final(self).particle(i).y == old(self).particle(i).y) ==> id_upto(
                    applied@,
                    applied@.len() as int,
                    i,
                ),
    {
        let ghost g = *old(self);
        let mut rng = fresh_rng();
        let mut moves = propose(self, &mut rng);
        let ghost moves0 = moves@;
        shuffle_proposals(&mut rng, &mut moves);
        proof {
            let (p, q) = choose|p: Seq<int>, q: Seq<int>| is_reordering(p, q, moves@, moves0);
            assert forall|k: int| 0 <= k < moves@.len() implies proposal_valid(
                g,
                #[trigger] moves@[k],
            ) by {
                assert(moves@[k] == moves0[p[k]]);
                assert(proposal_valid(g, moves0[p[k]]));
            }
            assert forall|k1: int, k2: int| 0 <= k1 < k2 < moves@.len() implies (
            #[trigger] moves@[k1]).id != (#[trigger] moves@[k2]).id by {
                assert(moves@[k1] == moves0[p[k1]]);
                assert(moves@[k2] == moves0[p[k2]]);
                assert(q[p[k1]] == k1 && q[p[k2]] == k2);
                if p[k1] < p[k2] {
                    assert(moves0[p[k1]].id != moves0[p[k2]].id);
                } else {
                    assert(moves0[p[k2]].id != moves0[p[k1]].id);
                }
            }
            assert forall|i: int, cx: int, cy: int|
                #[trigger] contains_move(moves0, i, cx, cy) implies contains_move(
                moves@,
                i,
                cx,
                cy,
            ) by {
                let k0 = choose|k0: int|
                    0 <= k0 < moves0.len() && (#[trigger] moves0[k0]).id == i && moves0[k0].x == cx
                        && moves0[k0].y == cy;
                assert(p[q[k0]] == k0);
                assert(moves@[q[k0]] == moves0[p[q[k0]]]);
                assert((moves@[q[k0]]).id == i && moves@[q[k0]].x == cx && moves@[q[k0]].y == cy);
            }
        }
        let applied = commit(self, &moves);
        proof {
            let m = *self;
            // every particle stays or lands on a possible, snapshot-empty cell
            assert forall|i: int| #[trigger] g.live(i) implies {
                let p0 = g.particle(i);
                let p1 = m.particle(i);
                (p1.x == p0.x && p1.y == p0.y) || (may_move_to(g, i, p1.x as int, p1.y as int)
                    && empty_at(g, p1.x as int, p1.y as int))
            } by {
                let p0 = g.particle(i);
                let p1 = m.particle(i);
                if !(p1.x == p0.x && p1.y == p0.y) {
                    let k = choose|k: int|
                        0 <= k < moves@.len() && k < moves@.len() && (#[trigger] moves@[k]).id == i
                            && moves@[k].x == p1.x as int && moves@[k].y == p1.y as int;
                    assert(proposal_valid(g, moves@[k]));
                    lemma_valid_target(g, moves@[k]);
                }
            }
            // immovable solids never move
            assert forall|i: int|
                #[trigger] g.live(i) && g.particle(i).element.element_type
                    == ElementType::ImmovableSolid implies m.particle(i).x == g.particle(i).x
                && m.particle(i).y == g.particle(i).y by {
                let p0 = g.particle(i);
                let p1 = m.particle(i);
                if !(p1.x == p0.x && p1.y == p0.y) {
                    assert(may_move_to(g, i, p1.x as int, p1.y as int));
                    assert(resolve_target(g, i, true, true) == (p0.x as int, p0.y as int));
                    assert(false);
                }
            }
            // a forced, uncontested move is certainly applied
            assert forall|i: int, cx: int, cy: int|
                g.live(i) && #[trigger] must_move_to(g, i, cx, cy) && uncontested(
                    g,
                    i,
                    cx,
                    cy,
                ) implies m.particle(i).x == cx && m.particle(i).y == cy by {
                assert(contains_move(moves0, i, cx, cy));
                assert(contains_move(moves@, i, cx, cy));
                let k = choose|k: int|
                    0 <= k < moves@.len() && k < moves@.len() && (#[trigger] moves@[k]).id == i
                        && moves@[k].x == cx && moves@[k].y == cy;
                lemma_valid_target(g, moves@[k]);
                assert forall|k1: int, k2: int|
                    (0 <= k1 < moves@.len() && 0 <= k2 < moves@.len() && (#[trigger] moves@[k1]).x
                        == cx && moves@[k1].y == cy && (#[trigger] moves@[k2]).x == cx
                        && moves@[k2].y == cy) implies k1 == k2 by {
                    assert(proposal_valid(g, moves@[k1]));
                    assert(proposal_valid(g, moves@[k2]));
                    if (moves@[k1]).id != i {
                        assert(g.live((moves@[k1]).id as int));
                        assert(!may_move_to(g, (moves@[k1]).id as int, cx, cy));
                        assert(false);
                    }
                    if (moves@[k2]).id != i {
                        assert(g.live((moves@[k2]).id as int));
                        assert(!may_move_to(g, (moves@[k2]).id as int, cx, cy));
                        assert(false);
                    }
                    if k1 != k2 {
                        if k1 < k2 {
                            assert((moves@[k1]).id != (moves@[k2]).id);
                        } else {
                            assert((moves@[k2]).id != (moves@[k1]).id);
                        }
                        assert(false);
                    }
                }
                assert(sole_target(moves@, cx, cy));
                assert(empty_at(g, (moves@[k]).x as int, moves@[k].y as int));
            }
            // an empty cell with a forced contender is filled
            assert forall|cx: int, cy: int|
                #[trigger] empty_at(g, cx, cy) && (exists|i: int|
                    g.live(i) && #[trigger] must_move_to(g, i, cx, cy)) implies m.cell(
                cx,
                cy,
            ) is Some by {
                let i = choose|i: int| g.live(i) && #[trigger] must_move_to(g, i, cx, cy);
                assert(contains_move(moves0, i, cx, cy));
                assert(contains_move(moves@, i, cx, cy));
                let k = choose|k: int|
                    0 <= k < moves@.len() && k < moves@.len() && (#[trigger] moves@[k]).id == i
                        && moves@[k].x == cx && moves@[k].y == cy;
                assert(targeted(moves@, cx, cy));
            }
            // applied events name possible moves
            assert forall|j: int| 0 <= j < applied@.len() implies {
                let e = #[trigger] applied@[j];
                &&& g.live(e.id as int)
                &&& may_move_to(g, e.id as int, e.x as int, e.y as int)
                &&& m.particle(e.id as int).x == e.x
                &&& m.particle(e.id as int).y == e.y
            } by {
                let e = applied@[j];
                assert(contains_move(moves@, e.id as int, e.x as int, e.y as int));
                let k = choose|k: int|
                    0 <= k < moves@.len() && k < moves@.len() && (#[trigger] moves@[k]).id
                        == e.id as int && moves@[k].x == e.x as int && moves@[k].y == e.y as int;
                assert(proposal_valid(g, moves@[k]));
            }
        }
        applied
    }
}

} // verus!
