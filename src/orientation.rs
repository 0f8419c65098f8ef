//! Choice of the sweep direction: the longest edge of the bounding rectangle.
use crate::footprint::PlanError;
use crate::geometry::{within, ring_within, ProjPoint, COORD_LIMIT};
use vstd::prelude::*;

verus! {

pub open spec fn edge_dx(ring: Seq<ProjPoint>, i: int) -> int {
    ring[i + 1].x - ring[i].x
}

pub open spec fn edge_dy(ring: Seq<ProjPoint>, i: int) -> int {
    ring[i + 1].y - ring[i].y
}

/// Squared length of the edge from vertex `i` to vertex `i + 1`.
pub open spec fn edge_sq(ring: Seq<ProjPoint>, i: int) -> int {
    edge_dx(ring, i) * edge_dx(ring, i) + edge_dy(ring, i) * edge_dy(ring, i)
}

/// Edge `k` is a longest edge of the ring, of positive length, and no earlier edge is as long.
pub open spec fn is_first_longest(ring: Seq<ProjPoint>, k: int) -> bool {
    &&& 0 <= k < ring.len() - 1
    &&& edge_sq(ring, k) > 0
    &&& forall|j: int| 0 <= j < ring.len() - 1 ==> edge_sq(ring, j) <= edge_sq(ring, k)
    &&& forall|j: int| 0 <= j < k ==> edge_sq(ring, j) < edge_sq(ring, k)
}

/// Edges `i` of `a` and `j` of `b` lie on parallel lines.
pub open spec fn parallel_edges(a: Seq<ProjPoint>, i: int, b: Seq<ProjPoint>, j: int) -> bool {
    edge_dx(a, i) * edge_dy(b, j) == edge_dy(a, i) * edge_dx(b, j)
}

/// The same closed ring, listed from vertex `r` on.
pub open spec fn rotate_ring(ring: Seq<ProjPoint>, r: int) -> Seq<ProjPoint> {
    Seq::new(ring.len(), |j: int| ring[(j + r) % (ring.len() - 1)])
}

proof fn lemma_edge_bound(ring: Seq<ProjPoint>, i: int)
    requires
        ring_within(ring, COORD_LIMIT as int),
        0 <= i < ring.len() - 1,
    ensures
        0 <= edge_sq(ring, i) <= 8_000_000_000_000_000_000_000_000,
        0 <= edge_dx(ring, i) * edge_dx(ring, i) <= 4_000_000_000_000_000_000_000_000,
        0 <= edge_dy(ring, i) * edge_dy(ring, i) <= 4_000_000_000_000_000_000_000_000,
        -2_000_000_000_000 <= edge_dx(ring, i) <= 2_000_000_000_000,
        -2_000_000_000_000 <= edge_dy(ring, i) <= 2_000_000_000_000,
{
    assert(within(ring[i], COORD_LIMIT as int));
    assert(within(ring[i + 1], COORD_LIMIT as int));
    let dx = edge_dx(ring, i);
    let dy = edge_dy(ring, i);
    assert(0 <= dx * dx <= 4_000_000_000_000_000_000_000_000) by (nonlinear_arith)
        requires
            -2_000_000_000_000 <= dx <= 2_000_000_000_000,
    ;
    assert(0 <= dy * dy <= 4_000_000_000_000_000_000_000_000) by (nonlinear_arith)
        requires
            -2_000_000_000_000 <= dy <= 2_000_000_000_000,
    ;
}

/// Index of the first longest edge of the bounding rectangle's ring; its direction is the
/// sweep direction.
pub fn longest_edge(ring: &Vec<ProjPoint>) -> (r: Result<usize, PlanError>)
    requires
        ring_within(ring@, COORD_LIMIT as int),
    ensures
        r matches Ok(k) ==> is_first_longest(ring@, k as int),
        r is Err ==> r == Err::<usize, PlanError>(PlanError::DegenerateRectangle),
        r is Err <==> forall|j: int| 0 <= j < ring.len() - 1 ==> edge_sq(ring@, j) == 0,
{
    let n = ring.len();
    if n < 2 {
        return Err(PlanError::DegenerateRectangle);
    }
    let mut best: usize = 0;
    let mut best_sq: i128 = 0;
    let mut i: usize = 0;
    while i < n - 1
        invariant
            n == ring.len(),
            n >= 2,
            ring_within(ring@, COORD_LIMIT as int),
            0 <= i <= n - 1,
            best < n - 1,
            best_sq == 0 ==> forall|j: int| 0 <= j < i ==> edge_sq(ring@, j) == 0,
            best_sq > 0 ==> best < i && best_sq == edge_sq(ring@, best as int),
            best_sq > 0 ==> forall|j: int| 0 <= j < best ==> edge_sq(ring@, j) < best_sq,
            forall|j: int| 0 <= j < i ==> edge_sq(ring@, j) <= best_sq,
            best_sq >= 0,
        decreases n - 1 - i,
    {
        proof {
            lemma_edge_bound(ring@, i as int);
        }
        let dx: i128 = ring[i + 1].x as i128 - ring[i].x as i128;
        let dy: i128 = ring[i + 1].y as i128 - ring[i].y as i128;
        let sq: i128 = dx * dx + dy * dy;
        if sq > best_sq {
            best = i;
            best_sq = sq;
        }
        i = i + 1;
    }
    if best_sq == 0 {
        Err(PlanError::DegenerateRectangle)
    } else {
        Ok(best)
    }
}

proof fn lemma_rotated_edge(ring: Seq<ProjPoint>, r: int, j: int)
    requires
        ring.len() >= 2,
        ring[ring.len() - 1] == ring[0],
        0 <= r < ring.len() - 1,
        0 <= j < ring.len() - 1,
    ensures
        0 <= (j + r) % (ring.len() - 1) < ring.len() - 1,
        edge_dx(rotate_ring(ring, r), j) == edge_dx(ring, (j + r) % (ring.len() - 1)),
        edge_dy(rotate_ring(ring, r), j) == edge_dy(ring, (j + r) % (ring.len() - 1)),
{
    let m = ring.len() - 1;
    let t = j + r;
    if t < m {
        vstd::arithmetic::div_mod::lemma_fundamental_div_mod_converse(t, m, 0, t);
    } else {
        vstd::arithmetic::div_mod::lemma_fundamental_div_mod_converse(t, m, 1, t - m);
    }
    if t + 1 < m {
        vstd::arithmetic::div_mod::lemma_fundamental_div_mod_converse(t + 1, m, 0, t + 1);
    } else if t + 1 < 2 * m {
        vstd::arithmetic::div_mod::lemma_fundamental_div_mod_converse(t + 1, m, 1, t + 1 - m);
    } else {
        vstd::arithmetic::div_mod::lemma_fundamental_div_mod_converse(t + 1, m, 2, t + 1 - 2 * m);
    }
}

/// The sweep direction does not depend on the vertex at which the rectangle's ring is
/// listed: listing the closed ring from any other vertex selects an edge parallel to the
/// one selected before, provided every two longest edges of the ring are parallel (of a
/// square, any two adjacent edges are longest and the rotation can turn the sweep).
pub proof fn lemma_direction_invariant_under_rotation(ring: Seq<ProjPoint>, r: int, k: int, k2: int)
    requires
        ring.len() >= 2,
        ring[ring.len() - 1] == ring[0],
        0 <= r < ring.len() - 1,
        forall|a: int, b: int|
            0 <= a < ring.len() - 1 && 0 <= b < ring.len() - 1 && (forall|j: int|
                0 <= j < ring.len() - 1 ==> edge_sq(ring, j) <= edge_sq(ring, a)) && (forall|j: int|
                0 <= j < ring.len() - 1 ==> edge_sq(ring, j) <= edge_sq(ring, b))
                ==> #[trigger] parallel_edges(ring, a, ring, b),
        is_first_longest(ring, k),
        is_first_longest(rotate_ring(ring, r), k2),
    ensures
        parallel_edges(ring, k, rotate_ring(ring, r), k2),
        edge_sq(ring, k) == edge_sq(rotate_ring(ring, r), k2),
{
    let m = ring.len() - 1;
    let rot = rotate_ring(ring, r);
    let t = (k2 + r) % m;
    lemma_rotated_edge(ring, r, k2);
    assert forall|j: int| 0 <= j < m implies edge_sq(ring, j) <= edge_sq(ring, t) by {
        let jj = if j >= r { j - r } else { j - r + m };
        lemma_rotated_edge(ring, r, jj);
        if jj + r < m {
            vstd::arithmetic::div_mod::lemma_fundamental_div_mod_converse(jj + r, m, 0, jj + r);
        } else {
            vstd::arithmetic::div_mod::lemma_fundamental_div_mod_converse(jj + r, m, 1, jj + r - m);
        }
        assert(edge_sq(rot, jj) <= edge_sq(rot, k2));
    }
    assert(parallel_edges(ring, k, ring, t));
}

} // verus!
