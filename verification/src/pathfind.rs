//! Breadth-first routing over the hexagonal field: a route leads from a
//! start cell to a destination over free field cells, where only the
//! destination itself may be occupied (so that selecting or attacking an
//! occupied target still yields a route up to it).

use vstd::prelude::*;
use crate::hex::{hex_distance, in_field, Hexagon, MAX_FIELD_RADIUS};
use crate::world::{World, WorldView};

verus! {

/// Consecutive cells of the path are neighbours, starting from `from`.
pub open spec fn adjacent_chain(from: Hexagon, path: Seq<Hexagon>) -> bool {
    &&& path.len() > 0 ==> hex_distance(from, path[0]) == 1
    &&& forall|i: int| 0 <= i < path.len() - 1 ==> hex_distance(#[trigger] path[i], path[i + 1]) == 1
}

/// What a non-empty result of [`find_path`] guarantees: an adjacency-valid
/// route over the field from `from` (excluded) to `to` (included), where
/// every cell but the destination is free.
pub open spec fn walkable_route(w: WorldView, from: Hexagon, to: Hexagon, path: Seq<Hexagon>) -> bool {
    &&& adjacent_chain(from, path)
    &&& path.len() > 0 ==> path.last() == to
    &&& forall|i: int| 0 <= i < path.len() ==> in_field(#[trigger] path[i], w.field_radius)
    &&& forall|i: int| 0 <= i < path.len() - 1 ==> !w.occupied_cell(#[trigger] path[i])
}

/// Distinct field cells take distinct grid entries.
broadcast proof fn lemma_cell_index_injective(h1: Hexagon, h2: Hexagon, radius: int)
    requires
        0 <= radius <= MAX_FIELD_RADIUS as int,
        in_field(h1, radius),
        in_field(h2, radius),
    ensures
        #[trigger] cell_index(h1, radius) == #[trigger] cell_index(h2, radius) ==> h1 == h2,
{
    let side = 2 * radius + 1;
    assert((h1.q + radius) * side + (h1.r + radius) == (h2.q + radius) * side + (h2.r + radius)
        ==> h1.q == h2.q && h1.r == h2.r) by (nonlinear_arith)
        requires
            0 <= h1.q + radius <= 2 * radius,
            0 <= h1.r + radius <= 2 * radius,
            0 <= h2.q + radius <= 2 * radius,
            0 <= h2.r + radius <= 2 * radius,
            side == 2 * radius + 1,
    ;
}

/// No adjacency-valid route beats the metric: a chain of neighbouring
/// cells from `from` is at least as long as the hex distance to its end.
pub proof fn lemma_chain_length_bounds(from: Hexagon, path: Seq<Hexagon>)
    requires
        adjacent_chain(from, path),
        path.len() > 0,
    ensures
        hex_distance(from, path.last()) <= path.len(),
    decreases path.len(),
{
    if path.len() == 1 {
        crate::hex::lemma_distance_nonnegative(from, path[0]);
    } else {
        let shorter = path.drop_last();
        assert(adjacent_chain(from, shorter));
        lemma_chain_length_bounds(from, shorter);
        crate::hex::lemma_distance_triangle(from, path.last(), shorter.last());
        assert(hex_distance(shorter.last(), path.last()) == 1);
    }
}

/// Index of a field cell in a dense row-major grid over the bounding box
/// `[-radius, radius]` of both axes.
spec fn cell_index(h: Hexagon, radius: int) -> int {
    (h.q + radius) * (2 * radius + 1) + (h.r + radius)
}

spec fn grid_size(radius: int) -> int {
    (2 * radius + 1) * (2 * radius + 1)
}

/// Field cells index into the dense grid in bounds.
broadcast proof fn lemma_cell_index_range(h: Hexagon, radius: int)
    requires
        0 <= radius <= MAX_FIELD_RADIUS as int,
        in_field(h, radius),
    ensures
        0 <= #[trigger] cell_index(h, radius) < grid_size(radius),
{
    let side = 2 * radius + 1;
    let a = h.q + radius;
    let b = h.r + radius;
    assert(0 <= a <= 2 * radius && 0 <= b <= 2 * radius);
    assert(a * side + b < side * side && a * side + b >= 0) by (nonlinear_arith)
        requires
            0 <= a <= 2 * radius,
            0 <= b <= 2 * radius,
            side == 2 * radius + 1,
    ;
}

/// How many entries of the grid are still unmarked; the termination measure
/// of the search.
spec fn count_false(s: Seq<bool>) -> int
    decreases s.len(),
{
    if s.len() == 0 {
        0
    } else {
        count_false(s.drop_last()) + if s.last() {
            0int
        } else {
            1int
        }
    }
}

proof fn lemma_count_false_nonneg(s: Seq<bool>)
    ensures
        count_false(s) >= 0,
    decreases s.len(),
{
    if s.len() > 0 {
        lemma_count_false_nonneg(s.drop_last());
    }
}

proof fn lemma_count_false_update(s: Seq<bool>, i: int)
    requires
        0 <= i < s.len(),
        !s[i],
    ensures
        count_false(s.update(i, true)) == count_false(s) - 1,
    decreases s.len(),
{
    let t = s.update(i, true);
    if i == s.len() - 1 {
        assert(t.drop_last() =~= s.drop_last());
    } else {
        assert(t.drop_last() =~= s.drop_last().update(i, true));
        lemma_count_false_update(s.drop_last(), i);
    }
}

fn in_field_check(h: &Hexagon, radius: i32) -> (b: bool)
    requires
        0 <= radius,
    ensures
        b == in_field(*h, radius as int),
{
    let q: i64 = h.q as i64;
    let r: i64 = h.r as i64;
    let rad: i64 = radius as i64;
    -rad <= q && q <= rad && -rad <= r && r <= rad && -rad <= q + r && q + r <= rad
}

fn cell_index_exec(h: &Hexagon, radius: i32) -> (k: usize)
    requires
        0 <= radius <= MAX_FIELD_RADIUS,
        in_field(*h, radius as int),
    ensures
        k == cell_index(*h, radius as int),
        k < grid_size(radius as int),
{
    let rad: i64 = radius as i64;
    let side: i64 = 2 * rad + 1;
    let a: i64 = h.q as i64 + rad;
    let b: i64 = h.r as i64 + rad;
    proof {
        assert(0 <= a <= 2 * rad && 0 <= b <= 2 * rad);
        assert(a * side + b < side * side && a * side + b >= 0 && side * side <= 0x4000_0000i64)
            by (nonlinear_arith)
            requires
                0 <= a <= 2 * rad,
                0 <= b <= 2 * rad,
                side == 2 * rad + 1,
                0 <= rad <= 0x3fff,
        ;
    }
    (a * side + b) as usize
}

/// A vector of `n` copies of `false`.
fn false_grid(n: usize) -> (grid: Vec<bool>)
    ensures
        grid@.len() == n,
        forall|i: int| 0 <= i < n ==> !grid@[i],
{
    let mut grid: Vec<bool> = Vec::new();
    let mut k: usize = 0;
    while k < n
        invariant
            k <= n,
            grid@.len() == k,
            forall|i: int| 0 <= i < k ==> !grid@[i],
        decreases n - k,
    {
        grid.push(false);
        k = k + 1;
    }
    grid
}

fn copy_cells(v: &Vec<Hexagon>) -> (r: Vec<Hexagon>)
    ensures
        r@ == v@,
{
    let mut r: Vec<Hexagon> = Vec::new();
    let mut k: usize = 0;
    while k < v.len()
        invariant
            k <= v@.len(),
            r@ == v@.subrange(0, k as int),
        decreases v@.len() - k,
    {
        r.push(v[k]);
        k = k + 1;
        proof {
            assert(r@ =~= v@.subrange(0, k as int));
        }
    }
    proof {
        assert(r@ =~= v@);
    }
    r
}

/// The coordinate difference from `c` to `nb` is the direction offset
/// number `d` of the six axial directions the search walks, in order.
spec fn offset_matches(c: Hexagon, nb: Hexagon, d: int) -> bool {
    let dq = nb.q - c.q;
    let dr = nb.r - c.r;
    if d == 0 {
        (dq, dr) == (1int, 0int)
    } else if d == 1 {
        (dq, dr) == (1int, -1int)
    } else if d == 2 {
        (dq, dr) == (0int, -1int)
    } else if d == 3 {
        (dq, dr) == (-1int, 0int)
    } else if d == 4 {
        (dq, dr) == (-1int, 1int)
    } else {
        (dq, dr) == (0int, 1int)
    }
}

/// The search has dealt with `nb` as a neighbour: either it lies outside
/// the field, or it is not the destination and its grid entry is marked
/// occupied or visited.
spec fn neighbour_handled(
    w: WorldView,
    occ: Seq<bool>,
    vis: Seq<bool>,
    to: Hexagon,
    nb: Hexagon,
) -> bool {
    in_field(nb, w.field_radius) ==> (nb != to && (occ[cell_index(nb, w.field_radius)] || vis[
        cell_index(nb, w.field_radius)
    ]))
}

/// Every neighbour of `c` has been dealt with. Kept opaque: its quantifier
/// over cells is unfolded only where an expansion is recorded or used.
#[verifier::opaque]
spec fn cell_expanded(w: WorldView, occ: Seq<bool>, vis: Seq<bool>, to: Hexagon, c: Hexagon) -> bool {
    forall|nb: Hexagon| #[trigger]
        hex_distance(c, nb) == 1 ==> neighbour_handled(w, occ, vis, to, nb)
}

/// Routes on the frontier never get shorter along the queue: the search
/// expands cells in order of route length.
spec fn lengths_sorted(queue: Seq<(Hexagon, Vec<Hexagon>)>) -> bool {
    forall|j1: int, j2: int|
        0 <= j1 <= j2 < queue.len() ==> (#[trigger] queue[j1]).1@.len() <= (#[trigger] queue[j2]).1@.len()
}

/// Breadth-first discovery: every free route of length up to `bound` has
/// already put its final cell on the frontier, with a route at most as
/// long. Kept opaque: it is unfolded only where the frontier changes.
#[verifier::opaque]
spec fn discovered_up_to(
    w: WorldView,
    from: Hexagon,
    queue: Seq<(Hexagon, Vec<Hexagon>)>,
    bound: int,
) -> bool {
    forall|p: Seq<Hexagon>|
        (#[trigger] free_route(w, from, p) && 1 <= p.len() <= bound) ==> exists|j: int|
            0 <= j < queue.len() && (#[trigger] queue[j]).0 == p.last() && queue[j].1@.len()
                <= p.len()
}

/// A search frontier entry: a cell, and a route from the start to it.
spec fn entry_ok(
    w: WorldView,
    from: Hexagon,
    cell: Hexagon,
    path: Seq<Hexagon>,
) -> bool {
    &&& adjacent_chain(from, path)
    &&& path.len() > 0 ==> path.last() == cell
    &&& path.len() == 0 ==> cell == from
    &&& forall|i: int|
        0 <= i < path.len() ==> in_field(#[trigger] path[i], w.field_radius) && !w.occupied_cell(
            path[i],
        )
}

/// Extending a frontier entry's route by one neighbouring field cell keeps
/// the chain adjacency-valid; the new cell's own occupancy is left open.
proof fn lemma_route_extend(
    w: WorldView,
    from: Hexagon,
    cell: Hexagon,
    path: Seq<Hexagon>,
    next: Hexagon,
)
    requires
        entry_ok(w, from, cell, path),
        hex_distance(cell, next) == 1,
        in_field(next, w.field_radius),
    ensures
        adjacent_chain(from, path.push(next)),
        path.push(next).last() == next,
        forall|i: int|
            0 <= i < path.push(next).len() ==> in_field(
                #[trigger] path.push(next)[i],
                w.field_radius,
            ),
        forall|i: int|
            0 <= i < path.push(next).len() - 1 ==> !w.occupied_cell(#[trigger] path.push(next)[i]),
{
    let p2 = path.push(next);
    assert forall|i: int| 0 <= i < p2.len() - 1 implies hex_distance(
        #[trigger] p2[i],
        p2[i + 1],
    ) == 1 by {
        if i < p2.len() - 2 {
            assert(p2[i] == path[i] && p2[i + 1] == path[i + 1]);
        } else {
            assert(p2[i + 1] == next);
            if path.len() > 0 {
                assert(p2[i] == path[path.len() - 1]);
            }
        }
    }
}

/// The frontier facts every refutation leans on: the first `processed`
/// frontier cells are expanded, every visited field cell is on the
/// frontier, and the occupancy grid is exact.
spec fn search_state_ok(
    w: WorldView,
    occ: Seq<bool>,
    vis: Seq<bool>,
    queue: Seq<(Hexagon, Vec<Hexagon>)>,
    to: Hexagon,
    processed: int,
) -> bool {
    &&& 0 <= w.field_radius <= MAX_FIELD_RADIUS as int
    &&& forall|k: int|
        0 <= k < processed ==> cell_expanded(w, occ, vis, to, (#[trigger] queue[k]).0)
    &&& forall|h: Hexagon|
        in_field(h, w.field_radius) && vis[#[trigger] cell_index(h, w.field_radius)] ==> exists|
            j: int,
        | 0 <= j < queue.len() && (#[trigger] queue[j]).0 == h
    &&& forall|h: Hexagon|
        in_field(h, w.field_radius) ==> (occ[#[trigger] cell_index(h, w.field_radius)]
            <==> w.occupied_cell(h))
}

/// A walkable route without the destination requirement: adjacency-valid,
/// over field cells, free everywhere but possibly its final cell.
spec fn open_route(w: WorldView, from: Hexagon, p: Seq<Hexagon>) -> bool {
    &&& adjacent_chain(from, p)
    &&& forall|i: int| 0 <= i < p.len() ==> in_field(#[trigger] p[i], w.field_radius)
    &&& forall|i: int| 0 <= i < p.len() - 1 ==> !w.occupied_cell(#[trigger] p[i])
}

/// An open route whose final cell is free as well: the routes over which
/// the search discovers and enqueues cells.
spec fn free_route(w: WorldView, from: Hexagon, p: Seq<Hexagon>) -> bool {
    &&& open_route(w, from, p)
    &&& p.len() > 0 ==> !w.occupied_cell(p.last())
}

/// Dropping the final cell of a free route leaves a free route.
proof fn lemma_free_route_prefix(w: WorldView, from: Hexagon, p: Seq<Hexagon>)
    requires
        free_route(w, from, p),
        p.len() >= 1,
    ensures
        free_route(w, from, p.drop_last()),
{
    let p2 = p.drop_last();
    assert(forall|i: int| 0 <= i < p2.len() ==> #[trigger] p2[i] == p[i]);
}

/// Along any open route, every cell before the final one ended up on an
/// exhausted search's frontier.
proof fn lemma_route_cell_processed(
    w: WorldView,
    occ: Seq<bool>,
    vis: Seq<bool>,
    frontier: Seq<(Hexagon, Vec<Hexagon>)>,
    from: Hexagon,
    to: Hexagon,
    p: Seq<Hexagon>,
    i: int,
)
    requires
        frontier.len() >= 1 && frontier[0].0 == from,
        search_state_ok(w, occ, vis, frontier, to, frontier.len() as int),
        open_route(w, from, p),
        p.len() > 0,
        0 <= i < p.len() - 1,
    ensures
        exists|j: int| 0 <= j < frontier.len() && (#[trigger] frontier[j]).0 == p[i],
    decreases i,
{
    broadcast use lemma_cell_index_range;
    reveal(cell_expanded);

    let c = if i == 0 {
        from
    } else {
        p[i - 1]
    };
    let j = if i == 0 {
        0int
    } else {
        lemma_route_cell_processed(w, occ, vis, frontier, from, to, p, i - 1);
        choose|j: int| 0 <= j < frontier.len() && (#[trigger] frontier[j]).0 == p[i - 1]
    };
    assert(cell_expanded(w, occ, vis, to, c));
    assert(hex_distance(c, p[i]) == 1);
    assert(neighbour_handled(w, occ, vis, to, p[i]));
    assert(in_field(p[i], w.field_radius));
    assert(!w.occupied_cell(p[i]));
    assert(vis[cell_index(p[i], w.field_radius)]);
}

/// No open route out of an exhausted search ends at the destination: its
/// second-to-last cell was expanded, and expansion never left the
/// destination as an unexplored neighbour.
proof fn lemma_exhausted_search_misses_route(
    w: WorldView,
    occ: Seq<bool>,
    vis: Seq<bool>,
    frontier: Seq<(Hexagon, Vec<Hexagon>)>,
    from: Hexagon,
    to: Hexagon,
    p: Seq<Hexagon>,
)
    requires
        frontier.len() >= 1 && frontier[0].0 == from,
        search_state_ok(w, occ, vis, frontier, to, frontier.len() as int),
        open_route(w, from, p),
        p.len() > 0,
    ensures
        p.last() != to,
{
    broadcast use lemma_cell_index_range;
    reveal(cell_expanded);

    let n = p.len() as int;
    let c = if n == 1 {
        from
    } else {
        p[n - 2]
    };
    let j = if n == 1 {
        0int
    } else {
        lemma_route_cell_processed(w, occ, vis, frontier, from, to, p, n - 2);
        choose|j: int| 0 <= j < frontier.len() && (#[trigger] frontier[j]).0 == p[n - 2]
    };
    assert(cell_expanded(w, occ, vis, to, c));
    assert(hex_distance(c, p[n - 1]) == 1);
    assert(in_field(p[n - 1], w.field_radius));
    assert(neighbour_handled(w, occ, vis, to, p[n - 1]));
}

/// The running shape of the search frontier that the discovery argument
/// leans on.
spec fn frontier_wf(queue: Seq<(Hexagon, Vec<Hexagon>)>, from: Hexagon, head: int) -> bool {
    &&& 0 <= head < queue.len()
    &&& queue[0].0 == from
    &&& queue[0].1@.len() == 0
    &&& lengths_sorted(queue)
    &&& queue[queue.len() - 1].1@.len() <= queue[head].1@.len() + 1
}

/// An open route not longer than the route of the entry under expansion
/// cannot end at the destination: its second-to-last cell was already
/// expanded, and expansion never leaves the destination undiscovered.
proof fn lemma_frontier_misses_route(
    w: WorldView,
    occ: Seq<bool>,
    vis: Seq<bool>,
    queue: Seq<(Hexagon, Vec<Hexagon>)>,
    from: Hexagon,
    to: Hexagon,
    bound: int,
    processed: int,
    p: Seq<Hexagon>,
)
    requires
        queue.len() >= 1 && queue[0].0 == from && queue[0].1@.len() == 0,
        0 <= processed <= queue.len(),
        search_state_ok(w, occ, vis, queue, to, processed),
        discovered_up_to(w, from, queue, bound),
        open_route(w, from, p),
        1 <= p.len(),
        p.len() - 1 <= bound,
        forall|j: int| processed <= j < queue.len() ==> (#[trigger] queue[j]).1@.len() >= p.len(),
        in_field(p.last(), w.field_radius),
    ensures
        p.last() != to,
        !w.occupied_cell(p.last()) ==> vis[cell_index(p.last(), w.field_radius)],
{
    broadcast use lemma_cell_index_range;

    reveal(discovered_up_to);
    reveal(cell_expanded);
    let p2 = p.drop_last();
    assert(forall|i: int| 0 <= i < p2.len() ==> #[trigger] p2[i] == p[i]);
    assert(free_route(w, from, p2));
    if p2.len() == 0 {
        assert(0 < processed) by {
            if processed == 0 {
                assert(queue[0].1@.len() >= p.len());
            }
        }
        assert(cell_expanded(w, occ, vis, to, queue[0].0));
        assert(hex_distance(from, p.last()) == 1);
        assert(neighbour_handled(w, occ, vis, to, p.last()));
    } else {
        let j2 = choose|j: int|
            0 <= j < queue.len() && (#[trigger] queue[j]).0 == p2.last() && queue[j].1@.len()
                <= p2.len();
        assert(j2 < processed) by {
            if j2 >= processed {
                assert(queue[j2].1@.len() >= p.len());
            }
        }
        assert(cell_expanded(w, occ, vis, to, queue[j2].0));
        assert(hex_distance(p2.last(), p.last()) == 1);
        assert(neighbour_handled(w, occ, vis, to, p.last()));
    }
}

/// Once the entry under expansion is itself expanded, discovery extends to
/// the next entry's route length: the next frontier layer is at most one
/// step longer, and every free route into it passes a cell expanded by now.
proof fn lemma_advance_discovery(
    w: WorldView,
    occ: Seq<bool>,
    vis: Seq<bool>,
    queue: Seq<(Hexagon, Vec<Hexagon>)>,
    from: Hexagon,
    to: Hexagon,
    head: int,
)
    requires
        frontier_wf(queue, from, head),
        head + 1 < queue.len(),
        search_state_ok(w, occ, vis, queue, to, head + 1),
        discovered_up_to(w, from, queue, queue[head].1@.len() as int),
    ensures
        discovered_up_to(w, from, queue, queue[head + 1].1@.len() as int),
{
    broadcast use lemma_cell_index_range;

    reveal(discovered_up_to);
    let oldb = queue[head].1@.len() as int;
    let newb = queue[head + 1].1@.len() as int;
    assert(oldb <= newb <= oldb + 1);
    assert forall|p: Seq<Hexagon>|
        (#[trigger] free_route(w, from, p) && 1 <= p.len() <= newb) implies exists|j: int|
        0 <= j < queue.len() && (#[trigger] queue[j]).0 == p.last() && queue[j].1@.len()
            <= p.len() by {
        if p.len() > oldb {
            assert forall|j: int|
                head + 1 <= j < queue.len() implies (#[trigger] queue[j]).1@.len() >= p.len() by {
                assert(queue[head + 1].1@.len() <= queue[j].1@.len());
            }
            lemma_frontier_misses_route(w, occ, vis, queue, from, to, oldb, head + 1, p);
            assert(!w.occupied_cell(p.last()));
            assert(vis[cell_index(p.last(), w.field_radius)]);
            let j = choose|j: int| 0 <= j < queue.len() && (#[trigger] queue[j]).0 == p.last();
            assert(queue[j].1@.len() <= queue[queue.len() - 1].1@.len());
        }
    }
}

/// Expands the frontier entry at `head`: pops its route, walks the six
/// neighbour directions, and either returns the finished route to the
/// destination or enqueues the newly reachable free cells. On `None`, every
/// search invariant holds again with `head + 1` entries processed.
#[verifier::rlimit(100)]
fn expand_frontier_entry(
    from: &Hexagon,
    to: &Hexagon,
    world: &World,
    radius: i32,
    occupied: &Vec<bool>,
    visited: &mut Vec<bool>,
    queue: &mut Vec<(Hexagon, Vec<Hexagon>)>,
    head: usize,
) -> (found: Option<Vec<Hexagon>>)
    requires
        0 <= world@.field_radius <= MAX_FIELD_RADIUS,
        radius as int == world@.field_radius,
        *from != *to,
        occupied@.len() == grid_size(world@.field_radius),
        old(visited)@.len() == grid_size(world@.field_radius),
        head < old(queue)@.len(),
        forall|h: Hexagon|
            in_field(h, world@.field_radius) ==> (occupied@[#[trigger] cell_index(
                h,
                world@.field_radius,
            )] <==> world@.occupied_cell(h)),
        forall|k: int|
            0 <= k < old(queue)@.len() ==> entry_ok(
                world@,
                *from,
                (#[trigger] old(queue)@[k]).0,
                old(queue)@[k].1@,
            ),
        old(queue)@.len() >= 1 && old(queue)@[0].0 == *from,
        old(queue)@[0].1@.len() == 0,
        lengths_sorted(old(queue)@),
        old(queue)@[old(queue)@.len() - 1].1@.len() <= old(queue)@[head as int].1@.len() + 1,
        discovered_up_to(world@, *from, old(queue)@, old(queue)@[head as int].1@.len() as int),
        forall|k: int|
            0 <= k < head ==> cell_expanded(
                world@,
                occupied@,
                old(visited)@,
                *to,
                (#[trigger] old(queue)@[k]).0,
            ),
        forall|h: Hexagon|
            in_field(h, world@.field_radius) && old(visited)@[#[trigger] cell_index(
                h,
                world@.field_radius,
            )] ==> exists|j: int| 0 <= j < old(queue)@.len() && (#[trigger] old(queue)@[j]).0 == h,
    ensures
        found matches Some(p) ==> ({
            &&& p@.len() > 0
            &&& walkable_route(world@, *from, *to, p@)
            &&& hex_distance(*from, *to) <= p@.len()
            &&& forall|q: Seq<Hexagon>|
                (q.len() > 0 && #[trigger] walkable_route(world@, *from, *to, q)) ==> p@.len()
                    <= q.len()
        }),
        found is None ==> ({
            &&& final(visited)@.len() == grid_size(world@.field_radius)
            &&& old(queue)@.len() <= final(queue)@.len()
            &&& forall|k: int|
                0 <= k < final(queue)@.len() ==> entry_ok(
                    world@,
                    *from,
                    (#[trigger] final(queue)@[k]).0,
                    final(queue)@[k].1@,
                )
            &&& final(queue)@.len() >= 1 && final(queue)@[0].0 == *from
            &&& final(queue)@[0].1@.len() == 0
            &&& lengths_sorted(final(queue)@)
            &&& forall|k: int|
                0 <= k < head + 1 ==> cell_expanded(
                    world@,
                    occupied@,
                    final(visited)@,
                    *to,
                    (#[trigger] final(queue)@[k]).0,
                )
            &&& (head + 1 < final(queue)@.len() ==> final(queue)@[final(queue)@.len() - 1].1@.len()
                <= final(queue)@[head as int + 1].1@.len() + 1)
            &&& (head + 1 < final(queue)@.len() ==> discovered_up_to(
                world@,
                *from,
                final(queue)@,
                final(queue)@[head as int + 1].1@.len() as int,
            ))
            &&& forall|h: Hexagon|
                in_field(h, world@.field_radius) && final(visited)@[#[trigger] cell_index(
                    h,
                    world@.field_radius,
                )] ==> exists|j: int|
                    0 <= j < final(queue)@.len() && (#[trigger] final(queue)@[j]).0 == h
            &&& count_false(final(visited)@) + final(queue)@.len() == count_false(old(visited)@)
                + old(queue)@.len()
        }),
{
    let rad: i64 = radius as i64;
        proof {
            lemma_count_false_nonneg(visited@);
        }
        let cell: Hexagon = queue[head].0;
        let route: Vec<Hexagon> = copy_cells(&queue[head].1);
        let ghost sum0 = count_false(visited@) + queue@.len();

        let mut d: usize = 0;
        while d < 6
            invariant
                0 <= world@.field_radius <= MAX_FIELD_RADIUS,
                radius as int == world@.field_radius,
                rad == radius as i64,
                *from != *to,
                d <= 6,
                occupied@.len() == grid_size(world@.field_radius),
                visited@.len() == grid_size(world@.field_radius),
                head < queue@.len(),
                old(queue)@.len() <= queue@.len(),
                entry_ok(world@, *from, cell, route@),
                route@.len() > 0 ==> route@.last() == cell,
                route@.len() == 0 ==> cell == *from,
                forall|h: Hexagon|
                    in_field(h, world@.field_radius) ==> (occupied@[#[trigger] cell_index(
                        h,
                        world@.field_radius,
                    )] <==> world@.occupied_cell(h)),
                forall|k: int|
                    0 <= k < queue@.len() ==> entry_ok(
                        world@,
                        *from,
                        (#[trigger] queue@[k]).0,
                        queue@[k].1@,
                    ),
                count_false(visited@) + queue@.len() == sum0,
                queue@.len() >= 1 && queue@[0].0 == *from,
                queue@[0].1@.len() == 0,
                lengths_sorted(queue@),
                queue@[queue@.len() - 1].1@.len() <= route@.len() + 1,
                discovered_up_to(world@, *from, queue@, route@.len() as int),
                cell == queue@[head as int].0,
                route@ == queue@[head as int].1@,
                forall|k: int|
                    0 <= k < head ==> cell_expanded(
                        world@,
                        occupied@,
                        visited@,
                        *to,
                        (#[trigger] queue@[k]).0,
                    ),
                forall|h: Hexagon|
                    in_field(h, world@.field_radius) && visited@[#[trigger] cell_index(
                        h,
                        world@.field_radius,
                    )] ==> exists|j: int| 0 <= j < queue@.len() && (#[trigger] queue@[j]).0 == h,
                forall|nb: Hexagon, d2: int|
                    0 <= d2 < d && #[trigger] offset_matches(cell, nb, d2) ==> neighbour_handled(
                        world@,
                        occupied@,
                        visited@,
                        *to,
                        nb,
                    ),
            decreases 6 - d,
        {
            proof {
                broadcast use lemma_cell_index_range;
                broadcast use lemma_cell_index_injective;
            }
            let ghost vis0 = visited@;
            let ghost queue0 = queue@;
            let (dq, dr): (i64, i64) = if d == 0 {
                (1, 0)
            } else if d == 1 {
                (1, -1)
            } else if d == 2 {
                (0, -1)
            } else if d == 3 {
                (-1, 0)
            } else if d == 4 {
                (-1, 1)
            } else {
                (0, 1)
            };
            let nq: i64 = cell.q as i64 + dq;
            let nr: i64 = cell.r as i64 + dr;
            let in_box: bool = -rad <= nq && nq <= rad && -rad <= nr && nr <= rad && -rad <= nq + nr
                && nq + nr <= rad;
            if in_box {
                let next = Hexagon { q: nq as i32, r: nr as i32 };
                assert(hex_distance(cell, next) == 1);
                assert(in_field(next, world@.field_radius));
                if next.get_q() == to.get_q() && next.get_r() == to.get_r() {
                    proof {
                        lemma_route_extend(world@, *from, cell, route@, next);
                        lemma_chain_length_bounds(*from, route@.push(next));
                        // No walkable route is shorter: its second-to-last
                        // cell would already have been expanded, and the
                        // destination returned from there.
                        assert forall|p: Seq<Hexagon>|
                            (p.len() > 0 && #[trigger] walkable_route(
                                world@,
                                *from,
                                *to,
                                p,
                            )) implies route@.len() + 1 <= p.len() by {
                            if p.len() <= route@.len() {
                                assert forall|j: int|
                                    head as int <= j < queue@.len() implies (#[trigger] queue@[j]).1@.len() >= p.len() by {
                                    assert(queue@[head as int].1@.len() <= queue@[j].1@.len());
                                }
                                lemma_frontier_misses_route(
                                    world@,
                                    occupied@,
                                    visited@,
                                    queue@,
                                    *from,
                                    *to,
                                    route@.len() as int,
                                    head as int,
                                    p,
                                );
                            }
                        }
                    }
                    let mut found = copy_cells(&route);
                    found.push(next);
                    return Some(found);
                }
                let k = cell_index_exec(&next, radius);
                if !visited[k] && !occupied[k] {
                    proof {
                        lemma_count_false_update(visited@, k as int);
                    }
                    visited.set(k, true);
                    proof {
                        lemma_route_extend(world@, *from, cell, route@, next);
                    }
                    let mut extended = copy_cells(&route);
                    extended.push(next);
                    queue.push((next, extended));
                    proof {
                        assert forall|h: Hexagon|
                            in_field(h, world@.field_radius) && visited@[cell_index(
                                h,
                                world@.field_radius,
                            )] implies exists|j: int|
                            0 <= j < queue@.len() && (#[trigger] queue@[j]).0 == h by {
                            if cell_index(h, world@.field_radius) == k as int {
                                assert(h == next);
                                assert(queue@[queue@.len() - 1].0 == h);
                            } else {
                                let j = choose|j: int|
                                    0 <= j < queue0.len() && (#[trigger] queue0[j]).0 == h;
                                assert(queue@[j].0 == h);
                            }
                        }
                        assert forall|j1: int, j2: int|
                            0 <= j1 <= j2 < queue@.len() implies (#[trigger] queue@[j1]).1@.len()
                            <= (#[trigger] queue@[j2]).1@.len() by {
                            if j2 < queue@.len() - 1 {
                                assert(queue0[j1].1@.len() <= queue0[j2].1@.len());
                            } else if j1 < queue@.len() - 1 {
                                assert(queue0[j1].1@.len() <= queue0[queue0.len() - 1].1@.len());
                            }
                        }
                        assert forall|k2: int|
                            0 <= k2 < head implies cell_expanded(
                            world@,
                            occupied@,
                            visited@,
                            *to,
                            (#[trigger] queue@[k2]).0,
                        ) by {
                            reveal(cell_expanded);
                            assert(cell_expanded(world@, occupied@, vis0, *to, queue0[k2].0));
                            assert forall|nb: Hexagon| #[trigger]
                                hex_distance(queue@[k2].0, nb) == 1 implies neighbour_handled(
                                world@,
                                occupied@,
                                visited@,
                                *to,
                                nb,
                            ) by {
                                assert(neighbour_handled(world@, occupied@, vis0, *to, nb));
                            }
                        }
                        assert(discovered_up_to(world@, *from, queue@, route@.len() as int)) by {
                            reveal(discovered_up_to);
                            assert forall|p: Seq<Hexagon>|
                                (#[trigger] free_route(world@, *from, p) && 1 <= p.len()
                                    <= route@.len()) implies exists|j: int|
                                0 <= j < queue@.len() && (#[trigger] queue@[j]).0 == p.last()
                                    && queue@[j].1@.len() <= p.len() by {
                                let j = choose|j: int|
                                    0 <= j < queue0.len() && (#[trigger] queue0[j]).0 == p.last()
                                        && queue0[j].1@.len() <= p.len();
                                assert(queue@[j].0 == p.last() && queue@[j].1@.len() <= p.len());
                            }
                        }
                    }
                }
            }
            d = d + 1;
        }
        proof {
            lemma_close_expansion(
                world@,
                occupied@,
                visited@,
                queue@,
                *from,
                *to,
                head as int,
            );
        }
    None
}

/// Closing one expansion: once all six directions of the entry at `head`
/// are handled, that cell is expanded, and discovery extends to the next
/// entry's route length.
proof fn lemma_close_expansion(
    w: WorldView,
    occ: Seq<bool>,
    vis: Seq<bool>,
    queue: Seq<(Hexagon, Vec<Hexagon>)>,
    from: Hexagon,
    to: Hexagon,
    head: int,
)
    requires
        frontier_wf(queue, from, head),
        search_state_ok(w, occ, vis, queue, to, head),
        discovered_up_to(w, from, queue, queue[head].1@.len() as int),
        forall|nb: Hexagon, d2: int|
            0 <= d2 < 6 && #[trigger] offset_matches(queue[head].0, nb, d2) ==> neighbour_handled(
                w,
                occ,
                vis,
                to,
                nb,
            ),
    ensures
        forall|k: int| 0 <= k < head + 1 ==> cell_expanded(w, occ, vis, to, (#[trigger] queue[k]).0),
        head + 1 < queue.len() ==> discovered_up_to(w, from, queue, queue[head + 1].1@.len() as int),
        head + 1 < queue.len() ==> queue[queue.len() - 1].1@.len() <= queue[head + 1].1@.len() + 1,
{
    reveal(cell_expanded);
    let cell = queue[head].0;
    assert forall|nb: Hexagon| #[trigger]
        hex_distance(cell, nb) == 1 implies neighbour_handled(w, occ, vis, to, nb) by {
        crate::hex::lemma_neighbour_offsets(cell, nb);
        assert(offset_matches(cell, nb, 0) || offset_matches(cell, nb, 1) || offset_matches(
            cell,
            nb,
            2,
        ) || offset_matches(cell, nb, 3) || offset_matches(cell, nb, 4) || offset_matches(
            cell,
            nb,
            5,
        ));
    }
    assert(cell_expanded(w, occ, vis, to, cell));
    assert(search_state_ok(w, occ, vis, queue, to, head + 1));
    if head + 1 < queue.len() {
        assert(queue[head].1@.len() <= queue[head + 1].1@.len());
        lemma_advance_discovery(w, occ, vis, queue, from, to, head);
    }
}

/// A shortest route from `from` to `to` over free field cells, the
/// destination exempt from the occupancy check; the start cell is excluded
/// from the result and the destination included. A non-empty result is an
/// adjacency-valid walkable route no longer than any other; an empty result
/// means the move or attack is not possible (`from == to`, or no walkable
/// route exists) and callers treat it as a refusal, not an error.
#[verifier::rlimit(100)]
pub fn find_path(from: &Hexagon, to: &Hexagon, world: &World) -> (path: Vec<Hexagon>)
    ensures
        *from == *to ==> path@.len() == 0,
        path@.len() > 0 ==> walkable_route(world@, *from, *to, path@),
        path@.len() > 0 ==> hex_distance(*from, *to) <= path@.len(),
        (path@.len() == 0 && 0 <= world@.field_radius <= MAX_FIELD_RADIUS) ==> (*from == *to || !(
        exists|p: Seq<Hexagon>|
            p.len() > 0 && #[trigger] walkable_route(world@, *from, *to, p))),
        path@.len() > 0 ==> forall|p: Seq<Hexagon>|
            (p.len() > 0 && #[trigger] walkable_route(world@, *from, *to, p)) ==> path@.len()
                <= p.len(),
{
    broadcast use lemma_cell_index_range;
    broadcast use lemma_cell_index_injective;

    if from.get_q() == to.get_q() && from.get_r() == to.get_r() {
        return Vec::new();
    }
    let radius = world.field_radius();
    if radius < 0 || radius > MAX_FIELD_RADIUS {
        return Vec::new();
    }
    let rad: i64 = radius as i64;
    let side: i64 = 2 * rad + 1;
    proof {
        assert(side * side == grid_size(radius as int) && side * side < 0x4000_0000i64)
            by (nonlinear_arith)
            requires
                side == 2 * (radius as i64) + 1,
                0 <= radius <= 0x3fff,
        ;
    }
    let total: usize = (side * side) as usize;

    // Mark every cell that a live unit-bearing entity stands on.
    let mut occupied: Vec<bool> = false_grid(total);
    let mut s: usize = 0;
    while s < world.num_slots()
        invariant
            0 <= world@.field_radius <= MAX_FIELD_RADIUS,
            total == grid_size(world@.field_radius),
            radius as int == world@.field_radius,
            s <= world@.slots.len(),
            occupied@.len() == total,
            forall|j: int|
                0 <= j < s ==> ((#[trigger] world@.slots[j]).live && world@.slots[j].unit is Some
                    && world@.slots[j].position is Some && in_field(
                    world@.slots[j].position->0,
                    world@.field_radius,
                ) ==> occupied@[cell_index(world@.slots[j].position->0, world@.field_radius)]),
            forall|h: Hexagon|
                in_field(h, world@.field_radius) && occupied@[#[trigger] cell_index(
                    h,
                    world@.field_radius,
                )] ==> exists|j: int|
                    0 <= j < s && (#[trigger] world@.slots[j]).live && world@.slots[j].unit is Some
                        && world@.slots[j].position == Some(h),
        decreases world@.slots.len() - s,
    {
        proof {
            broadcast use lemma_cell_index_range;
            broadcast use lemma_cell_index_injective;
        }
        let slot = world.slot(s);
        if slot.live && slot.unit.is_some() {
            match slot.position {
                Some(p) => {
                    if in_field_check(&p, radius) {
                        let k = cell_index_exec(&p, radius);
                        occupied.set(k, true);
                    }
                },
                None => {},
            }
        }
        s = s + 1;
    }
    proof {
        // The scan marked exactly the cells that carry a live unit-bearing
        // entity.
        assert forall|h: Hexagon|
            in_field(h, world@.field_radius) implies (occupied@[#[trigger] cell_index(
            h,
            world@.field_radius,
        )] <==> world@.occupied_cell(h)) by {
            if world@.occupied_cell(h) {
                let j = choose|j: int|
                    0 <= j < world@.slots.len() && (#[trigger] world@.slots[j]).live
                        && world@.slots[j].unit is Some && world@.slots[j].position == Some(h);
                assert(occupied@[cell_index(h, world@.field_radius)]);
            }
        }
    }

    let mut visited: Vec<bool> = false_grid(total);
    let mut queue: Vec<(Hexagon, Vec<Hexagon>)> = Vec::new();
    if in_field_check(from, radius) {
        let k = cell_index_exec(from, radius);
        proof {
            lemma_count_false_update(visited@, k as int);
        }
        visited.set(k, true);
    }
    queue.push((*from, Vec::new()));
    proof {
        assert forall|h: Hexagon|
            in_field(h, world@.field_radius) && visited@[cell_index(
                h,
                world@.field_radius,
            )] implies exists|j: int| 0 <= j < queue@.len() && (#[trigger] queue@[j]).0 == h by {
            assert(h == *from);
            assert(queue@[0].0 == h);
        }
    }

    proof {
        assert(discovered_up_to(world@, *from, queue@, queue@[0].1@.len() as int)) by {
            reveal(discovered_up_to);
        }
    }
    let mut head: usize = 0;
    while head < queue.len()
        invariant
            0 <= world@.field_radius <= MAX_FIELD_RADIUS,
            total == grid_size(world@.field_radius),
            radius as int == world@.field_radius,
            rad == radius as i64,
            *from != *to,
            occupied@.len() == total,
            visited@.len() == total,
            head <= queue@.len(),
            forall|h: Hexagon|
                in_field(h, world@.field_radius) ==> (occupied@[#[trigger] cell_index(
                    h,
                    world@.field_radius,
                )] <==> world@.occupied_cell(h)),
            forall|k: int|
                0 <= k < queue@.len() ==> entry_ok(
                    world@,
                    *from,
                    (#[trigger] queue@[k]).0,
                    queue@[k].1@,
                ),
            queue@.len() >= 1 && queue@[0].0 == *from,
            queue@[0].1@.len() == 0,
            lengths_sorted(queue@),
            head < queue@.len() ==> queue@[queue@.len() - 1].1@.len() <= queue@[head as int].1@.len()
                + 1,
            head < queue@.len() ==> discovered_up_to(
                world@,
                *from,
                queue@,
                queue@[head as int].1@.len() as int,
            ),
            forall|k: int|
                0 <= k < head ==> cell_expanded(
                    world@,
                    occupied@,
                    visited@,
                    *to,
                    (#[trigger] queue@[k]).0,
                ),
            forall|h: Hexagon|
                in_field(h, world@.field_radius) && visited@[#[trigger] cell_index(
                    h,
                    world@.field_radius,
                )] ==> exists|j: int| 0 <= j < queue@.len() && (#[trigger] queue@[j]).0 == h,
        decreases count_false(visited@) + queue@.len() - head,
    {
        proof {
            lemma_count_false_nonneg(visited@);
        }
        let found = expand_frontier_entry(
            from,
            to,
            world,
            radius,
            &occupied,
            &mut visited,
            &mut queue,
            head,
        );
        match found {
            Some(path_found) => {
                return path_found;
            },
            None => {},
        }
        proof {
            lemma_count_false_nonneg(visited@);
        }
        head = head + 1;
    }
    proof {
        assert forall|p: Seq<Hexagon>|
            !(p.len() > 0 && #[trigger] walkable_route(world@, *from, *to, p)) by {
            if p.len() > 0 && walkable_route(world@, *from, *to, p) {
                lemma_exhausted_search_misses_route(
                    world@,
                    occupied@,
                    visited@,
                    queue@,
                    *from,
                    *to,
                    p,
                );
            }
        }
    }
    Vec::new()
}

} // verus!
