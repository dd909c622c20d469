//! Movement reachability and route reconstruction.
//!
//! `compute_travel_time` explores the board breadth-first from a starting
//! cell, within a movement budget, never entering or crossing occupied
//! cells, and produces a cost map: the number of hops to every reached
//! cell.  `find_route` walks that map backward from a destination to
//! reconstruct a concrete route.

use vstd::prelude::*;
use crate::actions::occ;
use crate::board::Board;
use crate::idx::{adjacent, lemma_neighbour_symmetry, snbr, Direction, HexIndex};
use crate::units::{Unit, Units};

verus! {

/// There is a chain of exactly `k` neighbour steps from `start` to `c`
/// whose cells after `start` are all unoccupied.
pub open spec fn reachable_in(u: Seq<Option<Unit>>, start: int, c: int, k: int) -> bool
    decreases k,
{
    if k < 0 {
        false
    } else if k == 0 {
        c == start
    } else {
        exists|p: int, d: Direction|
            {
                &&& reachable_in(u, start, p, k - 1)
                &&& #[trigger] snbr(p, d) == Some(c)
                &&& !occ(u, c)
            }
    }
}

/// The cost map is coherent enough to walk a route backward: one tile per
/// cell, cost zero exactly at `start`, and every other costed cell has a
/// strictly cheaper costed neighbour.
pub open spec fn route_map_ok(tt: Seq<Option<usize>>, start: int) -> bool {
    &&& tt.len() == 61
    &&& 0 <= start < 61
    &&& tt[start] == Some(0usize)
    &&& forall|i: int| 0 <= i < 61 && i != start ==> #[trigger] tt[i] != Some(0usize)
    &&& forall|i: int|
        0 <= i < 61 && #[trigger] tt[i] is Some && tt[i]->Some_0 > 0 ==> exists|d: Direction|
            {
                &&& #[trigger] snbr(i, d) matches Some(j)
                &&& 0 <= j < 61
                &&& tt[j] is Some
                &&& tt[j]->Some_0 < tt[i]->Some_0
            }
}

/// What `compute_travel_time` guarantees of its cost map: route coherence,
/// every cost within the budget and witnessed by a chain of that exact
/// length through unoccupied cells, and occupied cells (other than the
/// start) never reached.
pub open spec fn cost_map_ok(
    tt: Seq<Option<usize>>,
    u: Seq<Option<Unit>>,
    start: int,
    budget: int,
) -> bool {
    &&& route_map_ok(tt, start)
    &&& forall|i: int| 0 <= i < 61 && i != start && occ(u, i) ==> #[trigger] tt[i] is None
    &&& forall|i: int|
        0 <= i < 61 && #[trigger] tt[i] is Some ==> tt[i]->Some_0 <= budget && reachable_in(
            u,
            start,
            i,
            tt[i]->Some_0 as int,
        )
}

/// The cost map misses nothing at its frontier: every unoccupied
/// neighbour of a cell costed strictly under the budget is costed too, at
/// most one hop dearer.  Together with `cost_map_ok` this pins each cost
/// to the minimal hop count (see `cost_map_complete`, `cost_map_minimal`).
pub open spec fn cost_map_closed(tt: Seq<Option<usize>>, u: Seq<Option<Unit>>, budget: int) -> bool {
    forall|i: int, d: Direction|
        0 <= i < 61 && tt[i] is Some && (tt[i]->Some_0 as int) < budget && (#[trigger] snbr(
            i,
            d,
        )) is Some && !occ(u, snbr(i, d)->Some_0) ==> tt[snbr(i, d)->Some_0] is Some && tt[snbr(
            i,
            d,
        )->Some_0]->Some_0 <= tt[i]->Some_0 + 1
}

/// Completeness: every cell with an unoccupied chain of some length
/// within the budget is costed, at most that length.  With
/// `cost_map_ok`'s exact-length witness this forces each cost to be the
/// minimal hop distance, and every cell within reach of the budget to
/// carry a cost.
pub open spec fn cost_map_complete(
    tt: Seq<Option<usize>>,
    u: Seq<Option<Unit>>,
    start: int,
    budget: int,
) -> bool {
    forall|c: int, kk: int|
        0 <= kk <= budget && #[trigger] reachable_in(u, start, c, kk) ==> 0 <= c < 61 && tt[
            c
        ] is Some && tt[c]->Some_0 <= kk
}

/// Minimality: no costed cell has a strictly shorter unoccupied chain
/// than its recorded cost.
pub open spec fn cost_map_minimal(tt: Seq<Option<usize>>, u: Seq<Option<Unit>>, start: int) -> bool {
    forall|c: int, kk: int|
        0 <= c < 61 && tt[c] is Some && 0 <= kk < tt[c]->Some_0 ==> !(#[trigger] reachable_in(
            u,
            start,
            c,
            kk,
        ))
}

/// Cost of the `m`-th queued cell.
pub open spec fn qc(tt: Seq<Option<usize>>, paths: Seq<HexIndex>, m: int) -> int {
    tt[paths[m].spec_index()]->Some_0 as int
}

/// The search frontier while the cell being expanded cost `k`: every
/// queued cell costs `k` or `k + 1`, queued costs never decrease along
/// the queue, and no cell anywhere is costed beyond `k + 1`.
pub open spec fn frontier_ok(tt: Seq<Option<usize>>, paths: Seq<HexIndex>, k: int) -> bool {
    &&& forall|m: int| 0 <= m < paths.len() ==> k <= #[trigger] qc(tt, paths, m) <= k + 1
    &&& forall|m1: int, m2: int| 0 <= m1 <= m2 < paths.len() ==> qc(tt, paths, m1) <= qc(
        tt,
        paths,
        m2,
    )
    &&& forall|c: int| 0 <= c < 61 && #[trigger] tt[c] is Some ==> tt[c]->Some_0 <= k + 1
}

/// The queue between expansions: costs never decrease along it, the last
/// is at most one hop dearer than the first, and no cell anywhere is
/// costed beyond the head's cost plus one.
pub open spec fn queue_ok(tt: Seq<Option<usize>>, paths: Seq<HexIndex>) -> bool {
    &&& forall|m1: int, m2: int| 0 <= m1 <= m2 < paths.len() ==> #[trigger] qc(tt, paths, m1)
        <= #[trigger] qc(tt, paths, m2)
    &&& (paths.len() > 0 ==> qc(tt, paths, paths.len() - 1) <= qc(tt, paths, 0) + 1)
    &&& (paths.len() > 0 ==> forall|c: int|
        0 <= c < 61 && #[trigger] tt[c] is Some ==> tt[c]->Some_0 <= qc(tt, paths, 0) + 1)
}

/// The cell `i` is still queued for expansion.
pub open spec fn in_queue(paths: Seq<HexIndex>, i: int) -> bool {
    exists|j: int| 0 <= j < paths.len() && (#[trigger] paths[j]).spec_index() == i
}

/// `cost_map_closed`, except at the cells still queued for expansion.
#[verifier::opaque]
pub open spec fn bfs_closed(
    tt: Seq<Option<usize>>,
    u: Seq<Option<Unit>>,
    paths: Seq<HexIndex>,
    budget: int,
) -> bool {
    forall|i: int, d: Direction|
        0 <= i < 61 && tt[i] is Some && (tt[i]->Some_0 as int) < budget && !in_queue(paths, i) && (
        #[trigger] snbr(i, d)) is Some && !occ(u, snbr(i, d)->Some_0) ==> tt[snbr(
            i,
            d,
        )->Some_0] is Some && tt[snbr(i, d)->Some_0]->Some_0 <= tt[i]->Some_0 + 1
}

/// A map costing only `start`, with `start` queued, is trivially closed.
proof fn lemma_bfs_closed_init(
    tt: Seq<Option<usize>>,
    u: Seq<Option<Unit>>,
    paths: Seq<HexIndex>,
    budget: int,
    start: int,
)
    requires
        forall|i: int| 0 <= i < 61 && i != start ==> #[trigger] tt[i] is None,
        in_queue(paths, start),
    ensures
        bfs_closed(tt, u, paths, budget),
{
    reveal(bfs_closed);
}

/// An empty queue turns queue-local closure into full closure.
proof fn lemma_bfs_closed_empty(
    tt: Seq<Option<usize>>,
    u: Seq<Option<Unit>>,
    paths: Seq<HexIndex>,
    budget: int,
)
    requires
        bfs_closed(tt, u, paths, budget),
        paths.len() == 0,
    ensures
        cost_map_closed(tt, u, budget),
{
    reveal(bfs_closed);
}

/// Dequeueing the head and (when its cost is under the budget) expanding
/// all its unoccupied neighbours keeps the map closed outside the queue.
proof fn lemma_bfs_closed_step(
    tt1: Seq<Option<usize>>,
    queue0: Seq<HexIndex>,
    queue1: Seq<HexIndex>,
    tt2: Seq<Option<usize>>,
    p2: Seq<HexIndex>,
    u: Seq<Option<Unit>>,
    budget: int,
    head: HexIndex,
    k: usize,
)
    requires
        bfs_closed(tt1, u, queue0, budget),
        queue0.len() > 0,
        queue0[0] == head,
        queue1 =~= queue0.drop_first(),
        tt1[head.spec_index()] == Some(k),
        forall|i: int| 0 <= i < 61 && tt1[i] is Some ==> tt2[i] == tt1[i],
        forall|j: int| 0 <= j < queue1.len() ==> p2[j] == queue1[j],
        p2.len() >= queue1.len(),
        forall|c: int| 0 <= c < 61 && tt1[c] is None && tt2[c] is Some ==> in_queue(p2, c),
        forall|c: int| 0 <= c < 61 && #[trigger] tt2[c] is Some ==> tt2[c]->Some_0 <= k + 1,
        (forall|d: Direction|
            (#[trigger] snbr(head.spec_index(), d)) is Some && !occ(
                u,
                snbr(head.spec_index(), d)->Some_0,
            ) ==> tt2[snbr(head.spec_index(), d)->Some_0] is Some) || !((k as int) < budget),
    ensures
        bfs_closed(tt2, u, p2, budget),
{
    reveal(bfs_closed);
    assert forall|i: int, d: Direction|
        0 <= i < 61 && tt2[i] is Some && (tt2[i]->Some_0 as int) < budget && !in_queue(p2, i) && (
        #[trigger] snbr(i, d)) is Some && !occ(u, snbr(i, d)->Some_0) implies tt2[snbr(
            i,
            d,
        )->Some_0] is Some && tt2[snbr(i, d)->Some_0]->Some_0 <= tt2[i]->Some_0 + 1 by {
        if i == head.spec_index() {
            assert(tt2[i] == tt1[i]);
            assert(tt2[i]->Some_0 == k);
            crate::idx::lemma_snbr_valid(i, d);
        } else {
            if in_queue(queue0, i) {
                let jq = choose|jq: int|
                    0 <= jq < queue0.len() && (#[trigger] queue0[jq]).spec_index() == i;
                assert(jq >= 1);
                assert(queue1[jq - 1] == queue0[jq]);
                assert(p2[jq - 1] == queue1[jq - 1]);
                assert(in_queue(p2, i));
            } else {
                if tt1[i] is None {
                    assert(in_queue(p2, i));
                } else {
                    assert(tt1[snbr(i, d)->Some_0] is Some && tt1[snbr(i, d)->Some_0]->Some_0
                        <= tt1[i]->Some_0 + 1);
                    assert(tt2[snbr(i, d)->Some_0] == tt1[snbr(i, d)->Some_0]);
                }
            }
        }
    }
}

/// Number of costed cells among the first `n` entries.
pub open spec fn count_some(tt: Seq<Option<usize>>, n: int) -> int
    decreases n,
{
    if n <= 0 {
        0
    } else {
        count_some(tt, n - 1) + if tt[n - 1] is Some {
            1int
        } else {
            0int
        }
    }
}

/// The count stays within `[0, n]`.
proof fn lemma_count_some_le(tt: Seq<Option<usize>>, n: int)
    ensures
        0 <= count_some(tt, n),
        n >= 0 ==> count_some(tt, n) <= n,
    decreases n,
{
    if n > 0 {
        lemma_count_some_le(tt, n - 1);
    }
}

/// Filling one empty entry raises the count by one.
proof fn lemma_count_some_update(tt: Seq<Option<usize>>, n: int, j: int, v: Option<usize>)
    requires
        0 <= j < n <= tt.len(),
        tt[j] is None,
        v is Some,
    ensures
        count_some(tt.update(j, v), n) == count_some(tt, n) + 1,
    decreases n,
{
    if j == n - 1 {
        lemma_count_some_same(tt.update(j, v), tt, n - 1);
    } else {
        lemma_count_some_update(tt, n - 1, j, v);
    }
}

/// Sequences equal on a prefix have the same count there.
proof fn lemma_count_some_same(a: Seq<Option<usize>>, b: Seq<Option<usize>>, n: int)
    requires
        forall|i: int| 0 <= i < n ==> a[i] == b[i],
    ensures
        count_some(a, n) == count_some(b, n),
    decreases n,
{
    if n > 0 {
        lemma_count_some_same(a, b, n - 1);
    }
}

/// Every queued cell is on the board and already costed.
pub open spec fn paths_ok(paths: Seq<HexIndex>, tt: Seq<Option<usize>>) -> bool {
    forall|j: int| 0 <= j < paths.len() ==> (#[trigger] paths[j]).wf()
        && tt[paths[j].spec_index()] is Some
}

/// What `find_route` guarantees of a reconstructed route: every step is a
/// costed board cell, consecutive steps (and the start before the first
/// step) are adjacent, the `i`-th step costs exactly `i + 1` hops, the
/// route ends at the destination, and its length equals the destination's
/// cost.
pub open spec fn route_ok(
    tt: Seq<Option<usize>>,
    start: HexIndex,
    arrival: HexIndex,
    route: Seq<HexIndex>,
) -> bool {
    &&& forall|j: int| 0 <= j < route.len() ==> (#[trigger] route[j]).wf()
        && tt[route[j].spec_index()] is Some
    &&& (route.len() == 0 ==> arrival == start)
    &&& (route.len() > 0 ==> route[route.len() - 1] == arrival && adjacent(
        start.spec_index(),
        route[0].spec_index(),
    ))
    &&& forall|j: int| 0 < j < route.len() ==> adjacent(
        route[j - 1].spec_index(),
        (#[trigger] route[j]).spec_index(),
    )
    &&& forall|j: int| 0 <= j < route.len() ==> tt[(#[trigger] route[j]).spec_index()]->Some_0
        == j + 1
    &&& (route.len() > 0 ==> route.len() == tt[arrival.spec_index()]->Some_0)
}

/// The cost map came out of the breadth-first search against some unit
/// table and budget.  Kept opaque: callers carry it as a single fact, and
/// `find_route` draws the one consequence it needs through
/// `lemma_search_map_lipschitz`.
#[verifier::opaque]
pub open spec fn from_cost_search(tt: Seq<Option<usize>>, start: int) -> bool {
    exists|gu: Seq<Option<Unit>>, b: int|
        #[trigger] cost_map_ok(tt, gu, start, b) && cost_map_closed(tt, gu, b)
}

/// Between adjacent costed cells of a computed map, the dearer one (when
/// it is not the start) costs at most one hop more than the cheaper one.
/// This is what the backward walk leans on to descend in single hops; it
/// follows from `cost_map_ok` and `cost_map_closed`.  Kept opaque and
/// applied pointwise through `lemma_lipschitz_step`.
#[verifier::opaque]
pub open spec fn costs_lipschitz(tt: Seq<Option<usize>>, start: int) -> bool {
    forall|i: int, d: Direction|
        0 <= i < 61 && (#[trigger] snbr(i, d)) is Some && tt[i] is Some && tt[snbr(
            i,
            d,
        )->Some_0] is Some && snbr(i, d)->Some_0 != start && tt[snbr(i, d)->Some_0]->Some_0 > tt[
            i
        ]->Some_0 ==> tt[snbr(i, d)->Some_0]->Some_0 <= tt[i]->Some_0 + 1
}

/// A searched cost map changes by at most one hop between adjacent
/// costed cells: the strict-descent walk therefore descends in single
/// hops.
proof fn lemma_search_map_lipschitz(tt: Seq<Option<usize>>, start: int)
    requires
        from_cost_search(tt, start),
    ensures
        costs_lipschitz(tt, start),
{
    reveal(from_cost_search);
    reveal(costs_lipschitz);
    let (gu, gb): (Seq<Option<Unit>>, int) = choose|gu: Seq<Option<Unit>>, b: int|
        #[trigger] cost_map_ok(tt, gu, start, b) && cost_map_closed(tt, gu, b);
    assert forall|i: int, d: Direction|
        0 <= i < 61 && (#[trigger] snbr(i, d)) is Some && tt[i] is Some && tt[snbr(
            i,
            d,
        )->Some_0] is Some && snbr(i, d)->Some_0 != start && tt[snbr(i, d)->Some_0]->Some_0 > tt[
            i
        ]->Some_0 implies tt[snbr(i, d)->Some_0]->Some_0 <= tt[i]->Some_0 + 1 by {
        let j = snbr(i, d)->Some_0;
        crate::idx::lemma_snbr_valid(i, d);
        assert(!occ(gu, j));
        assert((tt[i]->Some_0 as int) < gb);
    }
}

/// One application of `costs_lipschitz`: the costed, non-start neighbour
/// `j` of the costed cell `i` is at most one hop dearer than `i`.
proof fn lemma_lipschitz_step(tt: Seq<Option<usize>>, start: int, i: int, d: Direction, j: int)
    requires
        costs_lipschitz(tt, start),
        0 <= i < 61,
        snbr(i, d) == Some(j),
        tt[i] is Some,
        tt[j] is Some,
        j != start,
        tt[j]->Some_0 > tt[i]->Some_0,
    ensures
        tt[j]->Some_0 <= tt[i]->Some_0 + 1,
{
    reveal(costs_lipschitz);
}

/// Cost recorded for the neighbour of `i` in direction `d` (`None` at a
/// board edge).
pub open spec fn nbr_cost(tt: Seq<Option<usize>>, i: int, d: Direction) -> Option<usize> {
    match snbr(i, d) {
        Some(j) => tt[j],
        None => None,
    }
}

/// The costed neighbour of `last` with the smallest cost, ties broken by a
/// fixed enumeration order (left, right, top left, top right, bottom left,
/// bottom right).
fn best_neighbour(travel_time: &Vec<Option<usize>>, last: HexIndex) -> (r: Option<(HexIndex, usize)>)
    requires
        travel_time@.len() == 61,
        last.wf(),
    ensures
        r matches Some(p) ==> {
            &&& p.0.wf()
            &&& adjacent(last.spec_index(), p.0.spec_index())
            &&& travel_time@[p.0.spec_index()] == Some(p.1)
            &&& forall|d: Direction| #[trigger] nbr_cost(travel_time@, last.spec_index(), d)
                is Some ==> p.1 <= nbr_cost(travel_time@, last.spec_index(), d)->Some_0
        },
        r is None ==> forall|d: Direction| #[trigger] nbr_cost(travel_time@, last.spec_index(), d)
            is None,
    {
        let dirs = [
            Direction::Left,
            Direction::Right,
            Direction::TopLeft,
            Direction::TopRight,
            Direction::BottomLeft,
            Direction::BottomRight,
        ];
        let mut best: Option<(HexIndex, usize)> = None;
        let mut k: usize = 0;
        while k < 6
            invariant
                travel_time@.len() == 61,
                last.wf(),
                k <= 6,
                dirs@ =~= seq![
                    Direction::Left,
                    Direction::Right,
                    Direction::TopLeft,
                    Direction::TopRight,
                    Direction::BottomLeft,
                    Direction::BottomRight,
                ],
                best matches Some(p) ==> {
                    &&& p.0.wf()
                    &&& adjacent(last.spec_index(), p.0.spec_index())
                    &&& travel_time@[p.0.spec_index()] == Some(p.1)
                    &&& forall|m: int| 0 <= m < k && #[trigger] nbr_cost(
                        travel_time@,
                        last.spec_index(),
                        dirs@[m],
                    ) is Some ==> p.1 <= nbr_cost(travel_time@, last.spec_index(), dirs@[m])->Some_0
                },
                best is None ==> forall|m: int| 0 <= m < k ==> #[trigger] nbr_cost(
                    travel_time@,
                    last.spec_index(),
                    dirs@[m],
                ) is None,
            decreases 6 - k,
        {
            let dk = dirs[k];
            if let Some(n) = last.get_neighbour(dk) {
                if let Some(cost) = travel_time[n.get_index()] {
                    let better = match &best {
                        None => true,
                        Some(p) => cost < p.1,
                    };
                    if better {
                        proof {
                            crate::idx::lemma_adjacent_intro(
                                last.spec_index(),
                                dk,
                                n.spec_index(),
                            );
                        }
                        best = Some((n, cost));
                    }
                }
            }
            k += 1;
        }
        proof {
            if best is Some {
                let p = best->Some_0;
                assert forall|d: Direction| #[trigger] nbr_cost(travel_time@, last.spec_index(), d)
                    is Some implies p.1 <= nbr_cost(travel_time@, last.spec_index(), d)->Some_0 by {
                    match d {
                        Direction::Left => { assert(dirs@[0] == d); },
                        Direction::Right => { assert(dirs@[1] == d); },
                        Direction::TopLeft => { assert(dirs@[2] == d); },
                        Direction::TopRight => { assert(dirs@[3] == d); },
                        Direction::BottomLeft => { assert(dirs@[4] == d); },
                        Direction::BottomRight => { assert(dirs@[5] == d); },
                    }
                }
            } else {
                assert forall|d: Direction| #[trigger] nbr_cost(travel_time@, last.spec_index(), d)
                    is None by {
                    match d {
                        Direction::Left => { assert(dirs@[0] == d); },
                        Direction::Right => { assert(dirs@[1] == d); },
                        Direction::TopLeft => { assert(dirs@[2] == d); },
                        Direction::TopRight => { assert(dirs@[3] == d); },
                        Direction::BottomLeft => { assert(dirs@[4] == d); },
                        Direction::BottomRight => { assert(dirs@[5] == d); },
                    }
                }
            }
        }
        best
    }

/// The backward walk's state: `rev` runs from the destination toward the
/// start; each later entry is adjacent to the one before it and exactly
/// one hop cheaper; `last` is the next cell to append, adjacent to and one
/// hop cheaper than the latest entry.
#[verifier::opaque]
pub open spec fn rev_path_ok(
    tt: Seq<Option<usize>>,
    arrival: HexIndex,
    rev: Seq<HexIndex>,
    last: HexIndex,
) -> bool {
    &&& last.wf()
    &&& tt[last.spec_index()] is Some
    &&& forall|j: int| 0 <= j < rev.len() ==> (#[trigger] rev[j]).wf()
        && tt[rev[j].spec_index()] is Some
    &&& (rev.len() == 0 ==> last == arrival)
    &&& (rev.len() > 0 ==> rev[0] == arrival)
    &&& forall|j: int| 0 < j < rev.len() ==> adjacent(
        (#[trigger] rev[j]).spec_index(),
        rev[j - 1].spec_index(),
    )
    &&& forall|j: int| 0 <= j < rev.len() ==> tt[(#[trigger] rev[j]).spec_index()]->Some_0 == tt[
        rev[0].spec_index()
    ]->Some_0 - j
    &&& (rev.len() > 0 ==> adjacent(last.spec_index(), rev[rev.len() - 1].spec_index()))
    &&& (rev.len() > 0 ==> tt[last.spec_index()]->Some_0 == tt[rev[0].spec_index()]->Some_0
        - rev.len())
}

/// The walk starts at the destination with nothing collected.
proof fn lemma_rev_path_init(tt: Seq<Option<usize>>, arrival: HexIndex)
    requires
        arrival.wf(),
        tt[arrival.spec_index()] is Some,
    ensures
        rev_path_ok(tt, arrival, Seq::<HexIndex>::empty(), arrival),
{
    reveal(rev_path_ok);
}

/// Appending the current cell and stepping to a cheaper adjacent one keeps
/// the walk coherent.
proof fn lemma_rev_path_push(
    tt: Seq<Option<usize>>,
    arrival: HexIndex,
    rev: Seq<HexIndex>,
    last: HexIndex,
    next: HexIndex,
)
    requires
        rev_path_ok(tt, arrival, rev, last),
        next.wf(),
        tt[next.spec_index()] is Some,
        adjacent(next.spec_index(), last.spec_index()),
        tt[next.spec_index()]->Some_0 == tt[last.spec_index()]->Some_0 - 1,
    ensures
        rev_path_ok(tt, arrival, rev.push(last), next),
{
    reveal(rev_path_ok);
    let rev2 = rev.push(last);
    assert(rev2[rev2.len() - 1] == last);
    assert forall|j: int| 0 < j < rev2.len() implies adjacent(
        (#[trigger] rev2[j]).spec_index(),
        rev2[j - 1].spec_index(),
    ) by {
        if j < rev.len() {
            assert(rev2[j] == rev[j]);
            assert(rev2[j - 1] == rev[j - 1]);
        } else {
            assert(rev2[j] == last);
            assert(rev2[j - 1] == rev[j - 1]);
        }
    }
    assert forall|j: int| 0 <= j < rev2.len() implies tt[(
    #[trigger] rev2[j]).spec_index()]->Some_0 == tt[rev2[0].spec_index()]->Some_0 - j by {
        assert(rev2[0] == if rev.len() > 0 {
            rev[0]
        } else {
            last
        });
        if j < rev.len() {
            assert(rev2[j] == rev[j]);
        } else {
            assert(rev2[j] == last);
        }
    }
}

/// Reversing a finished walk (one that reached the start) yields a route
/// as `find_route` promises it.
proof fn lemma_rev_path_route(
    tt: Seq<Option<usize>>,
    start: HexIndex,
    arrival: HexIndex,
    rev: Seq<HexIndex>,
    route: Seq<HexIndex>,
)
    requires
        rev_path_ok(tt, arrival, rev, start),
        tt[start.spec_index()] == Some(0usize),
        route.len() == rev.len(),
        forall|i: int| 0 <= i < route.len() ==> route[i] == rev[rev.len() - 1 - i],
    ensures
        route_ok(tt, start, arrival, route),
{
    reveal(rev_path_ok);
    let n = route.len();
    assert forall|i: int| 0 < i < n implies adjacent(
        route[i - 1].spec_index(),
        (#[trigger] route[i]).spec_index(),
    ) by {
        assert(route[i] == rev[n - 1 - i]);
        assert(route[i - 1] == rev[n - i]);
    }
    assert forall|i: int| 0 <= i < n implies (#[trigger] route[i]).wf()
        && tt[route[i].spec_index()] is Some by {
        assert(route[i] == rev[n - 1 - i]);
    }
    if n > 0 {
        assert(route[n - 1] == rev[0]);
        assert(route[0] == rev[n - 1]);
        // the walk ended on the start, whose cost is zero, so the
        // destination's cost is exactly the number of collected cells
        assert(tt[rev[0].spec_index()]->Some_0 == n);
    }
    assert forall|i: int| 0 <= i < n implies tt[(#[trigger] route[i]).spec_index()]->Some_0 == i
        + 1 by {
        assert(route[i] == rev[n - 1 - i]);
    }
}

/// Walk a cost map backward from `arrival_point`: `None` exactly when the
/// destination has no cost; otherwise a start-to-destination route through
/// strictly increasing costs (see `route_ok`).  Ties between equally cheap
/// neighbours go to the fixed enumeration order of `best_neighbour`.
pub fn find_route(
    travel_time: &Vec<Option<usize>>,
    starting_point: HexIndex,
    arrival_point: HexIndex,
) -> (r: Option<Vec<HexIndex>>)
    requires
        starting_point.wf(),
        arrival_point.wf(),
        route_map_ok(travel_time@, starting_point.spec_index()),
        from_cost_search(travel_time@, starting_point.spec_index()),
    ensures
        r is Some <==> travel_time@[arrival_point.spec_index()] is Some,
        r matches Some(route) ==> route_ok(travel_time@, starting_point, arrival_point, route@),
{
    let ghost tt = travel_time@;
    let ghost start = starting_point.spec_index();
    proof {
        lemma_search_map_lipschitz(tt, start);
    }
    if travel_time[arrival_point.get_index()].is_some() {
        let mut rev: Vec<HexIndex> = Vec::new();
        let mut last = arrival_point;
        proof {
            lemma_rev_path_init(tt, arrival_point);
            assert(rev@ =~= Seq::<HexIndex>::empty());
        }
        while !(last == starting_point)
            invariant
                route_map_ok(tt, start),
                tt == travel_time@,
                start == starting_point.spec_index(),
                starting_point.wf(),
                arrival_point.wf(),
                last.wf(),
                tt[last.spec_index()] is Some,
                rev_path_ok(tt, arrival_point, rev@, last),
                costs_lipschitz(tt, start),
            decreases tt[last.spec_index()]->Some_0,
        {
            let ghost rev0 = rev@;
            rev.push(last);
            proof {
                if last.spec_index() == starting_point.spec_index() {
                    crate::idx::lemma_index_injective(last, starting_point);
                }
                assert(tt[last.spec_index()] != Some(0usize));
            }
            match best_neighbour(travel_time, last) {
                Some((next, _cost)) => {
                    proof {
                        let dw = choose|d: Direction|
                            {
                                &&& #[trigger] snbr(last.spec_index(), d) matches Some(j)
                                &&& 0 <= j < 61
                                &&& tt[j] is Some
                                &&& tt[j]->Some_0 < tt[last.spec_index()]->Some_0
                            };
                        assert(nbr_cost(tt, last.spec_index(), dw) is Some);
                        assert(nbr_cost(tt, last.spec_index(), dw)->Some_0
                            < tt[last.spec_index()]->Some_0);
                        assert(tt[next.spec_index()]->Some_0 < tt[last.spec_index()]->Some_0);
                        reveal(adjacent);
                        let db = choose|d: Direction|
                            snbr(last.spec_index(), d) == Some(next.spec_index());
                        lemma_neighbour_symmetry(last.spec_index(), db);
                        crate::idx::lemma_adjacent_intro(
                            next.spec_index(),
                            db.spec_opposite(),
                            last.spec_index(),
                        );
                        // the step is exactly one hop: walking back from a
                        // non-start cell, adjacent costs differ by at most
                        // one, so the strictly cheaper chosen neighbour is
                        // exactly one hop cheaper
                        assert(last.spec_index() != start);
                        crate::idx::lemma_snbr_valid(last.spec_index(), db);
                        lemma_lipschitz_step(
                            tt,
                            start,
                            next.spec_index(),
                            db.spec_opposite(),
                            last.spec_index(),
                        );
                        lemma_rev_path_push(tt, arrival_point, rev0, last, next);
                    }
                    last = next;
                },
                None => {
                    proof {
                        let dw = choose|d: Direction|
                            {
                                &&& #[trigger] snbr(last.spec_index(), d) matches Some(j)
                                &&& 0 <= j < 61
                                &&& tt[j] is Some
                                &&& tt[j]->Some_0 < tt[last.spec_index()]->Some_0
                            };
                        assert(nbr_cost(tt, last.spec_index(), dw) is Some);
                    }
                },
            }
        }
        let mut route: Vec<HexIndex> = Vec::new();
        let mut j: usize = rev.len();
        while j > 0
            invariant
                j <= rev@.len(),
                route@.len() + j == rev@.len(),
                forall|i: int| 0 <= i < route@.len() ==> route@[i] == rev@[rev@.len() - 1 - i],
            decreases j,
        {
            j -= 1;
            route.push(rev[j]);
        }
        proof {
            lemma_rev_path_route(tt, starting_point, arrival_point, rev@, route@);
        }
        Some(route)
    } else {
        None
    }
}

/// One more unoccupied neighbour step extends a chain by one.
proof fn lemma_reachable_step(
    u: Seq<Option<Unit>>,
    start: int,
    p: int,
    c: int,
    d: Direction,
    k: int,
)
    requires
        reachable_in(u, start, p, k),
        snbr(p, d) == Some(c),
        !occ(u, c),
        k >= 0,
    ensures
        reachable_in(u, start, c, k + 1),
{
    assert(reachable_in(u, start, p, (k + 1) - 1));
}

/// Costing one fresh, unoccupied cell one hop beyond a costed cell keeps
/// the cost map coherent.
proof fn lemma_cost_map_extend(
    tt0: Seq<Option<usize>>,
    u: Seq<Option<Unit>>,
    start: int,
    budget: int,
    from: HexIndex,
    d: Direction,
    nb: HexIndex,
    k: usize,
)
    requires
        cost_map_ok(tt0, u, start, budget),
        from.wf(),
        nb.wf(),
        tt0[from.spec_index()] == Some(k),
        (k as int) < budget,
        budget <= usize::MAX,
        snbr(from.spec_index(), d) == Some(nb.spec_index()),
        tt0[nb.spec_index()] is None,
        !occ(u, nb.spec_index()),
    ensures
        cost_map_ok(tt0.update(nb.spec_index(), Some((k + 1) as usize)), u, start, budget),
{
    let ii = nb.spec_index();
    let tt2 = tt0.update(ii, Some((k + 1) as usize));
    assert(ii != start);
    assert(reachable_in(u, start, from.spec_index(), k as int));
    lemma_reachable_step(u, start, from.spec_index(), ii, d, k as int);
    lemma_neighbour_symmetry(from.spec_index(), d);
    assert(snbr(ii, d.spec_opposite()) == Some(from.spec_index()));
    assert forall|c: int|
        0 <= c < 61 && #[trigger] tt2[c] is Some && tt2[c]->Some_0 > 0 implies exists|
        dd: Direction,
    |
        {
            &&& #[trigger] snbr(c, dd) matches Some(j)
            &&& 0 <= j < 61
            &&& tt2[j] is Some
            &&& tt2[j]->Some_0 < tt2[c]->Some_0
        } by {
        if c == ii {
            assert(snbr(c, d.spec_opposite()) matches Some(j) && 0 <= j < 61 && tt2[j] is Some
                && tt2[j]->Some_0 < tt2[c]->Some_0);
        } else {
            let dd = choose|dd: Direction|
                {
                    &&& #[trigger] snbr(c, dd) matches Some(j)
                    &&& 0 <= j < 61
                    &&& tt0[j] is Some
                    &&& tt0[j]->Some_0 < tt0[c]->Some_0
                };
            let j = snbr(c, dd)->Some_0;
            assert(tt2[j] == tt0[j]);
            assert(snbr(c, dd) matches Some(j2) && 0 <= j2 < 61 && tt2[j2] is Some
                && tt2[j2]->Some_0 < tt2[c]->Some_0);
        }
    }
    assert forall|c: int| 0 <= c < 61 && #[trigger] tt2[c] is Some implies tt2[c]->Some_0 <= budget
        && reachable_in(u, start, c, tt2[c]->Some_0 as int) by {
        if c != ii {
            assert(tt2[c] == tt0[c]);
        }
    }
}

/// Visit one neighbour during the breadth-first search: when it exists, is
/// not yet costed and is unoccupied, cost it one hop beyond `from` and
/// queue it.
fn visit_neighbour(
    travel_time: &mut Vec<Option<usize>>,
    paths: &mut Vec<HexIndex>,
    units: &Units,
    neighbour: Option<HexIndex>,
    k: usize,
    Ghost(from): Ghost<HexIndex>,
    Ghost(d): Ghost<Direction>,
    Ghost(start): Ghost<int>,
    Ghost(budget): Ghost<int>,
)
    requires
        units.wf(),
        cost_map_ok(old(travel_time)@, units.grid(), start, budget),
        paths_ok(old(paths)@, old(travel_time)@),
        from.wf(),
        old(travel_time)@[from.spec_index()] == Some(k),
        (k as int) < budget,
        budget <= usize::MAX,
        frontier_ok(old(travel_time)@, old(paths)@, k as int),
        neighbour matches Some(nb) ==> nb.wf() && snbr(from.spec_index(), d) == Some(
            nb.spec_index(),
        ),
    ensures
        cost_map_ok(final(travel_time)@, units.grid(), start, budget),
        paths_ok(final(paths)@, final(travel_time)@),
        frontier_ok(final(travel_time)@, final(paths)@, k as int),
        forall|i: int| 0 <= i < 61 && old(travel_time)@[i] is Some ==> final(travel_time)@[i]
            == old(travel_time)@[i],
        61 - count_some(final(travel_time)@, 61) + final(paths)@.len() == 61 - count_some(
            old(travel_time)@,
            61,
        ) + old(paths)@.len(),
        forall|j: int| 0 <= j < old(paths)@.len() ==> final(paths)@[j] == old(paths)@[j],
        final(paths)@.len() >= old(paths)@.len(),
        neighbour is Some && !occ(units.grid(), neighbour->Some_0.spec_index())
            ==> final(travel_time)@[neighbour->Some_0.spec_index()] is Some,
        forall|c: int|
            0 <= c < 61 && old(travel_time)@[c] is None && final(travel_time)@[c] is Some
                ==> in_queue(final(paths)@, c),
{
    let ghost u = units.grid();
    let ghost tt0 = travel_time@;
    let ghost paths0 = paths@;
    if let Some(nb) = neighbour {
        let i = nb.get_index();
        if travel_time[i].is_none() && units.get(&nb).is_none() {
            travel_time[i] = Some(k + 1);
            paths.push(nb);
            proof {
                let ii = nb.spec_index();
                assert(travel_time@ == tt0.update(ii, Some((k + 1) as usize)));
                lemma_count_some_update(tt0, 61, ii, Some((k + 1) as usize));
                lemma_cost_map_extend(tt0, u, start, budget, from, d, nb, k);
                assert(paths@[paths@.len() - 1] == nb);
                assert(in_queue(paths@, ii));
                // queued cells were already costed, so their costs are
                // untouched by costing the fresh cell
                assert forall|m: int| 0 <= m < paths@.len() implies k as int <= #[trigger] qc(
                    travel_time@,
                    paths@,
                    m,
                ) <= k + 1 by {
                    if m < paths0.len() {
                        assert(paths@[m] == paths0[m]);
                        assert(paths0[m].spec_index() != ii);
                        assert(qc(travel_time@, paths@, m) == qc(tt0, paths0, m));
                    } else {
                        assert(paths@[m] == nb);
                    }
                }
                assert forall|m1: int, m2: int| 0 <= m1 <= m2 < paths@.len() implies qc(
                    travel_time@,
                    paths@,
                    m1,
                ) <= qc(travel_time@, paths@, m2) by {
                    if m2 < paths0.len() {
                        assert(paths@[m1] == paths0[m1]);
                        assert(paths@[m2] == paths0[m2]);
                        assert(paths0[m1].spec_index() != ii);
                        assert(paths0[m2].spec_index() != ii);
                        assert(qc(travel_time@, paths@, m1) == qc(tt0, paths0, m1));
                        assert(qc(travel_time@, paths@, m2) == qc(tt0, paths0, m2));
                    }
                }
            }
        }
    }
}

/// A queued cell stays queued when the queue only grows at its end.
proof fn lemma_in_queue_mono(p1: Seq<HexIndex>, p2: Seq<HexIndex>, c: int)
    requires
        p2.len() >= p1.len(),
        forall|j: int| 0 <= j < p1.len() ==> p2[j] == p1[j],
        in_queue(p1, c),
    ensures
        in_queue(p2, c),
{
    let j = choose|j: int| 0 <= j < p1.len() && (#[trigger] p1[j]).spec_index() == c;
    assert(p2[j].spec_index() == c);
}

/// Expand one dequeued cell: visit its six neighbours in the fixed order,
/// costing and queueing every fresh, unoccupied one.
fn expand_cell(
    travel_time: &mut Vec<Option<usize>>,
    paths: &mut Vec<HexIndex>,
    units: &Units,
    this_path: HexIndex,
    k: usize,
    Ghost(start): Ghost<int>,
    Ghost(budget): Ghost<int>,
)
    requires
        units.wf(),
        cost_map_ok(old(travel_time)@, units.grid(), start, budget),
        paths_ok(old(paths)@, old(travel_time)@),
        this_path.wf(),
        old(travel_time)@[this_path.spec_index()] == Some(k),
        (k as int) < budget,
        budget <= usize::MAX,
        frontier_ok(old(travel_time)@, old(paths)@, k as int),
    ensures
        cost_map_ok(final(travel_time)@, units.grid(), start, budget),
        paths_ok(final(paths)@, final(travel_time)@),
        frontier_ok(final(travel_time)@, final(paths)@, k as int),
        forall|i: int| 0 <= i < 61 && old(travel_time)@[i] is Some ==> final(travel_time)@[i]
            == old(travel_time)@[i],
        61 - count_some(final(travel_time)@, 61) + final(paths)@.len() == 61 - count_some(
            old(travel_time)@,
            61,
        ) + old(paths)@.len(),
        forall|j: int| 0 <= j < old(paths)@.len() ==> final(paths)@[j] == old(paths)@[j],
        final(paths)@.len() >= old(paths)@.len(),
        forall|d: Direction| (#[trigger] snbr(this_path.spec_index(), d)) is Some && !occ(
            units.grid(),
            snbr(this_path.spec_index(), d)->Some_0,
        ) ==> final(travel_time)@[snbr(this_path.spec_index(), d)->Some_0] is Some,
        forall|c: int|
            0 <= c < 61 && old(travel_time)@[c] is None && final(travel_time)@[c] is Some
                ==> in_queue(final(paths)@, c),
{
    let ghost u = units.grid();
    let n = this_path.get_right_neighbour();
    visit_neighbour(
        travel_time,
        paths,
        units,
        n,
        k,
        Ghost(this_path),
        Ghost(Direction::Right),
        Ghost(start),
        Ghost(budget),
    );
    let ghost t1 = travel_time@;
    let ghost p1 = paths@;
    let n = this_path.get_left_neighbour();
    visit_neighbour(
        travel_time,
        paths,
        units,
        n,
        k,
        Ghost(this_path),
        Ghost(Direction::Left),
        Ghost(start),
        Ghost(budget),
    );
    let ghost t2 = travel_time@;
    let ghost p2 = paths@;
    let n = this_path.get_top_right_neighbour();
    visit_neighbour(
        travel_time,
        paths,
        units,
        n,
        k,
        Ghost(this_path),
        Ghost(Direction::TopRight),
        Ghost(start),
        Ghost(budget),
    );
    let ghost t3 = travel_time@;
    let ghost p3 = paths@;
    let n = this_path.get_top_left_neighbour();
    visit_neighbour(
        travel_time,
        paths,
        units,
        n,
        k,
        Ghost(this_path),
        Ghost(Direction::TopLeft),
        Ghost(start),
        Ghost(budget),
    );
    let ghost t4 = travel_time@;
    let ghost p4 = paths@;
    let n = this_path.get_bottom_right_neighbour();
    visit_neighbour(
        travel_time,
        paths,
        units,
        n,
        k,
        Ghost(this_path),
        Ghost(Direction::BottomRight),
        Ghost(start),
        Ghost(budget),
    );
    let ghost t5 = travel_time@;
    let ghost p5 = paths@;
    let n = this_path.get_bottom_left_neighbour();
    visit_neighbour(
        travel_time,
        paths,
        units,
        n,
        k,
        Ghost(this_path),
        Ghost(Direction::BottomLeft),
        Ghost(start),
        Ghost(budget),
    );
    proof {
        assert forall|d: Direction| (#[trigger] snbr(this_path.spec_index(), d)) is Some && !occ(
            u,
            snbr(this_path.spec_index(), d)->Some_0,
        ) implies travel_time@[snbr(this_path.spec_index(), d)->Some_0] is Some by {
            match d {
                Direction::Right => {},
                Direction::Left => {},
                Direction::TopRight => {},
                Direction::TopLeft => {},
                Direction::BottomRight => {},
                Direction::BottomLeft => {},
            }
        }
        assert forall|c: int|
            0 <= c < 61 && old(travel_time)@[c] is None && travel_time@[c] is Some
                implies in_queue(paths@, c) by {
            if t1[c] is Some {
                lemma_in_queue_mono(p1, p2, c);
                lemma_in_queue_mono(p2, p3, c);
                lemma_in_queue_mono(p3, p4, c);
                lemma_in_queue_mono(p4, p5, c);
                lemma_in_queue_mono(p5, paths@, c);
            } else if t2[c] is Some {
                lemma_in_queue_mono(p2, p3, c);
                lemma_in_queue_mono(p3, p4, c);
                lemma_in_queue_mono(p4, p5, c);
                lemma_in_queue_mono(p5, paths@, c);
            } else if t3[c] is Some {
                lemma_in_queue_mono(p3, p4, c);
                lemma_in_queue_mono(p4, p5, c);
                lemma_in_queue_mono(p5, paths@, c);
            } else if t4[c] is Some {
                lemma_in_queue_mono(p4, p5, c);
                lemma_in_queue_mono(p5, paths@, c);
            } else if t5[c] is Some {
                lemma_in_queue_mono(p5, paths@, c);
            }
        }
    }
}

/// Chain induction for completeness: walking any unoccupied chain within
/// the budget, the `+1`-closure keeps every visited cell costed at most
/// the number of steps taken so far.
proof fn lemma_complete_chain(
    tt: Seq<Option<usize>>,
    u: Seq<Option<Unit>>,
    start: int,
    budget: int,
    c: int,
    kk: int,
)
    requires
        0 <= start < 61,
        tt.len() == 61,
        tt[start] == Some(0usize),
        cost_map_closed(tt, u, budget),
        0 <= kk <= budget,
        reachable_in(u, start, c, kk),
    ensures
        0 <= c < 61,
        tt[c] is Some,
        tt[c]->Some_0 <= kk,
    decreases kk,
{
    if kk > 0 {
        let (p, d) = choose|p: int, d: Direction|
            {
                &&& reachable_in(u, start, p, kk - 1)
                &&& #[trigger] snbr(p, d) == Some(c)
                &&& !occ(u, c)
            };
        lemma_complete_chain(tt, u, start, budget, p, kk - 1);
        crate::idx::lemma_snbr_valid(p, d);
    }
}

/// The cost map of everything the unit at `starting_point` can reach with
/// `max_moves` movement points: breadth-first expansion through the six
/// neighbour directions, entering only unvisited, unoccupied cells, and
/// expanding no cell that already cost the whole budget.
pub fn compute_travel_time(
    units: &Units,
    _map: &Board,
    starting_point: HexIndex,
    max_moves: usize,
) -> (r: Vec<Option<usize>>)
    requires
        units.wf(),
        starting_point.wf(),
    ensures
        cost_map_ok(r@, units.grid(), starting_point.spec_index(), max_moves as int),
        cost_map_closed(r@, units.grid(), max_moves as int),
        cost_map_complete(r@, units.grid(), starting_point.spec_index(), max_moves as int),
        cost_map_minimal(r@, units.grid(), starting_point.spec_index()),
{
    let ghost u = units.grid();
    let ghost start = starting_point.spec_index();
    let ghost budget = max_moves as int;
    let mut travel_time: Vec<Option<usize>> = Vec::new();
    let mut z: usize = 0;
    while z < 61
        invariant
            travel_time@.len() == z as int,
            z <= 61,
            forall|i: int| 0 <= i < z as int ==> travel_time@[i] is None,
        decreases 61 - z,
    {
        travel_time.push(None);
        z += 1;
    }
    travel_time[starting_point.get_index()] = Some(0);
    let mut paths: Vec<HexIndex> = Vec::new();
    paths.push(starting_point);
    proof {
        assert(reachable_in(u, start, start, 0));
        assert(cost_map_ok(travel_time@, u, start, budget));
        assert(paths@[0].spec_index() == start);
        assert(in_queue(paths@, start));
        lemma_bfs_closed_init(travel_time@, u, paths@, budget, start);
        assert(qc(travel_time@, paths@, 0) == 0);
        assert(queue_ok(travel_time@, paths@));
    }
    loop
        invariant
            units.wf(),
            u == units.grid(),
            start == starting_point.spec_index(),
            budget == max_moves as int,
            cost_map_ok(travel_time@, u, start, budget),
            paths_ok(paths@, travel_time@),
            bfs_closed(travel_time@, u, paths@, budget),
            queue_ok(travel_time@, paths@),
        ensures
            cost_map_ok(travel_time@, u, start, budget),
            bfs_closed(travel_time@, u, paths@, budget),
            paths@.len() == 0,
        decreases 61 - count_some(travel_time@, 61) + paths@.len(),
    {
        if paths.len() == 0 {
            break;
        }
        proof {
            lemma_count_some_le(travel_time@, 61);
        }
        let ghost tt_entry = travel_time@;
        let ghost queue0 = paths@;
        let this_path = paths.remove(0);
        let ghost queue1 = paths@;
        proof {
            assert forall|j: int| 0 <= j < paths@.len() implies (#[trigger] paths@[j]).wf()
                && travel_time@[paths@[j].spec_index()] is Some by {
                assert(paths@[j] == queue0[j + 1]);
            }
        }
        let travel_time_to_here = match travel_time[this_path.get_index()] {
            Some(t) => t,
            None => 0,
        };
        proof {
            assert(queue1 =~= queue0.drop_first());
            assert(qc(tt_entry, queue0, 0) == travel_time_to_here as int);
            assert forall|m: int| 0 <= m < queue1.len() implies travel_time_to_here as int
                <= #[trigger] qc(travel_time@, queue1, m) <= travel_time_to_here + 1 by {
                assert(queue1[m] == queue0[m + 1]);
                assert(qc(tt_entry, queue0, 0) <= qc(tt_entry, queue0, m + 1));
                assert(qc(tt_entry, queue0, m + 1) <= qc(tt_entry, queue0, queue0.len() - 1));
            }
            assert forall|m1: int, m2: int| 0 <= m1 <= m2 < queue1.len() implies qc(
                travel_time@,
                queue1,
                m1,
            ) <= qc(travel_time@, queue1, m2) by {
                assert(queue1[m1] == queue0[m1 + 1]);
                assert(queue1[m2] == queue0[m2 + 1]);
                assert(qc(tt_entry, queue0, m1 + 1) <= qc(tt_entry, queue0, m2 + 1));
            }
            assert(frontier_ok(travel_time@, paths@, travel_time_to_here as int));
        }
        if travel_time_to_here < max_moves {
            expand_cell(
                &mut travel_time,
                &mut paths,
                units,
                this_path,
                travel_time_to_here,
                Ghost(start),
                Ghost(budget),
            );
        }
        proof {
            lemma_bfs_closed_step(
                tt_entry,
                queue0,
                queue1,
                travel_time@,
                paths@,
                u,
                budget,
                this_path,
                travel_time_to_here,
            );
            // the frontier facts give back the queue invariant
            let kk = travel_time_to_here as int;
            assert(frontier_ok(travel_time@, paths@, kk));
            if paths@.len() > 0 {
                assert(kk <= qc(travel_time@, paths@, 0));
                assert(qc(travel_time@, paths@, paths@.len() - 1) <= kk + 1);
            }
            assert(queue_ok(travel_time@, paths@));
        }
    }
    proof {
        lemma_bfs_closed_empty(travel_time@, u, paths@, budget);
        assert forall|c: int, kk: int|
            0 <= kk <= budget && #[trigger] reachable_in(u, start, c, kk) implies 0 <= c < 61
                && travel_time@[c] is Some && travel_time@[c]->Some_0 <= kk by {
            lemma_complete_chain(travel_time@, u, start, budget, c, kk);
        }
        assert forall|c: int, kk: int|
            0 <= c < 61 && travel_time@[c] is Some && 0 <= kk < travel_time@[c]->Some_0
                implies !(#[trigger] reachable_in(u, start, c, kk)) by {
            if reachable_in(u, start, c, kk) {
                lemma_complete_chain(travel_time@, u, start, budget, c, kk);
            }
        }
    }
    travel_time
}

} // verus!
