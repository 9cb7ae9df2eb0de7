//! Shortest paths over the map's valid-neighbour graph.

use vstd::prelude::*;
use crate::hex::{HexMapPosition, hex_distance};
use crate::partition::SpatialPartition;
use pathfinding::prelude::astar;

verus! {

impl SpatialPartition {
    /// `w` is a walk from `from` to `to` whose every step goes to a valid
    /// neighbour.
    pub open spec fn is_walk(self, w: Seq<HexMapPosition>, from: HexMapPosition, to: HexMapPosition) -> bool {
        &&& w.len() >= 1
        &&& w[0] == from
        &&& w.last() == to
        &&& forall|i: int| 1 <= i < w.len() ==> self.valid_neighbours(w[i - 1]).contains(#[trigger] w[i])
    }

    /// `w` is a walk from `from` to `to` and no such walk is shorter.
    pub open spec fn is_shortest_walk(self, w: Seq<HexMapPosition>, from: HexMapPosition, to: HexMapPosition) -> bool {
        &&& self.is_walk(w, from, to)
        &&& forall|v: Seq<HexMapPosition>| #[trigger] self.is_walk(v, from, to) ==> w.len() <= v.len()
    }

    /// The valid neighbours of a cell, each with step cost one.
    pub fn neighbour_steps(&self, pos: &HexMapPosition) -> (r: Vec<(HexMapPosition, i32)>)
        requires
            self.config.wf(),
            pos.wf(),
            pos.interior(),
        ensures
            r@.len() == self.valid_neighbours(*pos).len(),
            forall|k: int| 0 <= k < r@.len() ==> #[trigger] r@[k] == (self.valid_neighbours(*pos)[k], 1i32),
    {
        let ns = self.get_valid_neighbours(pos);
        let mut r: Vec<(HexMapPosition, i32)> = Vec::new();
        let mut k: usize = 0;
        while k < ns.len()
            invariant
                k <= ns@.len(),
                ns@ == self.valid_neighbours(*pos),
                r@.len() == k,
                forall|j: int| 0 <= j < k ==> #[trigger] r@[j] == (ns@[j], 1i32),
            decreases ns@.len() - k,
        {
            r.push((ns[k], 1));
            k = k + 1;
        }
        r
    }
}

/// Relies on `pathfinding::directed::astar::astar`: with unit step costs and
/// hex distance as heuristic (never more than the remaining cost), it returns
/// a shortest path from `start` to a node that passes the success test, both
/// ends included, or `None` when no path exists.
#[verifier::external_body]
pub(crate) fn shortest_path(
    partition: &SpatialPartition,
    start: &HexMapPosition,
    goal: &HexMapPosition,
) -> (r: Option<Vec<HexMapPosition>>)
    requires
        partition.config.wf(),
        start.wf(),
        partition.valid(*start),
        goal.wf(),
    ensures
        r matches Some(path) ==> partition.is_shortest_walk(path@, *start, *goal),
        r is None ==> forall|w: Seq<HexMapPosition>| !#[trigger] partition.is_walk(w, *start, *goal),
{
    astar(
        start,
        |p| partition.neighbour_steps(p),
        |p| hex_distance(p, goal),
        |p| p.same_cell(goal),
    ).map(|found| found.0)
}

} // verus!
