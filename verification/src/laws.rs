//! General laws of valid solutions, stated and proved once and for all.

use vstd::prelude::*;

use crate::checker::valid_solution;
use crate::geometry::nodes_adjacent;
use crate::puzzle::IntersectionOrEdge;
use crate::puzzle::Puzzle;

verus! {

/// A puzzle with no flagged source, or no flagged exit, has no valid
/// solution: every valid path begins at a flagged source and ends at a
/// flagged exit.
pub proof fn lemma_no_source_or_exit_unsolvable(p: Puzzle, path: Seq<IntersectionOrEdge>)
    requires
        p.sources@.len() == 0 || p.exits@.len() == 0,
    ensures
        !valid_solution(p, path),
{
    if valid_solution(p, path) {
        assert(p.sources@.contains(path[0]));
        assert(p.exits@.contains(path[path.len() - 1]));
    }
}

/// A valid path strictly alternates intersections and edges: adjacency
/// only ever relates an intersection to an edge.
pub proof fn lemma_path_alternates(p: Puzzle, path: Seq<IntersectionOrEdge>, i: int)
    requires
        valid_solution(p, path),
        0 <= i < path.len() - 1,
    ensures
        path[i] is Intersection <==> path[i + 1] is Edge,
{
    assert(nodes_adjacent(path[i], path[i + 1]));
}

} // verus!
