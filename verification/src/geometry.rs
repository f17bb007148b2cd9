//! Board geometry: which intersection is an endpoint of which edge, which
//! nodes are adjacent, and executable adjacency enumeration.

use vstd::prelude::*;

use crate::puzzle::Edge;
use crate::puzzle::EdgeDirection;
use crate::puzzle::IntersectionOrEdge;
use crate::puzzle::Pos;
use crate::puzzle::node_in_bounds;

verus! {

/// Whether intersection `p` is an endpoint of edge `e`.
pub open spec fn endpoint_of(p: Pos, e: Edge) -> bool {
    match e.dir {
        EdgeDirection::Horizontal => p.y == e.pos.y && (p.x == e.pos.x || p.x == e.pos.x + 1),
        EdgeDirection::Vertical => p.x == e.pos.x && (p.y == e.pos.y || p.y == e.pos.y + 1),
    }
}

/// Two nodes are adjacent when one is an edge and the other is one of its
/// two endpoint intersections.
pub open spec fn nodes_adjacent(a: IntersectionOrEdge, b: IntersectionOrEdge) -> bool {
    match (a, b) {
        (IntersectionOrEdge::Intersection(p), IntersectionOrEdge::Edge(e)) => endpoint_of(p, e),
        (IntersectionOrEdge::Edge(e), IntersectionOrEdge::Intersection(p)) => endpoint_of(p, e),
        _ => false,
    }
}

/// Decides adjacency of two nodes.
pub fn is_adjacent(a: &IntersectionOrEdge, b: &IntersectionOrEdge) -> (r: bool)
    ensures
        r == nodes_adjacent(*a, *b),
{
    match (a, b) {
        (IntersectionOrEdge::Intersection(p), IntersectionOrEdge::Edge(e)) => is_endpoint(p, e),
        (IntersectionOrEdge::Edge(e), IntersectionOrEdge::Intersection(p)) => is_endpoint(p, e),
        _ => false,
    }
}

/// Decides whether `p` is an endpoint of `e`.
pub fn is_endpoint(p: &Pos, e: &Edge) -> (r: bool)
    ensures
        r == endpoint_of(*p, *e),
{
    match e.dir {
        EdgeDirection::Horizontal => p.y == e.pos.y && (p.x == e.pos.x || (p.x > 0 && p.x - 1
            == e.pos.x)),
        EdgeDirection::Vertical => p.x == e.pos.x && (p.y == e.pos.y || (p.y > 0 && p.y - 1
            == e.pos.y)),
    }
}

/// Whether `v` holds `x`.
pub fn contains_node(v: &Vec<IntersectionOrEdge>, x: &IntersectionOrEdge) -> (r: bool)
    ensures
        r == v@.contains(*x),
{
    let mut i: usize = 0;
    while i < v.len()
        invariant
            0 <= i <= v@.len(),
            forall|j: int| 0 <= j < i ==> v@[j] != *x,
        decreases v@.len() - i,
    {
        if v[i] == *x {
            return true;
        }
        i = i + 1;
    }
    false
}

/// All in-bounds nodes adjacent to `node`: an intersection's adjacent
/// edges (left, top, right, bottom), an edge's two endpoint intersections.
pub fn adjacent_nodes(width: u32, height: u32, node: &IntersectionOrEdge) -> (adj: Vec<
    IntersectionOrEdge,
>)
    requires
        width <= 0x7FFF,
        height <= 0x7FFF,
        node_in_bounds(width, height, *node),
    ensures
        forall|m: IntersectionOrEdge| #[trigger]
            adj@.contains(m) <==> nodes_adjacent(*node, m) && node_in_bounds(width, height, m),
        forall|i: int, j: int| 0 <= i < j < adj@.len() ==> adj@[i] != adj@[j],
{
    let mut adj: Vec<IntersectionOrEdge> = Vec::new();
    match node {
        IntersectionOrEdge::Intersection(pos) => {
            if pos.x > 0 {
                adj.push(
                    IntersectionOrEdge::Edge(
                        Edge { pos: Pos { x: pos.x - 1, y: pos.y }, dir: EdgeDirection::Horizontal },
                    ),
                );
            }
            if pos.y > 0 {
                adj.push(
                    IntersectionOrEdge::Edge(
                        Edge { pos: Pos { x: pos.x, y: pos.y - 1 }, dir: EdgeDirection::Vertical },
                    ),
                );
            }
            if pos.x < width {
                adj.push(
                    IntersectionOrEdge::Edge(
                        Edge { pos: Pos { x: pos.x, y: pos.y }, dir: EdgeDirection::Horizontal },
                    ),
                );
            }
            if pos.y < height {
                adj.push(
                    IntersectionOrEdge::Edge(
                        Edge { pos: Pos { x: pos.x, y: pos.y }, dir: EdgeDirection::Vertical },
                    ),
                );
            }
            proof {
                let i0: int = if pos.x > 0 { 1int } else { 0int };
                let i1: int = if pos.y > 0 { 1int } else { 0int };
                let i2: int = if pos.x < width { 1int } else { 0int };
                assert forall|m: IntersectionOrEdge|
                    nodes_adjacent(*node, m) && node_in_bounds(width, height, m) implies #[trigger]
                    adj@.contains(m) by {
                    if m is Edge {
                        let e = m->Edge_0;
                        match e.dir {
                            EdgeDirection::Horizontal => {
                                if e.pos.x == pos.x {
                                    assert(adj@[i0 + i1] == m);
                                } else {
                                    assert(pos.x > 0 && e.pos.x == pos.x - 1);
                                    assert(adj@[0] == m);
                                }
                            },
                            EdgeDirection::Vertical => {
                                if e.pos.y == pos.y {
                                    assert(adj@[i0 + i1 + i2] == m);
                                } else {
                                    assert(pos.y > 0 && e.pos.y == pos.y - 1);
                                    assert(adj@[i0] == m);
                                }
                            },
                        }
                    }
                }
            }
        },
        IntersectionOrEdge::Edge(e) => {
            adj.push(IntersectionOrEdge::Intersection(e.pos));
            match e.dir {
                EdgeDirection::Horizontal => {
                    adj.push(
                        IntersectionOrEdge::Intersection(Pos { x: e.pos.x + 1, y: e.pos.y }),
                    );
                },
                EdgeDirection::Vertical => {
                    adj.push(
                        IntersectionOrEdge::Intersection(Pos { x: e.pos.x, y: e.pos.y + 1 }),
                    );
                },
            }
            proof {
                assert forall|m: IntersectionOrEdge|
                    nodes_adjacent(*node, m) && node_in_bounds(width, height, m) implies #[trigger]
                    adj@.contains(m) by {
                    if m is Intersection {
                        let p = m->Intersection_0;
                        if p == e.pos {
                            assert(adj@[0] == m);
                        } else {
                            assert(adj@[1] == m);
                        }
                    }
                }
            }
        },
    }
    adj
}

} // verus!
