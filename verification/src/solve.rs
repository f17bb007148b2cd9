//! Constraint emission and solving: walk the board, assert the rules of a
//! valid path into the SMT solver, ask for a model, read the drawn line
//! back, and validate it with the verified checker before returning it.

use vstd::prelude::*;

use crate::board::PuzzleModel;
use crate::checker::Symbol;
use crate::checker::check_solution;
use crate::checker::valid_solution;
use crate::geometry::adjacent_nodes;
use crate::geometry::contains_node;
use crate::geometry::nodes_adjacent;
use crate::puzzle::Colour;
use crate::puzzle::Edge;
use crate::puzzle::EdgeDirection;
use crate::puzzle::IntersectionOrEdge;
use crate::puzzle::Pos;
use crate::puzzle::Puzzle;
use crate::puzzle::cell_in_bounds;
use crate::puzzle::node_in_bounds;
use crate::smt::SatOutcome;
use crate::smt::bool_and;
use crate::smt::bool_clone;
use crate::smt::bool_implies;
use crate::smt::bool_lit;
use crate::smt::bool_not;
use crate::smt::bool_or;
use crate::smt::bool_xor;
use crate::smt::eval_bool;
use crate::smt::forall_int;
use crate::smt::fresh_int;
use crate::smt::int_add;
use crate::smt::int_clone;
use crate::smt::int_div;
use crate::smt::int_eq;
use crate::smt::int_ge;
use crate::smt::int_le;
use crate::smt::int_lit;
use crate::smt::int_lt;
use crate::smt::int_sub;
use crate::smt::ite_int;
use crate::smt::nul_free;
use crate::smt::pb_eq;
use crate::smt::pb_ge;
use crate::smt::array_select_int;
use crate::smt::solver_assert;
use crate::smt::solver_check;
use crate::smt::solver_model;
use crate::smt::solver_new;

verus! {

/// The integer encoding of a colour in the solver.
fn colour_code(k: Colour) -> i64 {
    match k {
        Colour::Black => 0,
        Colour::White => 1,
        Colour::Pink => 2,
        Colour::Red => 3,
        Colour::Orange => 4,
        Colour::Yellow => 5,
        Colour::Green => 6,
        Colour::Turquoise => 7,
        Colour::Blue => 8,
        Colour::Purple => 9,
    }
}

/// Whether a node lies on the board's outer boundary.
pub open spec fn on_boundary(width: u32, height: u32, n: IntersectionOrEdge) -> bool {
    match n {
        IntersectionOrEdge::Intersection(pos) => pos.x == 0 || pos.x == width || pos.y == 0
            || pos.y == height,
        IntersectionOrEdge::Edge(e) => match e.dir {
            EdgeDirection::Vertical => e.pos.x == 0 || e.pos.x == width,
            EdgeDirection::Horizontal => e.pos.y == 0 || e.pos.y == height,
        },
    }
}

/// Decides `on_boundary`.
fn is_external(width: u32, height: u32, n: &IntersectionOrEdge) -> (r: bool)
    ensures
        r == on_boundary(width, height, *n),
{
    match n {
        IntersectionOrEdge::Intersection(pos) => pos.x == 0 || pos.x == width || pos.y == 0
            || pos.y == height,
        IntersectionOrEdge::Edge(e) => match e.dir {
            EdgeDirection::Vertical => e.pos.x == 0 || e.pos.x == width,
            EdgeDirection::Horizontal => e.pos.y == 0 || e.pos.y == height,
        },
    }
}

/// Whether position `p` comes strictly before the position (x, y) in
/// column-major order: the order in which the enumeration loops below
/// walk the board.
spec fn pos_before(p: Pos, x: int, y: int) -> bool {
    p.x < x || (p.x == x && p.y < y)
}

/// Every node of the board: all intersections, then all edges, each block
/// in column-major order: each in-bounds node appears exactly once, so
/// constraint emission visits every node and the walk that reads the
/// model back can find every used source.
fn intersections_and_edges(width: u32, height: u32) -> (ns: Vec<IntersectionOrEdge>)
    requires
        width <= 0x7FFF,
        height <= 0x7FFF,
    ensures
        forall|i: int| 0 <= i < ns@.len() ==> node_in_bounds(width, height, #[trigger] ns@[i]),
        forall|n: IntersectionOrEdge| #[trigger]
            ns@.contains(n) <==> node_in_bounds(width, height, n),
        forall|i: int, j: int| 0 <= i < j < ns@.len() ==> ns@[i] != ns@[j],
{
    let mut ns: Vec<IntersectionOrEdge> = Vec::new();
    let mut x: u32 = 0;
    while x <= width
        invariant
            width <= 0x7FFF,
            height <= 0x7FFF,
            x <= width + 1,
            forall|i: int|
                0 <= i < ns@.len() ==> node_in_bounds(width, height, #[trigger] ns@[i])
                    && ns@[i] is Intersection
                    && pos_before(ns@[i]->Intersection_0, x as int, 0),
            forall|p: Pos|
                #[trigger] node_in_bounds(width, height, IntersectionOrEdge::Intersection(p))
                    && pos_before(p, x as int, 0) ==> ns@.contains(
                    IntersectionOrEdge::Intersection(p),
                ),
            forall|i: int, j: int| 0 <= i < j < ns@.len() ==> ns@[i] != ns@[j],
        decreases width + 1 - x,
    {
        let mut y: u32 = 0;
        while y <= height
            invariant
                width <= 0x7FFF,
                height <= 0x7FFF,
                x <= width,
                y <= height + 1,
                forall|i: int|
                    0 <= i < ns@.len() ==> node_in_bounds(width, height, #[trigger] ns@[i])
                        && ns@[i] is Intersection
                        && pos_before(ns@[i]->Intersection_0, x as int, y as int),
                forall|p: Pos|
                    #[trigger] node_in_bounds(width, height, IntersectionOrEdge::Intersection(p))
                        && pos_before(p, x as int, y as int) ==> ns@.contains(
                        IntersectionOrEdge::Intersection(p),
                    ),
                forall|i: int, j: int| 0 <= i < j < ns@.len() ==> ns@[i] != ns@[j],
            decreases height + 1 - y,
        {
            let ghost old_ns = ns@;
            ns.push(IntersectionOrEdge::Intersection(Pos { x, y }));
            proof {
                assert forall|p: Pos|
                    node_in_bounds(width, height, IntersectionOrEdge::Intersection(p))
                        && pos_before(p, x as int, y + 1) implies ns@.contains(
                    IntersectionOrEdge::Intersection(p),
                ) by {
                    if pos_before(p, x as int, y as int) {
                        assert(old_ns.contains(IntersectionOrEdge::Intersection(p)));
                        let k = choose|k: int|
                            0 <= k < old_ns.len() && old_ns[k]
                                == IntersectionOrEdge::Intersection(p);
                        assert(ns@[k] == IntersectionOrEdge::Intersection(p));
                    } else {
                        assert(ns@[ns@.len() - 1] == IntersectionOrEdge::Intersection(p));
                    }
                }
            }
            y = y + 1;
        }
        x = x + 1;
    }
    let mut x: u32 = 0;
    while x <= width
        invariant
            width <= 0x7FFF,
            height <= 0x7FFF,
            x <= width + 1,
            forall|i: int|
                0 <= i < ns@.len() ==> node_in_bounds(width, height, #[trigger] ns@[i]) && (ns@[i]
                    is Intersection || (ns@[i] is Edge && pos_before(
                    ns@[i]->Edge_0.pos,
                    x as int,
                    0,
                ))),
            forall|p: Pos|
                #[trigger] node_in_bounds(width, height, IntersectionOrEdge::Intersection(p))
                    ==> ns@.contains(IntersectionOrEdge::Intersection(p)),
            forall|e: Edge|
                #[trigger] node_in_bounds(width, height, IntersectionOrEdge::Edge(e)) && pos_before(
                    e.pos,
                    x as int,
                    0,
                ) ==> ns@.contains(IntersectionOrEdge::Edge(e)),
            forall|i: int, j: int| 0 <= i < j < ns@.len() ==> ns@[i] != ns@[j],
        decreases width + 1 - x,
    {
        let mut y: u32 = 0;
        while y <= height
            invariant
                width <= 0x7FFF,
                height <= 0x7FFF,
                x <= width,
                y <= height + 1,
                forall|i: int|
                    0 <= i < ns@.len() ==> node_in_bounds(width, height, #[trigger] ns@[i]) && (
                    ns@[i] is Intersection || (ns@[i] is Edge && pos_before(
                        ns@[i]->Edge_0.pos,
                        x as int,
                        y as int,
                    ))),
                forall|p: Pos|
                    #[trigger] node_in_bounds(width, height, IntersectionOrEdge::Intersection(p))
                        ==> ns@.contains(IntersectionOrEdge::Intersection(p)),
                forall|e: Edge|
                    #[trigger] node_in_bounds(width, height, IntersectionOrEdge::Edge(e))
                        && pos_before(e.pos, x as int, y as int) ==> ns@.contains(
                        IntersectionOrEdge::Edge(e),
                    ),
                forall|i: int, j: int| 0 <= i < j < ns@.len() ==> ns@[i] != ns@[j],
            decreases height + 1 - y,
        {
            let ghost old_ns = ns@;
            let ghost hidx = ns@.len() as int;
            if x < width {
                ns.push(
                    IntersectionOrEdge::Edge(
                        Edge { pos: Pos { x, y }, dir: EdgeDirection::Horizontal },
                    ),
                );
            }
            let ghost vidx = ns@.len() as int;
            if y < height {
                ns.push(
                    IntersectionOrEdge::Edge(
                        Edge { pos: Pos { x, y }, dir: EdgeDirection::Vertical },
                    ),
                );
            }
            proof {
                assert forall|p: Pos|
                    node_in_bounds(width, height, IntersectionOrEdge::Intersection(p)) implies ns@
                    .contains(IntersectionOrEdge::Intersection(p)) by {
                    assert(old_ns.contains(IntersectionOrEdge::Intersection(p)));
                    let k = choose|k: int|
                        0 <= k < old_ns.len() && old_ns[k] == IntersectionOrEdge::Intersection(p);
                    assert(ns@[k] == IntersectionOrEdge::Intersection(p));
                }
                assert forall|e: Edge|
                    node_in_bounds(width, height, IntersectionOrEdge::Edge(e)) && pos_before(
                        e.pos,
                        x as int,
                        y + 1,
                    ) implies ns@.contains(IntersectionOrEdge::Edge(e)) by {
                    if pos_before(e.pos, x as int, y as int) {
                        assert(old_ns.contains(IntersectionOrEdge::Edge(e)));
                        let k = choose|k: int|
                            0 <= k < old_ns.len() && old_ns[k] == IntersectionOrEdge::Edge(e);
                        assert(ns@[k] == IntersectionOrEdge::Edge(e));
                    } else if e.dir == EdgeDirection::Horizontal {
                        assert(ns@[hidx] == IntersectionOrEdge::Edge(e));
                    } else {
                        assert(ns@[vidx] == IntersectionOrEdge::Edge(e));
                    }
                }
            }
            y = y + 1;
        }
        x = x + 1;
    }
    proof {
        assert forall|n: IntersectionOrEdge|
            node_in_bounds(width, height, n) implies #[trigger] ns@.contains(n) by {
            match n {
                IntersectionOrEdge::Intersection(p) => {
                    assert(node_in_bounds(width, height, IntersectionOrEdge::Intersection(p)));
                    assert(ns@.contains(IntersectionOrEdge::Intersection(p)));
                },
                IntersectionOrEdge::Edge(e) => {
                    assert(node_in_bounds(width, height, IntersectionOrEdge::Edge(e)));
                    assert(pos_before(e.pos, width + 1, 0));
                    assert(ns@.contains(IntersectionOrEdge::Edge(e)));
                },
            }
        }
        assert forall|n: IntersectionOrEdge| #[trigger]
            ns@.contains(n) implies node_in_bounds(width, height, n) by {
            let k = choose|k: int| 0 <= k < ns@.len() && ns@[k] == n;
            assert(node_in_bounds(width, height, ns@[k]));
        }
    }
    ns
}

/// Every edge of the board, in column-major order, horizontal before
/// vertical at each position: each in-bounds edge appears exactly once.
fn edges_list(width: u32, height: u32) -> (es: Vec<Edge>)
    requires
        width <= 0x7FFF,
        height <= 0x7FFF,
    ensures
        forall|i: int|
            0 <= i < es@.len() ==> node_in_bounds(
                width,
                height,
                IntersectionOrEdge::Edge(#[trigger] es@[i]),
            ),
        forall|e: Edge| #[trigger]
            es@.contains(e) <==> node_in_bounds(width, height, IntersectionOrEdge::Edge(e)),
        forall|i: int, j: int| 0 <= i < j < es@.len() ==> es@[i] != es@[j],
{
    let mut es: Vec<Edge> = Vec::new();
    let mut x: u32 = 0;
    while x <= width
        invariant
            width <= 0x7FFF,
            height <= 0x7FFF,
            x <= width + 1,
            forall|i: int|
                0 <= i < es@.len() ==> node_in_bounds(
                    width,
                    height,
                    IntersectionOrEdge::Edge(#[trigger] es@[i]),
                ) && pos_before(es@[i].pos, x as int, 0),
            forall|e: Edge|
                #[trigger] node_in_bounds(width, height, IntersectionOrEdge::Edge(e)) && pos_before(
                    e.pos,
                    x as int,
                    0,
                ) ==> es@.contains(e),
            forall|i: int, j: int| 0 <= i < j < es@.len() ==> es@[i] != es@[j],
        decreases width + 1 - x,
    {
        let mut y: u32 = 0;
        while y <= height
            invariant
                width <= 0x7FFF,
                height <= 0x7FFF,
                x <= width,
                y <= height + 1,
                forall|i: int|
                    0 <= i < es@.len() ==> node_in_bounds(
                        width,
                        height,
                        IntersectionOrEdge::Edge(#[trigger] es@[i]),
                    ) && pos_before(es@[i].pos, x as int, y as int),
                forall|e: Edge|
                    #[trigger] node_in_bounds(width, height, IntersectionOrEdge::Edge(e))
                        && pos_before(e.pos, x as int, y as int) ==> es@.contains(e),
                forall|i: int, j: int| 0 <= i < j < es@.len() ==> es@[i] != es@[j],
            decreases height + 1 - y,
        {
            let ghost old_es = es@;
            let ghost hidx = es@.len() as int;
            if x < width {
                es.push(Edge { pos: Pos { x, y }, dir: EdgeDirection::Horizontal });
            }
            let ghost vidx = es@.len() as int;
            if y < height {
                es.push(Edge { pos: Pos { x, y }, dir: EdgeDirection::Vertical });
            }
            proof {
                assert forall|e: Edge|
                    node_in_bounds(width, height, IntersectionOrEdge::Edge(e)) && pos_before(
                        e.pos,
                        x as int,
                        y + 1,
                    ) implies es@.contains(e) by {
                    if pos_before(e.pos, x as int, y as int) {
                        let k = choose|k: int| 0 <= k < old_es.len() && old_es[k] == e;
                        assert(es@[k] == e);
                    } else if e.dir == EdgeDirection::Horizontal {
                        assert(es@[hidx] == e);
                    } else {
                        assert(es@[vidx] == e);
                    }
                }
            }
            y = y + 1;
        }
        x = x + 1;
    }
    proof {
        assert forall|e: Edge| #[trigger]
            es@.contains(e) implies node_in_bounds(width, height, IntersectionOrEdge::Edge(e)) by {
            let k = choose|k: int| 0 <= k < es@.len() && es@[k] == e;
            assert(node_in_bounds(width, height, IntersectionOrEdge::Edge(es@[k])));
        }
    }
    es
}

/// Every cell position, in column-major order: each in-bounds cell appears
/// exactly once, and no cell exists on a degenerate board.
fn cell_positions(width: u32, height: u32) -> (cs: Vec<Pos>)
    requires
        width <= 0x7FFF,
        height <= 0x7FFF,
    ensures
        forall|i: int| 0 <= i < cs@.len() ==> cell_in_bounds(width, height, #[trigger] cs@[i]),
        forall|c: Pos| #[trigger] cs@.contains(c) <==> cell_in_bounds(width, height, c),
        forall|i: int, j: int| 0 <= i < j < cs@.len() ==> cs@[i] != cs@[j],
        width == 0 || height == 0 ==> cs@.len() == 0,
{
    let mut cs: Vec<Pos> = Vec::new();
    let mut x: u32 = 0;
    while x < width
        invariant
            width <= 0x7FFF,
            height <= 0x7FFF,
            x <= width,
            forall|i: int|
                0 <= i < cs@.len() ==> cell_in_bounds(width, height, #[trigger] cs@[i])
                    && pos_before(cs@[i], x as int, 0),
            forall|c: Pos|
                cell_in_bounds(width, height, c) && pos_before(c, x as int, 0) ==> cs@.contains(c),
            forall|i: int, j: int| 0 <= i < j < cs@.len() ==> cs@[i] != cs@[j],
        decreases width - x,
    {
        let mut y: u32 = 0;
        while y < height
            invariant
                width <= 0x7FFF,
                height <= 0x7FFF,
                x < width,
                y <= height,
                forall|i: int|
                    0 <= i < cs@.len() ==> cell_in_bounds(width, height, #[trigger] cs@[i])
                        && pos_before(cs@[i], x as int, y as int),
                forall|c: Pos|
                    cell_in_bounds(width, height, c) && pos_before(c, x as int, y as int)
                        ==> cs@.contains(c),
                forall|i: int, j: int| 0 <= i < j < cs@.len() ==> cs@[i] != cs@[j],
            decreases height - y,
        {
            let ghost old_cs = cs@;
            cs.push(Pos { x, y });
            proof {
                assert forall|c: Pos|
                    cell_in_bounds(width, height, c) && pos_before(c, x as int, y + 1) implies cs@
                    .contains(c) by {
                    if pos_before(c, x as int, y as int) {
                        let k = choose|k: int| 0 <= k < old_cs.len() && old_cs[k] == c;
                        assert(cs@[k] == c);
                    } else {
                        assert(cs@[cs@.len() - 1] == c);
                    }
                }
            }
            y = y + 1;
        }
        x = x + 1;
    }
    proof {
        if cs@.len() > 0 {
            assert(cell_in_bounds(width, height, cs@[0]));
        }
        assert forall|c: Pos| #[trigger]
            cs@.contains(c) implies cell_in_bounds(width, height, c) by {
            let k = choose|k: int| 0 <= k < cs@.len() && cs@[k] == c;
            assert(cell_in_bounds(width, height, cs@[k]));
        }
    }
    cs
}

/// Whether cell `c` is one of the cells divided from its neighbour by
/// edge `e`: a vertical edge stands between the cells on its left and
/// right, a horizontal edge between the cells above and below it.
pub open spec fn edge_borders_cell(e: Edge, c: Pos) -> bool {
    match e.dir {
        EdgeDirection::Vertical => c.y == e.pos.y && (c.x == e.pos.x || c.x + 1 == e.pos.x),
        EdgeDirection::Horizontal => c.x == e.pos.x && (c.y == e.pos.y || c.y + 1 == e.pos.y),
    }
}

/// The cells bordering an edge: one for a boundary edge, two for an
/// interior edge.
fn adjacent_cells(width: u32, height: u32, e: &Edge) -> (cs: Vec<Pos>)
    requires
        node_in_bounds(width, height, IntersectionOrEdge::Edge(*e)),
    ensures
        forall|c: Pos| #[trigger]
            cs@.contains(c) <==> cell_in_bounds(width, height, c) && edge_borders_cell(*e, c),
        forall|i: int, j: int| 0 <= i < j < cs@.len() ==> cs@[i] != cs@[j],
{
    let mut cs: Vec<Pos> = Vec::new();
    match e.dir {
        EdgeDirection::Vertical => {
            if e.pos.x > 0 {
                cs.push(Pos { x: e.pos.x - 1, y: e.pos.y });
            }
            if e.pos.x < width {
                cs.push(Pos { x: e.pos.x, y: e.pos.y });
            }
        },
        EdgeDirection::Horizontal => {
            if e.pos.y > 0 {
                cs.push(Pos { x: e.pos.x, y: e.pos.y - 1 });
            }
            if e.pos.y < height {
                cs.push(Pos { x: e.pos.x, y: e.pos.y });
            }
        },
    }
    proof {
        assert forall|c: Pos|
            cell_in_bounds(width, height, c) && edge_borders_cell(*e, c) implies #[trigger] cs@
            .contains(c) by {
            match e.dir {
                EdgeDirection::Vertical => {
                    if c.x + 1 == e.pos.x {
                        assert(cs@[0] == c);
                    } else {
                        assert(cs@[cs@.len() - 1] == c);
                    }
                },
                EdgeDirection::Horizontal => {
                    if c.y + 1 == e.pos.y {
                        assert(cs@[0] == c);
                    } else {
                        assert(cs@[cs@.len() - 1] == c);
                    }
                },
            }
        }
    }
    cs
}

/// The border-crossing vertical edges of the columns strictly below
/// column `x`: at each column 0 < c < x, first the edge touching the top
/// side, then the edge touching the bottom side.
pub open spec fn border_vertical_upto(x: int, height: u32) -> Seq<Edge>
    decreases x,
{
    if x <= 1 {
        Seq::empty()
    } else {
        border_vertical_upto(x - 1, height) + seq![
            Edge { dir: EdgeDirection::Vertical, pos: Pos { x: (x - 1) as u32, y: 0 } },
            Edge {
                dir: EdgeDirection::Vertical,
                pos: Pos { x: (x - 1) as u32, y: (height - 1) as u32 },
            },
        ]
    }
}

/// The border-crossing horizontal edges of the rows strictly below row
/// `y`: at each row 0 < r < y, first the edge touching the left side,
/// then the edge touching the right side.
pub open spec fn border_horizontal_upto(y: int, width: u32) -> Seq<Edge>
    decreases y,
{
    if y <= 1 {
        Seq::empty()
    } else {
        border_horizontal_upto(y - 1, width) + seq![
            Edge { dir: EdgeDirection::Horizontal, pos: Pos { x: 0, y: (y - 1) as u32 } },
            Edge {
                dir: EdgeDirection::Horizontal,
                pos: Pos { x: (width - 1) as u32, y: (y - 1) as u32 },
            },
        ]
    }
}

/// The border-crossing edges of the whole board: vertical edges touching
/// the top and bottom sides, then horizontal edges touching the left and
/// right sides, corners excluded.
pub open spec fn border_edges(width: u32, height: u32) -> Seq<Edge> {
    border_vertical_upto(width as int, height) + border_horizontal_upto(height as int, width)
}

/// The border-crossing edges, exactly as `border_edges` lists them. On a
/// single-row or single-column board each such edge touches both sides
/// and is listed twice, counting both crossings.
fn edges_from_border(width: u32, height: u32) -> (es: Vec<Edge>)
    requires
        0 < width <= 0x7FFF,
        0 < height <= 0x7FFF,
    ensures
        es@ == border_edges(width, height),
        forall|i: int|
            0 <= i < es@.len() ==> node_in_bounds(
                width,
                height,
                IntersectionOrEdge::Edge(#[trigger] es@[i]),
            ),
{
    let mut es: Vec<Edge> = Vec::new();
    proof {
        assert(es@ =~= border_vertical_upto(1, height));
    }
    let mut x: u32 = 1;
    while x < width
        invariant
            0 < width <= 0x7FFF,
            0 < height <= 0x7FFF,
            1 <= x <= width,
            es@ == border_vertical_upto(x as int, height),
            forall|i: int|
                0 <= i < es@.len() ==> node_in_bounds(
                    width,
                    height,
                    IntersectionOrEdge::Edge(#[trigger] es@[i]),
                ),
        decreases width - x,
    {
        es.push(Edge { dir: EdgeDirection::Vertical, pos: Pos { x, y: 0 } });
        es.push(Edge { dir: EdgeDirection::Vertical, pos: Pos { x, y: height - 1 } });
        proof {
            assert(es@ =~= border_vertical_upto(x + 1, height));
        }
        x = x + 1;
    }
    proof {
        assert(es@ =~= border_vertical_upto(width as int, height) + border_horizontal_upto(
            1,
            width,
        ));
    }
    let mut y: u32 = 1;
    while y < height
        invariant
            0 < width <= 0x7FFF,
            0 < height <= 0x7FFF,
            1 <= y <= height,
            es@ == border_vertical_upto(width as int, height) + border_horizontal_upto(
                y as int,
                width,
            ),
            forall|i: int|
                0 <= i < es@.len() ==> node_in_bounds(
                    width,
                    height,
                    IntersectionOrEdge::Edge(#[trigger] es@[i]),
                ),
        decreases height - y,
    {
        es.push(Edge { dir: EdgeDirection::Horizontal, pos: Pos { x: 0, y } });
        es.push(Edge { dir: EdgeDirection::Horizontal, pos: Pos { x: width - 1, y } });
        proof {
            assert(es@ =~= border_vertical_upto(width as int, height) + border_horizontal_upto(
                y + 1,
                width,
            ));
        }
        y = y + 1;
    }
    es
}

/// Asserts the topology rules for one node: role flags, the
/// degree-template disjunction over its adjacent nodes, and the
/// consecutive line-index rule that rules out detached loops.
fn constrain_node(m: &PuzzleModel, solver: &z3::Solver, n: &IntersectionOrEdge)
    requires
        m.wf(),
        node_in_bounds(m.width, m.height, *n),
{
    let node = m.node(n);
    if node.broken {
        solver_assert(solver, &bool_not(&node.has_line));
    }
    if !node.source {
        solver_assert(solver, &bool_not(&node.source_used));
    }
    if !node.exit {
        solver_assert(solver, &bool_not(&node.exit_used));
    }
    if node.dot {
        solver_assert(solver, &node.has_line);
    }
    let adjacent = adjacent_nodes(m.width, m.height, n);
    let mut terms: Vec<(z3::ast::Bool, i32)> = Vec::new();
    let mut i: usize = 0;
    while i < adjacent.len()
        invariant
            m.wf(),
            forall|t: IntersectionOrEdge| #[trigger]
                adjacent@.contains(t) ==> node_in_bounds(m.width, m.height, t),
            0 <= i <= adjacent@.len(),
        decreases adjacent@.len() - i,
    {
        proof {
            assert(adjacent@.contains(adjacent@[i as int]));
        }
        let a = m.node(&adjacent[i]);
        terms.push((bool_clone(&a.has_line), 1));
        i = i + 1;
    }
    let zero_adjacent_lines = pb_eq(&terms, 0);
    let one_adjacent_line = pb_eq(&terms, 1);
    let two_adjacent_lines = pb_eq(&terms, 2);

    let one = int_lit(1);
    let mut consecutive: Option<z3::ast::Bool> = None;
    let mut i: usize = 0;
    while i < adjacent.len()
        invariant
            m.wf(),
            node_in_bounds(m.width, m.height, *n),
            forall|t: IntersectionOrEdge| #[trigger]
                adjacent@.contains(t) ==> node_in_bounds(m.width, m.height, t),
            0 <= i <= adjacent@.len(),
        decreases adjacent@.len() - i,
    {
        let mut j: usize = i + 1;
        while j < adjacent.len()
            invariant
                m.wf(),
                node_in_bounds(m.width, m.height, *n),
                forall|t: IntersectionOrEdge| #[trigger]
                    adjacent@.contains(t) ==> node_in_bounds(m.width, m.height, t),
                0 <= i < j <= adjacent@.len(),
            decreases adjacent@.len() - j,
        {
            proof {
                assert(adjacent@.contains(adjacent@[i as int]));
                assert(adjacent@.contains(adjacent@[j as int]));
            }
            let node = m.node(n);
            let a = m.node(&adjacent[i]);
            let b = m.node(&adjacent[j]);
            let pair_has_line = bool_and(&a.has_line, &b.has_line);
            let increasing = bool_and(
                &int_eq(&node.line_index, &int_sub(&a.line_index, &one)),
                &int_eq(&node.line_index, &int_add(&b.line_index, &one)),
            );
            let decreasing = bool_and(
                &int_eq(&node.line_index, &int_add(&a.line_index, &one)),
                &int_eq(&node.line_index, &int_sub(&b.line_index, &one)),
            );
            let cond = bool_implies(&pair_has_line, &bool_or(&increasing, &decreasing));
            consecutive = match consecutive {
                None => Some(cond),
                Some(acc) => Some(bool_and(&acc, &cond)),
            };
            j = j + 1;
        }
        i = i + 1;
    }
    let consecutive_numbers = match consecutive {
        Some(c) => c,
        None => bool_lit(false),
    };

    let node = m.node(n);
    let is_source_or_exit = bool_or(&node.exit_used, &node.source_used);
    let is_source_and_exit = bool_and(&node.exit_used, &node.source_used);
    let valid_not_in_line = bool_and(&bool_not(&node.has_line), &bool_not(&is_source_or_exit));
    let valid_middle_of_line = bool_and(
        &bool_and(&bool_and(&node.has_line, &bool_not(&is_source_or_exit)), &two_adjacent_lines),
        &consecutive_numbers,
    );
    let valid_end_of_line = bool_and(
        &bool_and(&node.has_line, &is_source_or_exit),
        &one_adjacent_line,
    );
    let valid_entire_line = bool_and(
        &bool_and(&node.has_line, &is_source_and_exit),
        &zero_adjacent_lines,
    );
    solver_assert(
        solver,
        &bool_or(
            &bool_or(&bool_or(&valid_not_in_line, &valid_middle_of_line), &valid_end_of_line),
            &valid_entire_line,
        ),
    );
}

/// Asserts that exactly one flagged source and exactly one flagged exit
/// are used.
fn constrain_sources_and_exits(
    m: &PuzzleModel,
    solver: &z3::Solver,
    sources: &Vec<IntersectionOrEdge>,
    exits: &Vec<IntersectionOrEdge>,
)
    requires
        m.wf(),
        forall|i: int|
            0 <= i < sources@.len() ==> node_in_bounds(m.width, m.height, #[trigger] sources@[i]),
        forall|i: int|
            0 <= i < exits@.len() ==> node_in_bounds(m.width, m.height, #[trigger] exits@[i]),
{
    let mut terms: Vec<(z3::ast::Bool, i32)> = Vec::new();
    let mut i: usize = 0;
    while i < sources.len()
        invariant
            m.wf(),
            forall|t: int|
                0 <= t < sources@.len() ==> node_in_bounds(
                    m.width,
                    m.height,
                    #[trigger] sources@[t],
                ),
            0 <= i <= sources@.len(),
        decreases sources@.len() - i,
    {
        let nd = m.node(&sources[i]);
        terms.push((bool_clone(&nd.source_used), 1));
        i = i + 1;
    }
    solver_assert(solver, &pb_eq(&terms, 1));
    let mut terms: Vec<(z3::ast::Bool, i32)> = Vec::new();
    let mut i: usize = 0;
    while i < exits.len()
        invariant
            m.wf(),
            forall|t: int|
                0 <= t < exits@.len() ==> node_in_bounds(m.width, m.height, #[trigger] exits@[t]),
            0 <= i <= exits@.len(),
        decreases exits@.len() - i,
    {
        let nd = m.node(&exits[i]);
        terms.push((bool_clone(&nd.exit_used), 1));
        i = i + 1;
    }
    solver_assert(solver, &pb_eq(&terms, 1));
}

/// Asserts the region rules: region variables range over the region
/// labels, cells divided by no line share a region, every label is used,
/// and (on non-degenerate boards) the number of regions equals the count
/// given by the line's border crossings and internal ends.
fn constrain_regions(
    m: &PuzzleModel,
    solver: &z3::Solver,
    sources: &Vec<IntersectionOrEdge>,
    exits: &Vec<IntersectionOrEdge>,
)
    requires
        m.wf(),
        forall|i: int|
            0 <= i < sources@.len() ==> node_in_bounds(m.width, m.height, #[trigger] sources@[i]),
        forall|i: int|
            0 <= i < exits@.len() ==> node_in_bounds(m.width, m.height, #[trigger] exits@[i]),
{
    let zero = int_lit(0);
    let one = int_lit(1);

    let positions = cell_positions(m.width, m.height);
    let mut i: usize = 0;
    while i < positions.len()
        invariant
            m.wf(),
            forall|t: int|
                0 <= t < positions@.len() ==> cell_in_bounds(
                    m.width,
                    m.height,
                    #[trigger] positions@[t],
                ),
            0 <= i <= positions@.len(),
        decreases positions@.len() - i,
    {
        let cl = m.cell(&positions[i]);
        solver_assert(solver, &int_ge(&cl.region, &zero));
        solver_assert(solver, &int_lt(&cl.region, &m.num_regions));
        i = i + 1;
    }

    let edges = edges_list(m.width, m.height);
    let mut i: usize = 0;
    while i < edges.len()
        invariant
            m.wf(),
            forall|t: int|
                0 <= t < edges@.len() ==> node_in_bounds(
                    m.width,
                    m.height,
                    IntersectionOrEdge::Edge(#[trigger] edges@[t]),
                ),
            0 <= i <= edges@.len(),
        decreases edges@.len() - i,
    {
        let e = edges[i];
        let adj = adjacent_cells(m.width, m.height, &e);
        if adj.len() == 2 {
            proof {
                assert(adj@.contains(adj@[0]));
                assert(adj@.contains(adj@[1]));
                assert(cell_in_bounds(m.width, m.height, adj@[0]));
                assert(cell_in_bounds(m.width, m.height, adj@[1]));
            }
            let region_a = int_clone(&m.cell(&adj[0]).region);
            let region_b = int_clone(&m.cell(&adj[1]).region);
            let nd = m.node(&IntersectionOrEdge::Edge(e));
            solver_assert(
                solver,
                &bool_implies(&bool_not(&nd.has_line), &int_eq(&region_a, &region_b)),
            );
        }
        i = i + 1;
    }

    proof {
        reveal_strlit("region");
        assert(nul_free("region"@));
    }
    let region = fresh_int("region");
    let valid_region = bool_and(&int_ge(&region, &zero), &int_lt(&region, &m.num_regions));
    let mut terms: Vec<(z3::ast::Bool, i32)> = Vec::new();
    let mut i: usize = 0;
    while i < positions.len()
        invariant
            m.wf(),
            forall|t: int|
                0 <= t < positions@.len() ==> cell_in_bounds(
                    m.width,
                    m.height,
                    #[trigger] positions@[t],
                ),
            0 <= i <= positions@.len(),
        decreases positions@.len() - i,
    {
        let cl = m.cell(&positions[i]);
        terms.push((int_eq(&cl.region, &region), 1));
        i = i + 1;
    }
    solver_assert(solver, &forall_int(&region, &bool_implies(&valid_region, &pb_ge(&terms, 1))));

    if m.width > 0 && m.height > 0 {
        let mut internal_terminations: Option<z3::ast::Int> = None;
        let mut i: usize = 0;
        while i < sources.len()
            invariant
                m.wf(),
                forall|t: int|
                    0 <= t < sources@.len() ==> node_in_bounds(
                        m.width,
                        m.height,
                        #[trigger] sources@[t],
                    ),
                0 <= i <= sources@.len(),
            decreases sources@.len() - i,
        {
            let n = sources[i];
            if !is_external(m.width, m.height, &n) {
                let nd = m.node(&n);
                let term = ite_int(&bool_xor(&nd.source_used, &nd.exit_used), &one, &zero);
                internal_terminations = match internal_terminations {
                    None => Some(term),
                    Some(acc) => Some(int_add(&acc, &term)),
                };
            }
            i = i + 1;
        }
        let mut i: usize = 0;
        while i < exits.len()
            invariant
                m.wf(),
                forall|t: int|
                    0 <= t < exits@.len() ==> node_in_bounds(
                        m.width,
                        m.height,
                        #[trigger] exits@[t],
                    ),
                0 <= i <= exits@.len(),
            decreases exits@.len() - i,
        {
            let n = exits[i];
            if !is_external(m.width, m.height, &n) {
                let nd = m.node(&n);
                let term = ite_int(&bool_xor(&nd.source_used, &nd.exit_used), &one, &zero);
                internal_terminations = match internal_terminations {
                    None => Some(term),
                    Some(acc) => Some(int_add(&acc, &term)),
                };
            }
            i = i + 1;
        }
        let internal_terminations = match internal_terminations {
            Some(t) => t,
            None => int_lit(0),
        };

        let border = edges_from_border(m.width, m.height);
        let mut edge_lines_from_border: Option<z3::ast::Int> = None;
        let mut i: usize = 0;
        while i < border.len()
            invariant
                m.wf(),
                forall|t: int|
                    0 <= t < border@.len() ==> node_in_bounds(
                        m.width,
                        m.height,
                        IntersectionOrEdge::Edge(#[trigger] border@[t]),
                    ),
                0 <= i <= border@.len(),
            decreases border@.len() - i,
        {
            let nd = m.node(&IntersectionOrEdge::Edge(border[i]));
            let term = ite_int(&nd.has_line, &one, &zero);
            edge_lines_from_border = match edge_lines_from_border {
                None => Some(term),
                Some(acc) => Some(int_add(&acc, &term)),
            };
            i = i + 1;
        }
        let edge_lines_from_border = match edge_lines_from_border {
            Some(t) => t,
            None => int_lit(0),
        };

        let num_regions = int_add(
            &int_div(&int_sub(&edge_lines_from_border, &internal_terminations), &int_lit(2)),
            &one,
        );
        let clamped = ite_int(&int_le(&num_regions, &zero), &one, &num_regions);
        solver_assert(solver, &int_eq(&m.num_regions, &clamped));
    }
}

/// Asserts the symbol rules: every square pins the colour of its region
/// through the region-colour array, and for every colour carried by a
/// sun, each region holding a sun or square of that colour holds exactly
/// two such elements.
fn constrain_symbols(m: &PuzzleModel, solver: &z3::Solver)
    requires
        m.wf(),
{
    let positions = cell_positions(m.width, m.height);
    let mut i: usize = 0;
    while i < positions.len()
        invariant
            m.wf(),
            forall|t: int|
                0 <= t < positions@.len() ==> cell_in_bounds(
                    m.width,
                    m.height,
                    #[trigger] positions@[t],
                ),
            0 <= i <= positions@.len(),
        decreases positions@.len() - i,
    {
        let cl = m.cell(&positions[i]);
        if let Some(Symbol::Square(colour)) = cl.symbol {
            match array_select_int(&m.region_square_colours, &cl.region) {
                Some(region_square_colour) => {
                    solver_assert(
                        solver,
                        &int_eq(&region_square_colour, &int_lit(colour_code(colour))),
                    );
                },
                None => {},
            }
        }
        i = i + 1;
    }

    let mut si: usize = 0;
    while si < positions.len()
        invariant
            m.wf(),
            forall|t: int|
                0 <= t < positions@.len() ==> cell_in_bounds(
                    m.width,
                    m.height,
                    #[trigger] positions@[t],
                ),
            0 <= si <= positions@.len(),
        decreases positions@.len() - si,
    {
        let sun_colour = match m.cell(&positions[si]).symbol {
            Some(Symbol::Sun(k)) => Some(k),
            _ => None,
        };
        if let Some(k) = sun_colour {
            let mut ai: usize = 0;
            while ai < positions.len()
                invariant
                    m.wf(),
                    forall|t: int|
                        0 <= t < positions@.len() ==> cell_in_bounds(
                            m.width,
                            m.height,
                            #[trigger] positions@[t],
                        ),
                    0 <= ai <= positions@.len(),
                decreases positions@.len() - ai,
            {
                if cell_has_colour(m, &positions[ai], k) {
                    let anchor_region = int_clone(&m.cell(&positions[ai]).region);
                    let mut terms: Vec<(z3::ast::Bool, i32)> = Vec::new();
                    let mut ci: usize = 0;
                    while ci < positions.len()
                        invariant
                            m.wf(),
                            forall|t: int|
                                0 <= t < positions@.len() ==> cell_in_bounds(
                                    m.width,
                                    m.height,
                                    #[trigger] positions@[t],
                                ),
                            0 <= ci <= positions@.len(),
                        decreases positions@.len() - ci,
                    {
                        if cell_has_colour(m, &positions[ci], k) {
                            terms.push((int_eq(&m.cell(&positions[ci]).region, &anchor_region), 1));
                        }
                        ci = ci + 1;
                    }
                    solver_assert(solver, &pb_eq(&terms, 2));
                }
                ai = ai + 1;
            }
        }
        si = si + 1;
    }
}

/// Whether the cell carries a sun or square of colour `k`.
fn cell_has_colour(m: &PuzzleModel, c: &Pos, k: Colour) -> bool
    requires
        m.wf(),
        cell_in_bounds(m.width, m.height, *c),
{
    match m.cell(c).symbol {
        Some(Symbol::Sun(k2)) => k2 == k,
        Some(Symbol::Square(k2)) => k2 == k,
        None => false,
    }
}

/// Asserts every rule of the puzzle into the solver.
fn constrain(m: &PuzzleModel, solver: &z3::Solver)
    requires
        m.wf(),
{
    let all = intersections_and_edges(m.width, m.height);
    let mut sources: Vec<IntersectionOrEdge> = Vec::new();
    let mut exits: Vec<IntersectionOrEdge> = Vec::new();
    let mut i: usize = 0;
    while i < all.len()
        invariant
            m.wf(),
            forall|t: int|
                0 <= t < all@.len() ==> node_in_bounds(m.width, m.height, #[trigger] all@[t]),
            forall|t: int|
                0 <= t < sources@.len() ==> node_in_bounds(
                    m.width,
                    m.height,
                    #[trigger] sources@[t],
                ),
            forall|t: int|
                0 <= t < exits@.len() ==> node_in_bounds(m.width, m.height, #[trigger] exits@[t]),
            0 <= i <= all@.len(),
        decreases all@.len() - i,
    {
        let n = all[i];
        let nd = m.node(&n);
        let is_source = nd.source;
        let is_exit = nd.exit;
        if is_source {
            sources.push(n);
        }
        if is_exit {
            exits.push(n);
        }
        constrain_node(m, solver, &n);
        i = i + 1;
    }
    constrain_sources_and_exits(m, solver, &sources, &exits);
    constrain_regions(m, solver, &sources, &exits);
    constrain_symbols(m, solver);
}

/// Reads the drawn line out of the model: start at the used source and
/// greedily step to an unvisited adjacent node on the line until the used
/// exit is reached. Whatever the model answers, a returned walk is
/// non-empty, in bounds, free of repeats, and steps only between adjacent
/// nodes (so it strictly alternates intersections and edges). A model
/// that admits no such walk yields nothing rather than aborting, since
/// this library's verified functions do not panic; the puzzle's rules are
/// then checked by the caller.
fn extract_line(m: &PuzzleModel, model: &z3::Model) -> (r: Option<Vec<IntersectionOrEdge>>)
    requires
        m.wf(),
    ensures
        match r {
            Some(line) => {
                &&& line@.len() >= 1
                &&& forall|i: int|
                    0 <= i < line@.len() ==> node_in_bounds(m.width, m.height, #[trigger] line@[i])
                &&& forall|i: int, j: int| 0 <= i < j < line@.len() ==> line@[i] != line@[j]
                &&& forall|i: int|
                    0 <= i < line@.len() - 1 ==> nodes_adjacent(#[trigger] line@[i], line@[i + 1])
            },
            None => true,
        },
{
    let all = intersections_and_edges(m.width, m.height);
    let mut start: Option<IntersectionOrEdge> = None;
    let mut i: usize = 0;
    while i < all.len()
        invariant
            m.wf(),
            forall|t: int|
                0 <= t < all@.len() ==> node_in_bounds(m.width, m.height, #[trigger] all@[t]),
            0 <= i <= all@.len(),
            start is Some ==> node_in_bounds(m.width, m.height, start->0),
        decreases all@.len() - i,
    {
        match eval_bool(model, &m.node(&all[i]).source_used) {
            Some(true) => {
                start = Some(all[i]);
                break ;
            },
            _ => {},
        }
        i = i + 1;
    }
    let mut current = match start {
        Some(s) => s,
        None => {
            return None;
        },
    };
    let mut line: Vec<IntersectionOrEdge> = Vec::new();
    line.push(current);
    let mut fuel: usize = all.len();
    while fuel > 0
        invariant
            m.wf(),
            node_in_bounds(m.width, m.height, current),
            line@.len() >= 1,
            line@[line@.len() - 1] == current,
            forall|i: int|
                0 <= i < line@.len() ==> node_in_bounds(m.width, m.height, #[trigger] line@[i]),
            forall|i: int, j: int| 0 <= i < j < line@.len() ==> line@[i] != line@[j],
            forall|i: int|
                0 <= i < line@.len() - 1 ==> nodes_adjacent(#[trigger] line@[i], line@[i + 1]),
        decreases fuel,
    {
        match eval_bool(model, &m.node(&current).exit_used) {
            Some(true) => {
                return Some(line);
            },
            Some(false) => {},
            None => {
                return None;
            },
        }
        let adjacent = adjacent_nodes(m.width, m.height, &current);
        let mut next: Option<IntersectionOrEdge> = None;
        let mut j: usize = 0;
        while j < adjacent.len()
            invariant
                m.wf(),
                forall|t: IntersectionOrEdge| #[trigger]
                    adjacent@.contains(t) ==> node_in_bounds(m.width, m.height, t)
                        && nodes_adjacent(current, t),
                0 <= j <= adjacent@.len(),
                next is Some ==> node_in_bounds(m.width, m.height, next->0) && nodes_adjacent(
                    current,
                    next->0,
                ) && !line@.contains(next->0),
            decreases adjacent@.len() - j,
        {
            proof {
                assert(adjacent@.contains(adjacent@[j as int]));
            }
            let cand = adjacent[j];
            if !contains_node(&line, &cand) {
                match eval_bool(model, &m.node(&cand).has_line) {
                    Some(true) => {
                        next = Some(cand);
                        break ;
                    },
                    _ => {},
                }
            }
            j = j + 1;
        }
        match next {
            Some(nx) => {
                proof {
                    assert(forall|i: int| 0 <= i < line@.len() ==> line@[i] != nx);
                }
                line.push(nx);
                current = nx;
            },
            None => {
                return None;
            },
        }
        fuel = fuel - 1;
    }
    None
}

/// Solves the puzzle: when a path from a chosen source to a chosen exit
/// satisfying every rule exists and the SMT solver finds one, returns it;
/// otherwise returns nothing. Every returned path is checked against
/// `valid_solution`, so the contract holds whatever the solver answers.
/// A model whose line cannot be walked or that the checker rejects —
/// unreachable with a correct backend — yields nothing rather than a
/// fatal abort: this library's verified functions do not panic.
pub fn solve(puzzle: &Puzzle) -> (r: Option<Vec<IntersectionOrEdge>>)
    requires
        puzzle.wf(),
    ensures
        match r {
            Some(path) => valid_solution(*puzzle, path@),
            None => true,
        },
        puzzle.sources@.len() == 0 ==> r is None,
        puzzle.exits@.len() == 0 ==> r is None,
{
    let m = PuzzleModel::from_puzzle(puzzle);
    let solver = solver_new();
    constrain(&m, &solver);
    match solver_check(&solver) {
        SatOutcome::Sat => {
            match solver_model(&solver) {
                Some(model) => match extract_line(&m, &model) {
                    Some(line) => {
                        if check_solution(puzzle, &line) {
                            Some(line)
                        } else {
                            None
                        }
                    },
                    None => None,
                },
                None => None,
            }
        },
        _ => None,
    }
}

} // verus!
