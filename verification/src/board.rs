//! Board materialization: the puzzle expanded into indexed grids of nodes
//! and cells, each carrying fresh logical variables from the solver
//! context, with role flags seeded from the puzzle's lists.

use vstd::prelude::*;

use crate::checker::Symbol;
use crate::checker::cell_symbol;
use crate::checker::symbol_at;
use crate::geometry::contains_node;
use crate::puzzle::Edge;
use crate::puzzle::EdgeDirection;
use crate::puzzle::IntersectionOrEdge;
use crate::puzzle::Pos;
use crate::puzzle::Puzzle;
use crate::puzzle::cell_in_bounds;
use crate::puzzle::node_in_bounds;
use crate::smt::fresh_array;
use crate::smt::fresh_bool;
use crate::smt::fresh_int;
use crate::smt::int_sort;
use crate::smt::nul_free;

verus! {

/// A node's role flags and its logical variables.
pub(crate) struct Node {
    pub broken: bool,
    pub source: bool,
    pub exit: bool,
    pub dot: bool,
    pub has_line: z3::ast::Bool,
    pub line_index: z3::ast::Int,
    pub source_used: z3::ast::Bool,
    pub exit_used: z3::ast::Bool,
}

/// A cell's symbol and its region variable.
pub(crate) struct Cell {
    pub symbol: Option<Symbol>,
    pub region: z3::ast::Int,
}

/// Which of the three node grids is being built.
#[derive(Clone, Copy)]
pub(crate) enum GridKind {
    Inter,
    HEdge,
    VEdge,
}

/// The node named by position (xx, yy) of a grid of the given kind.
pub(crate) open spec fn grid_node(kind: GridKind, xx: int, yy: int) -> IntersectionOrEdge {
    match kind {
        GridKind::Inter => IntersectionOrEdge::Intersection(Pos { x: xx as u32, y: yy as u32 }),
        GridKind::HEdge => IntersectionOrEdge::Edge(
            Edge { pos: Pos { x: xx as u32, y: yy as u32 }, dir: EdgeDirection::Horizontal },
        ),
        GridKind::VEdge => IntersectionOrEdge::Edge(
            Edge { pos: Pos { x: xx as u32, y: yy as u32 }, dir: EdgeDirection::Vertical },
        ),
    }
}

/// A node's flags agree with the puzzle's role lists for node `n`.
pub(crate) open spec fn node_flags_ok(p: Puzzle, nd: Node, n: IntersectionOrEdge) -> bool {
    &&& nd.broken == p.broken@.contains(n)
    &&& nd.source == p.sources@.contains(n)
    &&& nd.exit == p.exits@.contains(n)
    &&& nd.dot == p.dots@.contains(n)
}

/// The board bound to one solver context.
pub(crate) struct PuzzleModel {
    pub width: u32,
    pub height: u32,
    pub intersections: Vec<Vec<Node>>,
    pub horizontal_edges: Vec<Vec<Node>>,
    pub vertical_edges: Vec<Vec<Node>>,
    pub cells: Vec<Vec<Cell>>,
    pub num_regions: z3::ast::Int,
    pub region_square_colours: z3::ast::Array,
}

impl PuzzleModel {
    /// The grids have the shapes of a `width` x `height` board.
    pub(crate) open spec fn wf(&self) -> bool {
        &&& self.width <= 0x7FFF
        &&& self.height <= 0x7FFF
        &&& self.intersections@.len() == self.height + 1
        &&& forall|y: int|
            0 <= y < self.intersections@.len() ==> (#[trigger] self.intersections@[y])@.len()
                == self.width + 1
        &&& self.horizontal_edges@.len() == self.height + 1
        &&& forall|y: int|
            0 <= y < self.horizontal_edges@.len() ==> (#[trigger] self.horizontal_edges@[y])@.len()
                == self.width
        &&& self.vertical_edges@.len() == self.height
        &&& forall|y: int|
            0 <= y < self.vertical_edges@.len() ==> (#[trigger] self.vertical_edges@[y])@.len()
                == self.width + 1
        &&& self.cells@.len() == self.height
        &&& forall|y: int|
            0 <= y < self.cells@.len() ==> (#[trigger] self.cells@[y])@.len() == self.width
    }

    /// The node entry for an in-bounds node descriptor.
    pub(crate) open spec fn spec_node(&self, n: IntersectionOrEdge) -> Node {
        match n {
            IntersectionOrEdge::Intersection(pos) => self.intersections@[pos.y as int]@[pos.x as int],
            IntersectionOrEdge::Edge(e) => match e.dir {
                EdgeDirection::Horizontal => self.horizontal_edges@[e.pos.y as int]@[e.pos.x as int],
                EdgeDirection::Vertical => self.vertical_edges@[e.pos.y as int]@[e.pos.x as int],
            },
        }
    }

    /// The cell entry for an in-bounds cell position.
    pub(crate) open spec fn spec_cell(&self, c: Pos) -> Cell {
        self.cells@[c.y as int]@[c.x as int]
    }

    /// Every node's flags and every cell's symbol agree with the puzzle.
    pub(crate) open spec fn flags_match(&self, p: Puzzle) -> bool {
        &&& self.width == p.width
        &&& self.height == p.height
        &&& forall|n: IntersectionOrEdge|
            node_in_bounds(p.width, p.height, n) ==> node_flags_ok(p, #[trigger] self.spec_node(n), n)
        &&& forall|c: Pos|
            cell_in_bounds(p.width, p.height, c) ==> (#[trigger] self.spec_cell(c)).symbol
                == cell_symbol(p, c)
    }

    /// The node entry for an in-bounds node descriptor.
    pub(crate) fn node(&self, n: &IntersectionOrEdge) -> (nd: &Node)
        requires
            self.wf(),
            node_in_bounds(self.width, self.height, *n),
        ensures
            *nd == self.spec_node(*n),
    {
        match n {
            IntersectionOrEdge::Intersection(pos) => &self.intersections[pos.y as usize][pos.x
                as usize],
            IntersectionOrEdge::Edge(e) => match e.dir {
                EdgeDirection::Horizontal => &self.horizontal_edges[e.pos.y as usize][e.pos.x
                    as usize],
                EdgeDirection::Vertical => &self.vertical_edges[e.pos.y as usize][e.pos.x as usize],
            },
        }
    }

    /// The cell entry for an in-bounds cell position.
    pub(crate) fn cell(&self, c: &Pos) -> (cl: &Cell)
        requires
            self.wf(),
            cell_in_bounds(self.width, self.height, *c),
        ensures
            *cl == self.spec_cell(*c),
    {
        &self.cells[c.y as usize][c.x as usize]
    }

    /// Materializes the board: grids of the right shapes, flags seeded
    /// from the puzzle's role lists, symbols from its symbol lists, and
    /// fresh logical variables throughout.
    pub(crate) fn from_puzzle(p: &Puzzle) -> (m: PuzzleModel)
        requires
            p.wf(),
        ensures
            m.wf(),
            m.flags_match(*p),
    {
        let intersections = build_node_grid(
            p,
            (p.height + 1) as usize,
            (p.width + 1) as usize,
            GridKind::Inter,
        );
        let horizontal_edges = build_node_grid(
            p,
            (p.height + 1) as usize,
            p.width as usize,
            GridKind::HEdge,
        );
        let vertical_edges = build_node_grid(
            p,
            p.height as usize,
            (p.width + 1) as usize,
            GridKind::VEdge,
        );
        let cells = build_cell_grid(p, p.height as usize, p.width as usize);
        proof {
            reveal_strlit("num_regions");
            reveal_strlit("region_square_colours");
            assert(nul_free("num_regions"@));
            assert(nul_free("region_square_colours"@));
        }
        let m = PuzzleModel {
            width: p.width,
            height: p.height,
            intersections,
            horizontal_edges,
            vertical_edges,
            cells,
            num_regions: fresh_int("num_regions"),
            region_square_colours: fresh_array("region_square_colours", &int_sort(), &int_sort()),
        };
        proof {
            assert forall|n: IntersectionOrEdge| node_in_bounds(p.width, p.height, n) implies
                node_flags_ok(*p, #[trigger] m.spec_node(n), n) by {
                match n {
                    IntersectionOrEdge::Intersection(pos) => {
                        assert(grid_node(GridKind::Inter, pos.x as int, pos.y as int) == n);
                    },
                    IntersectionOrEdge::Edge(e) => match e.dir {
                        EdgeDirection::Horizontal => {
                            assert(grid_node(GridKind::HEdge, e.pos.x as int, e.pos.y as int) == n);
                        },
                        EdgeDirection::Vertical => {
                            assert(grid_node(GridKind::VEdge, e.pos.x as int, e.pos.y as int) == n);
                        },
                    },
                }
            }
        }
        m
    }
}

/// One node with flags taken from the puzzle's role lists and fresh
/// logical variables.
fn make_node(p: &Puzzle, n: IntersectionOrEdge) -> (nd: Node)
    ensures
        node_flags_ok(*p, nd, n),
{
    proof {
        reveal_strlit("has_line");
        reveal_strlit("line_index");
        reveal_strlit("source_used");
        reveal_strlit("exit_used");
        assert(nul_free("has_line"@));
        assert(nul_free("line_index"@));
        assert(nul_free("source_used"@));
        assert(nul_free("exit_used"@));
    }
    Node {
        broken: contains_node(&p.broken, &n),
        source: contains_node(&p.sources, &n),
        exit: contains_node(&p.exits, &n),
        dot: contains_node(&p.dots, &n),
        has_line: fresh_bool("has_line"),
        line_index: fresh_int("line_index"),
        source_used: fresh_bool("source_used"),
        exit_used: fresh_bool("exit_used"),
    }
}

/// A `rows` x `cols` grid of nodes of the given kind.
fn build_node_grid(p: &Puzzle, rows: usize, cols: usize, kind: GridKind) -> (g: Vec<Vec<Node>>)
    requires
        rows <= 0x10000,
        cols <= 0x10000,
    ensures
        g@.len() == rows,
        forall|y: int| 0 <= y < rows ==> (#[trigger] g@[y])@.len() == cols,
        forall|y: int, x: int|
            0 <= y < rows && 0 <= x < cols ==> node_flags_ok(
                *p,
                #[trigger] g@[y]@[x],
                grid_node(kind, x, y),
            ),
{
    let mut g: Vec<Vec<Node>> = Vec::new();
    let mut y: usize = 0;
    while y < rows
        invariant
            rows <= 0x10000,
            cols <= 0x10000,
            0 <= y <= rows,
            g@.len() == y,
            forall|yy: int| 0 <= yy < y ==> (#[trigger] g@[yy])@.len() == cols,
            forall|yy: int, xx: int|
                0 <= yy < y && 0 <= xx < cols ==> node_flags_ok(
                    *p,
                    #[trigger] g@[yy]@[xx],
                    grid_node(kind, xx, yy),
                ),
        decreases rows - y,
    {
        let mut row: Vec<Node> = Vec::new();
        let mut x: usize = 0;
        while x < cols
            invariant
                rows <= 0x10000,
                cols <= 0x10000,
                0 <= y < rows,
                0 <= x <= cols,
                row@.len() == x,
                forall|xx: int|
                    0 <= xx < x ==> node_flags_ok(
                        *p,
                        #[trigger] row@[xx],
                        grid_node(kind, xx, y as int),
                    ),
            decreases cols - x,
        {
            let n = match kind {
                GridKind::Inter => IntersectionOrEdge::Intersection(
                    Pos { x: x as u32, y: y as u32 },
                ),
                GridKind::HEdge => IntersectionOrEdge::Edge(
                    Edge { pos: Pos { x: x as u32, y: y as u32 }, dir: EdgeDirection::Horizontal },
                ),
                GridKind::VEdge => IntersectionOrEdge::Edge(
                    Edge { pos: Pos { x: x as u32, y: y as u32 }, dir: EdgeDirection::Vertical },
                ),
            };
            proof {
                assert(n == grid_node(kind, x as int, y as int));
            }
            let nd = make_node(p, n);
            row.push(nd);
            x = x + 1;
        }
        g.push(row);
        y = y + 1;
    }
    g
}

/// A `rows` x `cols` grid of cells, each carrying its symbol and a fresh
/// region variable.
fn build_cell_grid(p: &Puzzle, rows: usize, cols: usize) -> (g: Vec<Vec<Cell>>)
    requires
        rows <= 0x10000,
        cols <= 0x10000,
    ensures
        g@.len() == rows,
        forall|y: int| 0 <= y < rows ==> (#[trigger] g@[y])@.len() == cols,
        forall|y: int, x: int|
            0 <= y < rows && 0 <= x < cols ==> (#[trigger] g@[y]@[x]).symbol == cell_symbol(
                *p,
                Pos { x: x as u32, y: y as u32 },
            ),
{
    let mut g: Vec<Vec<Cell>> = Vec::new();
    let mut y: usize = 0;
    while y < rows
        invariant
            rows <= 0x10000,
            cols <= 0x10000,
            0 <= y <= rows,
            g@.len() == y,
            forall|yy: int| 0 <= yy < y ==> (#[trigger] g@[yy])@.len() == cols,
            forall|yy: int, xx: int|
                0 <= yy < y && 0 <= xx < cols ==> (#[trigger] g@[yy]@[xx]).symbol == cell_symbol(
                    *p,
                    Pos { x: xx as u32, y: yy as u32 },
                ),
        decreases rows - y,
    {
        let mut row: Vec<Cell> = Vec::new();
        let mut x: usize = 0;
        while x < cols
            invariant
                rows <= 0x10000,
                cols <= 0x10000,
                0 <= y < rows,
                0 <= x <= cols,
                row@.len() == x,
                forall|xx: int|
                    0 <= xx < x ==> (#[trigger] row@[xx]).symbol == cell_symbol(
                        *p,
                        Pos { x: xx as u32, y: y as u32 },
                    ),
            decreases cols - x,
        {
            let c = Pos { x: x as u32, y: y as u32 };
            let symbol = symbol_at(p, c);
            proof {
                reveal_strlit("region");
                assert(nul_free("region"@));
            }
            row.push(Cell { symbol, region: fresh_int("region") });
            x = x + 1;
        }
        g.push(row);
        y = y + 1;
    }
    g
}

} // verus!
