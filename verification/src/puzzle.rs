//! The puzzle data model: a rectangular grid of cells whose corners form
//! intersections joined by horizontal and vertical edges. A path is drawn
//! over nodes (intersections and edges); cells carry coloured symbols.

use vstd::prelude::*;

verus! {

/// A coordinate shared by intersections, edges and cells.
#[derive(Debug, Clone, Copy, PartialEq, Eq, Structural)]
pub struct Pos {
    pub x: u32,
    pub y: u32,
}

#[derive(Debug, Clone, Copy, PartialEq, Eq, Structural)]
pub enum EdgeDirection {
    Horizontal,
    Vertical,
}

/// A horizontal edge at (x, y) joins intersections (x, y) and (x+1, y);
/// a vertical edge at (x, y) joins intersections (x, y) and (x, y+1).
#[derive(Debug, Clone, Copy, PartialEq, Eq, Structural)]
pub struct Edge {
    pub pos: Pos,
    pub dir: EdgeDirection,
}

/// A node of the board: the unit on which the path is drawn.
#[derive(Debug, Clone, Copy, PartialEq, Eq, Structural)]
pub enum IntersectionOrEdge {
    Intersection(Pos),
    Edge(Edge),
}

#[derive(Debug, Clone, Copy, PartialEq, Eq, Structural)]
pub enum Colour {
    Black,
    White,
    Pink,
    Red,
    Orange,
    Yellow,
    Green,
    Turquoise,
    Blue,
    Purple,
}

/// A coloured symbol placed on the cell at `pos`.
#[derive(Debug, Clone, Copy, PartialEq, Eq, Structural)]
pub struct ColouredSymbol {
    pub pos: Pos,
    pub colour: Colour,
}

/// A puzzle: a width x height grid of cells, role lists for nodes
/// (sources, exits, broken, dots) and symbol lists for cells
/// (squares, suns).
#[derive(Debug, Clone, PartialEq, Eq)]
pub struct Puzzle {
    pub width: u32,
    pub height: u32,
    pub sources: Vec<IntersectionOrEdge>,
    pub exits: Vec<IntersectionOrEdge>,
    pub broken: Vec<IntersectionOrEdge>,
    pub dots: Vec<IntersectionOrEdge>,
    pub squares: Vec<ColouredSymbol>,
    pub suns: Vec<ColouredSymbol>,
}

/// Whether a node names a position that exists on a `width` x `height`
/// board: intersections form a (width+1) x (height+1) array, horizontal
/// edges a width x (height+1) array, vertical edges a (width+1) x height
/// array.
pub open spec fn node_in_bounds(width: u32, height: u32, n: IntersectionOrEdge) -> bool {
    match n {
        IntersectionOrEdge::Intersection(pos) => pos.x <= width && pos.y <= height,
        IntersectionOrEdge::Edge(e) => match e.dir {
            EdgeDirection::Horizontal => e.pos.x < width && e.pos.y <= height,
            EdgeDirection::Vertical => e.pos.x <= width && e.pos.y < height,
        },
    }
}

/// Whether a cell position exists on a `width` x `height` board.
pub open spec fn cell_in_bounds(width: u32, height: u32, c: Pos) -> bool {
    c.x < width && c.y < height
}

impl Puzzle {
    /// A well-formed puzzle: every listed node and symbol cell is in
    /// bounds, and the dimensions are small enough that index arithmetic
    /// over the board fits the machine's integer types.
    pub open spec fn wf(&self) -> bool {
        &&& self.width <= 0x7FFF
        &&& self.height <= 0x7FFF
        &&& forall|i: int|
            0 <= i < self.sources@.len() ==> node_in_bounds(
                self.width,
                self.height,
                #[trigger] self.sources@[i],
            )
        &&& forall|i: int|
            0 <= i < self.exits@.len() ==> node_in_bounds(
                self.width,
                self.height,
                #[trigger] self.exits@[i],
            )
        &&& forall|i: int|
            0 <= i < self.broken@.len() ==> node_in_bounds(
                self.width,
                self.height,
                #[trigger] self.broken@[i],
            )
        &&& forall|i: int|
            0 <= i < self.dots@.len() ==> node_in_bounds(
                self.width,
                self.height,
                #[trigger] self.dots@[i],
            )
        &&& forall|i: int|
            0 <= i < self.squares@.len() ==> cell_in_bounds(
                self.width,
                self.height,
                (#[trigger] self.squares@[i]).pos,
            )
        &&& forall|i: int|
            0 <= i < self.suns@.len() ==> cell_in_bounds(
                self.width,
                self.height,
                (#[trigger] self.suns@[i]).pos,
            )
    }
}

} // verus!
