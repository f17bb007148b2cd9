//! The rules a returned path must obey, as specification predicates, and an
//! executable checker for each. `solve` only returns paths that pass every
//! check, so its contract guarantees the rules hold of every result.

use vstd::prelude::*;

use crate::geometry::contains_node;
use crate::geometry::is_adjacent;
use crate::geometry::nodes_adjacent;
use crate::regions::cell_index;
use crate::regions::compute_labels;
use crate::regions::connected;
use crate::regions::index_cell;
use crate::regions::labels_closed;
use crate::regions::labels_connected;
use crate::regions::lemma_cell_index;
use crate::regions::lemma_closed_connected;
use crate::regions::lemma_connected_in_bounds;
use crate::regions::lemma_index_cell;
use crate::puzzle::Colour;
use crate::puzzle::ColouredSymbol;
use crate::puzzle::EdgeDirection;
use crate::puzzle::IntersectionOrEdge;
use crate::puzzle::Pos;
use crate::puzzle::Puzzle;
use crate::puzzle::cell_in_bounds;
use crate::puzzle::node_in_bounds;

verus! {

/// The symbol a cell carries: a coloured square or a coloured sun.
#[derive(Debug, Clone, Copy, PartialEq, Eq, Structural)]
pub enum Symbol {
    Square(Colour),
    Sun(Colour),
}

/// The colour of the last entry of `list` placed on cell `c`, if any.
/// Later entries override earlier ones, as board construction applies
/// symbol lists in order.
pub open spec fn last_symbol_colour(list: Seq<ColouredSymbol>, c: Pos) -> Option<Colour>
    decreases list.len(),
{
    if list.len() == 0 {
        None
    } else if list.last().pos == c {
        Some(list.last().colour)
    } else {
        last_symbol_colour(list.drop_last(), c)
    }
}

/// The symbol carried by cell `c`: a cell holds at most one symbol, suns
/// are applied after squares, and within each list later entries override
/// earlier ones.
pub open spec fn cell_symbol(p: Puzzle, c: Pos) -> Option<Symbol> {
    match last_symbol_colour(p.suns@, c) {
        Some(k) => Some(Symbol::Sun(k)),
        None => match last_symbol_colour(p.squares@, c) {
            Some(k) => Some(Symbol::Square(k)),
            None => None,
        },
    }
}

/// Scans `list` from its end for an entry on cell `c`.
fn last_colour_at(list: &Vec<ColouredSymbol>, c: Pos) -> (r: Option<Colour>)
    ensures
        r == last_symbol_colour(list@, c),
{
    let mut i: usize = list.len();
    proof {
        assert(list@.subrange(0, list@.len() as int) =~= list@);
    }
    while i > 0
        invariant
            0 <= i <= list@.len(),
            last_symbol_colour(list@, c) == last_symbol_colour(list@.subrange(0, i as int), c),
        decreases i,
    {
        if list[i - 1].pos == c {
            return Some(list[i - 1].colour);
        }
        proof {
            assert(list@.subrange(0, i as int).drop_last() =~= list@.subrange(0, i - 1));
        }
        i = i - 1;
    }
    None
}

/// The symbol carried by cell `c`.
pub fn symbol_at(p: &Puzzle, c: Pos) -> (r: Option<Symbol>)
    ensures
        r == cell_symbol(*p, c),
{
    proof {
        assert(p.suns@.subrange(0, p.suns@.len() as int) =~= p.suns@);
        assert(p.squares@.subrange(0, p.squares@.len() as int) =~= p.squares@);
    }
    match last_colour_at(&p.suns, c) {
        Some(k) => Some(Symbol::Sun(k)),
        None => match last_colour_at(&p.squares, c) {
            Some(k) => Some(Symbol::Square(k)),
            None => None,
        },
    }
}

/// The path has a sound shape: non-empty, starts at a flagged source, ends
/// at a flagged exit, stays in bounds, never repeats a node, and each pair
/// of consecutive nodes is adjacent (which forces the strict
/// intersection/edge alternation).
pub open spec fn path_shape_ok(p: Puzzle, path: Seq<IntersectionOrEdge>) -> bool {
    &&& path.len() >= 1
    &&& p.sources@.contains(path[0])
    &&& p.exits@.contains(path[path.len() - 1])
    &&& forall|i: int|
        0 <= i < path.len() ==> node_in_bounds(p.width, p.height, #[trigger] path[i])
    &&& forall|i: int, j: int| 0 <= i < j < path.len() ==> path[i] != path[j]
    &&& forall|i: int| 0 <= i < path.len() - 1 ==> nodes_adjacent(#[trigger] path[i], path[i + 1])
}

/// No path node carries the broken flag.
pub open spec fn broken_respected(p: Puzzle, path: Seq<IntersectionOrEdge>) -> bool {
    forall|i: int| 0 <= i < path.len() ==> !p.broken@.contains(#[trigger] path[i])
}

/// Every node carrying the dot flag lies on the path.
pub open spec fn dots_respected(p: Puzzle, path: Seq<IntersectionOrEdge>) -> bool {
    forall|i: int| 0 <= i < p.dots@.len() ==> path.contains(#[trigger] p.dots@[i])
}

/// Whether a node names a position that exists on the board.
pub fn is_node_in_bounds(width: u32, height: u32, n: &IntersectionOrEdge) -> (r: bool)
    ensures
        r == node_in_bounds(width, height, *n),
{
    match n {
        IntersectionOrEdge::Intersection(pos) => pos.x <= width && pos.y <= height,
        IntersectionOrEdge::Edge(e) => match e.dir {
            EdgeDirection::Horizontal => e.pos.x < width && e.pos.y <= height,
            EdgeDirection::Vertical => e.pos.x <= width && e.pos.y < height,
        },
    }
}

/// Decides `path_shape_ok`.
pub fn check_path_shape(p: &Puzzle, path: &Vec<IntersectionOrEdge>) -> (r: bool)
    ensures
        r == path_shape_ok(*p, path@),
{
    if path.len() == 0 {
        return false;
    }
    if !contains_node(&p.sources, &path[0]) {
        return false;
    }
    if !contains_node(&p.exits, &path[path.len() - 1]) {
        return false;
    }
    let mut i: usize = 0;
    while i < path.len()
        invariant
            0 <= i <= path@.len(),
            forall|k: int|
                0 <= k < i ==> node_in_bounds(p.width, p.height, #[trigger] path@[k]),
        decreases path@.len() - i,
    {
        if !is_node_in_bounds(p.width, p.height, &path[i]) {
            return false;
        }
        i = i + 1;
    }
    let mut i: usize = 0;
    while i < path.len()
        invariant
            0 <= i <= path@.len(),
            forall|k: int, l: int| 0 <= k < l < path@.len() && k < i ==> path@[k] != path@[l],
        decreases path@.len() - i,
    {
        let mut j: usize = i + 1;
        while j < path.len()
            invariant
                0 <= i < j <= path@.len(),
                forall|l: int| i < l < j ==> path@[i as int] != path@[l],
            decreases path@.len() - j,
        {
            if path[i] == path[j] {
                return false;
            }
            j = j + 1;
        }
        i = i + 1;
    }
    let mut i: usize = 0;
    while i < path.len() - 1
        invariant
            0 <= i <= path@.len(),
            path@.len() >= 1,
            forall|k: int|
                0 <= k < i && k < path@.len() - 1 ==> nodes_adjacent(
                    #[trigger] path@[k],
                    path@[k + 1],
                ),
        decreases path@.len() - i,
    {
        if !is_adjacent(&path[i], &path[i + 1]) {
            return false;
        }
        i = i + 1;
    }
    true
}

/// Decides `broken_respected`.
pub fn check_broken(p: &Puzzle, path: &Vec<IntersectionOrEdge>) -> (r: bool)
    ensures
        r == broken_respected(*p, path@),
{
    let mut i: usize = 0;
    while i < path.len()
        invariant
            0 <= i <= path@.len(),
            forall|k: int| 0 <= k < i ==> !p.broken@.contains(#[trigger] path@[k]),
        decreases path@.len() - i,
    {
        if contains_node(&p.broken, &path[i]) {
            return false;
        }
        i = i + 1;
    }
    true
}

/// Decides `dots_respected`.
pub fn check_dots(p: &Puzzle, path: &Vec<IntersectionOrEdge>) -> (r: bool)
    ensures
        r == dots_respected(*p, path@),
{
    let mut i: usize = 0;
    while i < p.dots.len()
        invariant
            0 <= i <= p.dots@.len(),
            forall|k: int| 0 <= k < i ==> path@.contains(#[trigger] p.dots@[k]),
        decreases p.dots@.len() - i,
    {
        if !contains_node(path, &p.dots[i]) {
            return false;
        }
        i = i + 1;
    }
    true
}

/// The colour of the square on cell `c`, if `c` carries a square.
pub open spec fn square_colour(p: Puzzle, c: Pos) -> Option<Colour> {
    match cell_symbol(p, c) {
        Some(Symbol::Square(k)) => Some(k),
        _ => None,
    }
}

/// No region holds two squares of different colours: any two cells that
/// carry squares and lie in the same region carry squares of one colour.
pub open spec fn squares_respected(p: Puzzle, path: Seq<IntersectionOrEdge>) -> bool {
    forall|c1: Pos, c2: Pos|
        square_colour(p, c1) is Some && square_colour(p, c2) is Some && #[trigger] connected(
            p,
            path,
            c1,
            c2,
        ) ==> square_colour(p, c1) == square_colour(p, c2)
}

/// Whether cell `c` carries a sun or a square of colour `k`.
pub open spec fn has_coloured_element(p: Puzzle, c: Pos, k: Colour) -> bool {
    cell_symbol(p, c) == Some(Symbol::Sun(k)) || cell_symbol(p, c) == Some(Symbol::Square(k))
}

/// How many of the first `n` cells (in row-major order) satisfy `pred`.
pub open spec fn count_upto(p: Puzzle, pred: spec_fn(Pos) -> bool, n: int) -> nat
    decreases n,
{
    if n <= 0 {
        0
    } else {
        count_upto(p, pred, n - 1) + if pred(index_cell(p, n - 1)) {
            1nat
        } else {
            0nat
        }
    }
}

/// Holds of cells that carry a sun or square of colour `k` and lie in the
/// region of `anchor`.
pub open spec fn region_colour_pred(
    p: Puzzle,
    path: Seq<IntersectionOrEdge>,
    anchor: Pos,
    k: Colour,
) -> spec_fn(Pos) -> bool {
    |c: Pos| has_coloured_element(p, c, k) && connected(p, path, c, anchor)
}

/// Holds of cells that carry a sun or square of colour `k` and whose label
/// equals the label of the cell with row-major index `anchor`.
spec fn label_colour_pred(p: Puzzle, labels: Seq<usize>, anchor: int, k: Colour) -> spec_fn(
    Pos,
) -> bool {
    |c: Pos| has_coloured_element(p, c, k) && labels[cell_index(p, c)] == labels[anchor]
}

/// How many cells carry a sun or square of colour `k` and lie in the
/// region of `anchor`.
pub open spec fn region_colour_count(
    p: Puzzle,
    path: Seq<IntersectionOrEdge>,
    anchor: Pos,
    k: Colour,
) -> nat {
    count_upto(p, region_colour_pred(p, path, anchor, k), p.width * p.height)
}

/// For every colour `k` appearing on a sun, every region holding any sun
/// or square of colour `k` holds exactly two such elements. (Regions
/// holding none are unconstrained, so the count per region is 0 or 2.)
pub open spec fn suns_respected(p: Puzzle, path: Seq<IntersectionOrEdge>) -> bool {
    forall|i: int, c: Pos|
        0 <= i < p.suns@.len() && cell_in_bounds(p.width, p.height, c) && #[trigger]
        has_coloured_element(p, c, p.suns@[i].colour) ==> region_colour_count(
            p,
            path,
            c,
            p.suns@[i].colour,
        ) == 2
}

/// Every rule a returned path must obey.
pub open spec fn valid_solution(p: Puzzle, path: Seq<IntersectionOrEdge>) -> bool {
    &&& path_shape_ok(p, path)
    &&& broken_respected(p, path)
    &&& dots_respected(p, path)
    &&& squares_respected(p, path)
    &&& suns_respected(p, path)
}

proof fn lemma_count_congruent(p: Puzzle, f: spec_fn(Pos) -> bool, g: spec_fn(Pos) -> bool, n: int)
    requires
        forall|i: int| 0 <= i < n ==> f(#[trigger] index_cell(p, i)) == g(index_cell(p, i)),
    ensures
        count_upto(p, f, n) == count_upto(p, g, n),
    decreases n,
{
    if n > 0 {
        lemma_count_congruent(p, f, g, n - 1);
    }
}

/// The cell with row-major index `i`.
fn nth_cell(p: &Puzzle, i: usize) -> (c: Pos)
    requires
        p.wf(),
        p.width > 0,
        i < p.width * p.height,
    ensures
        c == index_cell(*p, i as int),
        cell_in_bounds(p.width, p.height, c),
        cell_index(*p, c) == i,
{
    proof {
        lemma_index_cell(*p, i as int);
    }
    let w = p.width as usize;
    Pos { x: (i % w) as u32, y: (i / w) as u32 }
}

/// Whether cell `c` carries a sun or a square of colour `k`.
fn has_elem(p: &Puzzle, c: Pos, k: Colour) -> (r: bool)
    ensures
        r == has_coloured_element(*p, c, k),
{
    match symbol_at(p, c) {
        Some(Symbol::Sun(k2)) => k2 == k,
        Some(Symbol::Square(k2)) => k2 == k,
        None => false,
    }
}

/// The colour of the square on cell `c`, if any.
fn square_colour_at(p: &Puzzle, c: Pos) -> (r: Option<Colour>)
    ensures
        r == square_colour(*p, c),
{
    match symbol_at(p, c) {
        Some(Symbol::Square(k)) => Some(k),
        _ => None,
    }
}

/// Decides `squares_respected`, given a region labelling of the cells.
fn check_squares(p: &Puzzle, path: &Vec<IntersectionOrEdge>, labels: &Vec<usize>) -> (r: bool)
    requires
        p.wf(),
        p.width > 0,
        p.height > 0,
        labels@.len() == p.width * p.height,
        labels_connected(*p, path@, labels@),
        labels_closed(*p, path@, labels@),
    ensures
        r == squares_respected(*p, path@),
{
    let n = labels.len();
    let mut i: usize = 0;
    while i < n
        invariant
            p.wf(),
            p.width > 0,
            p.height > 0,
            n == labels@.len(),
            labels@.len() == p.width * p.height,
            labels_connected(*p, path@, labels@),
            labels_closed(*p, path@, labels@),
            0 <= i <= n,
            forall|a: int, b: int|
                #![trigger labels@[a], labels@[b]]
                0 <= a < i && 0 <= b < n && labels@[a] == labels@[b] && square_colour(
                    *p,
                    index_cell(*p, a),
                ) is Some && square_colour(*p, index_cell(*p, b)) is Some ==> square_colour(
                    *p,
                    index_cell(*p, a),
                ) == square_colour(*p, index_cell(*p, b)),
        decreases n - i,
    {
        let ci = nth_cell(p, i);
        let sci = square_colour_at(p, ci);
        if let Some(k1) = sci {
            let mut j: usize = 0;
            while j < n
                invariant
                    p.wf(),
                    p.width > 0,
                    p.height > 0,
                    n == labels@.len(),
                    labels@.len() == p.width * p.height,
                    labels_connected(*p, path@, labels@),
                    0 <= i < n,
                    0 <= j <= n,
                    ci == index_cell(*p, i as int),
                    square_colour(*p, ci) == Some(k1),
                    forall|b: int|
                        0 <= b < j && #[trigger] labels@[b] == labels@[i as int] && square_colour(
                            *p,
                            index_cell(*p, b),
                        ) is Some ==> square_colour(*p, index_cell(*p, b)) == Some(k1),
                decreases n - j,
            {
                if labels[j] == labels[i] {
                    let cj = nth_cell(p, j);
                    let scj = square_colour_at(p, cj);
                    if let Some(k2) = scj {
                        if !(k1 == k2) {
                            proof {
                                assert(connected(*p, path@, ci, cj));
                                assert(!squares_respected(*p, path@));
                            }
                            return false;
                        }
                    }
                }
                j = j + 1;
            }
        }
        i = i + 1;
    }
    proof {
        assert forall|c1: Pos, c2: Pos|
            square_colour(*p, c1) is Some && square_colour(*p, c2) is Some && #[trigger] connected(
            *p,
            path@,
            c1,
            c2,
        ) implies square_colour(*p, c1) == square_colour(*p, c2) by {
            lemma_connected_in_bounds(*p, path@, c1, c2);
            lemma_cell_index(*p, c1);
            lemma_cell_index(*p, c2);
            lemma_closed_connected(*p, path@, labels@, c1, c2);
        }
    }
    true
}

/// How many cells carry a sun or square of colour `k` and share the label
/// of the cell with row-major index `anchor`.
fn count_label_colour(
    p: &Puzzle,
    path: &Vec<IntersectionOrEdge>,
    labels: &Vec<usize>,
    anchor: usize,
    k: Colour,
) -> (cnt: usize)
    requires
        p.wf(),
        p.width > 0,
        p.height > 0,
        labels@.len() == p.width * p.height,
        labels_connected(*p, path@, labels@),
        labels_closed(*p, path@, labels@),
        anchor < labels@.len(),
    ensures
        cnt == region_colour_count(*p, path@, index_cell(*p, anchor as int), k),
{
    let ghost anchor_cell = index_cell(*p, anchor as int);
    let ghost lab = label_colour_pred(*p, labels@, anchor as int, k);
    let n = labels.len();
    let mut cnt: usize = 0;
    let mut j: usize = 0;
    while j < n
        invariant
            p.wf(),
            p.width > 0,
            p.height > 0,
            n == labels@.len(),
            labels@.len() == p.width * p.height,
            anchor < labels@.len(),
            0 <= j <= n,
            cnt <= j,
            lab == label_colour_pred(*p, labels@, anchor as int, k),
            cnt == count_upto(*p, lab, j as int),
        decreases n - j,
    {
        let cj = nth_cell(p, j);
        let hit = if has_elem(p, cj, k) {
            labels[j] == labels[anchor]
        } else {
            false
        };
        proof {
            assert(lab(cj) == hit);
            assert(count_upto(*p, lab, j + 1 as int) == count_upto(*p, lab, j as int) + if lab(
                index_cell(*p, j as int),
            ) {
                1nat
            } else {
                0nat
            });
        }
        if hit {
            cnt = cnt + 1;
        }
        j = j + 1;
    }
    proof {
        lemma_index_cell(*p, anchor as int);
        let conn = region_colour_pred(*p, path@, anchor_cell, k);
        assert forall|i: int| 0 <= i < p.width * p.height implies lab(
            #[trigger] index_cell(*p, i),
        ) == conn(index_cell(*p, i)) by {
            lemma_index_cell(*p, i);
            let c = index_cell(*p, i);
            if labels@[i] == labels@[anchor as int] {
                assert(connected(*p, path@, c, anchor_cell));
            }
            if connected(*p, path@, c, anchor_cell) {
                lemma_closed_connected(*p, path@, labels@, c, anchor_cell);
            }
        }
        lemma_count_congruent(*p, lab, conn, p.width * p.height);
    }
    cnt
}

/// All regions hold 0 or 2 elements of colour `k`.
spec fn colour_ok(p: Puzzle, path: Seq<IntersectionOrEdge>, k: Colour) -> bool {
    forall|c: Pos|
        cell_in_bounds(p.width, p.height, c) && #[trigger] has_coloured_element(p, c, k)
            ==> region_colour_count(p, path, c, k) == 2
}

/// Decides `suns_respected`, given a region labelling of the cells.
fn check_suns(p: &Puzzle, path: &Vec<IntersectionOrEdge>, labels: &Vec<usize>) -> (r: bool)
    requires
        p.wf(),
        p.width > 0,
        p.height > 0,
        labels@.len() == p.width * p.height,
        labels_connected(*p, path@, labels@),
        labels_closed(*p, path@, labels@),
    ensures
        r == suns_respected(*p, path@),
{
    let n = labels.len();
    let mut si: usize = 0;
    while si < p.suns.len()
        invariant
            p.wf(),
            p.width > 0,
            p.height > 0,
            n == labels@.len(),
            labels@.len() == p.width * p.height,
            labels_connected(*p, path@, labels@),
            labels_closed(*p, path@, labels@),
            0 <= si <= p.suns@.len(),
            forall|t: int| 0 <= t < si ==> colour_ok(*p, path@, (#[trigger] p.suns@[t]).colour),
        decreases p.suns@.len() - si,
    {
        let k = p.suns[si].colour;
        let mut i: usize = 0;
        while i < n
            invariant
                p.wf(),
                p.width > 0,
                p.height > 0,
                n == labels@.len(),
                labels@.len() == p.width * p.height,
                labels_connected(*p, path@, labels@),
                labels_closed(*p, path@, labels@),
                0 <= i <= n,
                0 <= si < p.suns@.len(),
                k == p.suns@[si as int].colour,
                forall|j: int|
                    0 <= j < i && has_coloured_element(*p, #[trigger] index_cell(*p, j), k)
                        ==> region_colour_count(*p, path@, index_cell(*p, j), k) == 2,
            decreases n - i,
        {
            let c = nth_cell(p, i);
            if has_elem(p, c, k) {
                let cnt = count_label_colour(p, path, labels, i, k);
                if cnt != 2 {
                    proof {
                        assert(has_coloured_element(*p, c, p.suns@[si as int].colour));
                        assert(!suns_respected(*p, path@));
                    }
                    return false;
                }
            }
            i = i + 1;
        }
        proof {
            assert forall|c: Pos|
                cell_in_bounds(p.width, p.height, c) && #[trigger] has_coloured_element(
                *p,
                c,
                k,
            ) implies region_colour_count(*p, path@, c, k) == 2 by {
                lemma_cell_index(*p, c);
                assert(index_cell(*p, cell_index(*p, c)) == c);
            }
        }
        si = si + 1;
    }
    true
}

/// Decides `valid_solution`: whether `path` obeys every rule of the
/// puzzle.
pub fn check_solution(p: &Puzzle, path: &Vec<IntersectionOrEdge>) -> (r: bool)
    requires
        p.wf(),
    ensures
        r == valid_solution(*p, path@),
{
    if !check_path_shape(p, path) {
        return false;
    }
    if !check_broken(p, path) {
        return false;
    }
    if !check_dots(p, path) {
        return false;
    }
    if p.width == 0 || p.height == 0 {
        proof {
            if p.squares@.len() > 0 {
                assert(cell_in_bounds(p.width, p.height, p.squares@[0].pos));
            }
            if p.suns@.len() > 0 {
                assert(cell_in_bounds(p.width, p.height, p.suns@[0].pos));
            }
            assert forall|c1: Pos, c2: Pos|
                square_colour(*p, c1) is Some && square_colour(*p, c2) is Some && #[trigger]
                connected(*p, path@, c1, c2) implies square_colour(*p, c1) == square_colour(
                *p,
                c2,
            ) by {
                assert(last_symbol_colour(p.squares@, c1) is None);
            }
        }
        return true;
    }
    let labels = compute_labels(p, path);
    let squares_ok = check_squares(p, path, &labels);
    if !squares_ok {
        return false;
    }
    check_suns(p, path, &labels)
}

} // verus!
