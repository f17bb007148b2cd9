//! Regions induced by a drawn path: two cells are in the same region when
//! they are joined by a chain of edge-sharing cells whose shared edges do
//! not carry the line. This module defines that relation and computes, in
//! verified code, a labelling of the cells that coincides with it.

use vstd::prelude::*;
use vstd::pervasive::VecAdditionalExecFns;

use crate::geometry::contains_node;
use crate::puzzle::Edge;
use crate::puzzle::EdgeDirection;
use crate::puzzle::IntersectionOrEdge;
use crate::puzzle::Pos;
use crate::puzzle::Puzzle;
use crate::puzzle::cell_in_bounds;

verus! {

/// Whether the path draws the line over edge `e`.
pub open spec fn on_line(path: Seq<IntersectionOrEdge>, e: Edge) -> bool {
    path.contains(IntersectionOrEdge::Edge(e))
}

/// The cell to the right of `c`.
pub open spec fn right_cell(c: Pos) -> Pos {
    Pos { x: (c.x + 1) as u32, y: c.y }
}

/// The cell below `c`.
pub open spec fn below_cell(c: Pos) -> Pos {
    Pos { x: c.x, y: (c.y + 1) as u32 }
}

/// Two in-bounds cells are linked when they share an edge that does not
/// carry the line: horizontal neighbours share the vertical edge at the
/// right cell's position, vertical neighbours share the horizontal edge at
/// the lower cell's position.
pub open spec fn linked(p: Puzzle, path: Seq<IntersectionOrEdge>, a: Pos, b: Pos) -> bool {
    &&& cell_in_bounds(p.width, p.height, a)
    &&& cell_in_bounds(p.width, p.height, b)
    &&& {
        ||| (b.y == a.y && b.x == a.x + 1 && !on_line(
            path,
            Edge { pos: Pos { x: b.x, y: a.y }, dir: EdgeDirection::Vertical },
        ))
        ||| (a.y == b.y && a.x == b.x + 1 && !on_line(
            path,
            Edge { pos: Pos { x: a.x, y: a.y }, dir: EdgeDirection::Vertical },
        ))
        ||| (b.x == a.x && b.y == a.y + 1 && !on_line(
            path,
            Edge { pos: Pos { x: a.x, y: b.y }, dir: EdgeDirection::Horizontal },
        ))
        ||| (a.x == b.x && a.y == b.y + 1 && !on_line(
            path,
            Edge { pos: Pos { x: a.x, y: a.y }, dir: EdgeDirection::Horizontal },
        ))
    }
}

/// A chain of pairwise linked cells leading from `a` to `b`.
pub open spec fn chain_ok(
    p: Puzzle,
    path: Seq<IntersectionOrEdge>,
    ch: Seq<Pos>,
    a: Pos,
    b: Pos,
) -> bool {
    &&& ch.len() >= 1
    &&& ch[0] == a
    &&& ch[ch.len() - 1] == b
    &&& cell_in_bounds(p.width, p.height, a)
    &&& forall|i: int| 0 <= i < ch.len() - 1 ==> linked(p, path, #[trigger] ch[i], ch[i + 1])
}

/// Two cells lie in the same region: some chain of linked cells joins them.
pub open spec fn connected(p: Puzzle, path: Seq<IntersectionOrEdge>, a: Pos, b: Pos) -> bool {
    exists|ch: Seq<Pos>| chain_ok(p, path, ch, a, b)
}

pub proof fn lemma_connected_refl(p: Puzzle, path: Seq<IntersectionOrEdge>, a: Pos)
    requires
        cell_in_bounds(p.width, p.height, a),
    ensures
        connected(p, path, a, a),
{
    let ch = seq![a];
    assert(chain_ok(p, path, ch, a, a));
}

/// Connectivity is closed under one more linked step.
pub proof fn lemma_connected_extend(
    p: Puzzle,
    path: Seq<IntersectionOrEdge>,
    a: Pos,
    b: Pos,
    c: Pos,
)
    requires
        connected(p, path, a, b),
        linked(p, path, b, c),
    ensures
        connected(p, path, a, c),
{
    let ch = choose|ch: Seq<Pos>| chain_ok(p, path, ch, a, b);
    let ch2 = ch.push(c);
    assert forall|i: int| 0 <= i < ch2.len() - 1 implies linked(p, path, #[trigger] ch2[i], ch2[i + 1]) by {
        if i < ch.len() - 1 {
            assert(ch2[i] == ch[i]);
            assert(ch2[i + 1] == ch[i + 1]);
        } else {
            assert(ch2[i] == ch[ch.len() - 1]);
            assert(ch2[i + 1] == c);
        }
    }
    assert(chain_ok(p, path, ch2, a, c));
}

proof fn lemma_chain_sym(p: Puzzle, path: Seq<IntersectionOrEdge>, ch: Seq<Pos>, a: Pos, b: Pos)
    requires
        chain_ok(p, path, ch, a, b),
    ensures
        connected(p, path, b, a),
    decreases ch.len(),
{
    if ch.len() == 1 {
        lemma_connected_refl(p, path, a);
    } else {
        let ch2 = ch.subrange(1, ch.len() as int);
        assert(linked(p, path, ch[0], ch[1]));
        assert forall|i: int| 0 <= i < ch2.len() - 1 implies linked(
            p,
            path,
            #[trigger] ch2[i],
            ch2[i + 1],
        ) by {
            assert(ch2[i] == ch[i + 1]);
            assert(ch2[i + 1] == ch[i + 2]);
        }
        assert(chain_ok(p, path, ch2, ch[1], b));
        lemma_chain_sym(p, path, ch2, ch[1], b);
        lemma_connected_extend(p, path, b, ch[1], a);
    }
}

/// Connectivity is symmetric.
pub proof fn lemma_connected_sym(p: Puzzle, path: Seq<IntersectionOrEdge>, a: Pos, b: Pos)
    requires
        connected(p, path, a, b),
    ensures
        connected(p, path, b, a),
{
    let ch = choose|ch: Seq<Pos>| chain_ok(p, path, ch, a, b);
    lemma_chain_sym(p, path, ch, a, b);
}

/// Connected cells are in bounds.
pub proof fn lemma_connected_in_bounds(p: Puzzle, path: Seq<IntersectionOrEdge>, a: Pos, b: Pos)
    requires
        connected(p, path, a, b),
    ensures
        cell_in_bounds(p.width, p.height, a),
        cell_in_bounds(p.width, p.height, b),
{
    let ch = choose|ch: Seq<Pos>| chain_ok(p, path, ch, a, b);
    if ch.len() >= 2 {
        assert(linked(p, path, ch[ch.len() - 2], ch[ch.len() - 1]));
    }
}

/// The row-major index of cell `c`.
pub open spec fn cell_index(p: Puzzle, c: Pos) -> int {
    c.y * p.width + c.x
}

/// The cell with row-major index `i`; meaningful when `p.width > 0`.
pub open spec fn index_cell(p: Puzzle, i: int) -> Pos {
    Pos { x: (i % (p.width as int)) as u32, y: (i / (p.width as int)) as u32 }
}

pub proof fn lemma_cell_index(p: Puzzle, c: Pos)
    requires
        p.width > 0,
        cell_in_bounds(p.width, p.height, c),
    ensures
        0 <= cell_index(p, c) < p.width * p.height,
        index_cell(p, cell_index(p, c)) == c,
{
    let w = p.width as int;
    let h = p.height as int;
    let x = c.x as int;
    let y = c.y as int;
    assert((y * w + x) % w == x && (y * w + x) / w == y && y * w + x < w * h && 0 <= y * w + x)
        by (nonlinear_arith)
        requires
            0 <= x < w,
            0 <= y < h,
    ;
}

pub proof fn lemma_index_cell(p: Puzzle, i: int)
    requires
        p.width > 0,
        0 <= i < p.width * p.height,
    ensures
        cell_in_bounds(p.width, p.height, index_cell(p, i)),
        cell_index(p, index_cell(p, i)) == i,
{
    let w = p.width as int;
    let h = p.height as int;
    assert(0 <= i % w < w && 0 <= i / w < h && (i / w) * w + i % w == i) by (nonlinear_arith)
        requires
            w > 0,
            0 <= i < w * h,
    ;
}

/// Any two cells that carry the same label are in the same region.
pub open spec fn labels_connected(
    p: Puzzle,
    path: Seq<IntersectionOrEdge>,
    labels: Seq<usize>,
) -> bool {
    forall|i: int, j: int|
        #![trigger labels[i], labels[j]]
        0 <= i < labels.len() && 0 <= j < labels.len() && labels[i] == labels[j] ==> connected(
            p,
            path,
            index_cell(p, i),
            index_cell(p, j),
        )
}

/// Any two linked cells carry the same label.
pub open spec fn labels_closed(p: Puzzle, path: Seq<IntersectionOrEdge>, labels: Seq<usize>) -> bool {
    forall|a: Pos, b: Pos|
        #[trigger] linked(p, path, a, b) ==> labels[cell_index(p, a)] == labels[cell_index(p, b)]
}

/// The canonical links of cell `c` (to its right and lower neighbours)
/// carry equal labels.
pub open spec fn canon_ok(
    p: Puzzle,
    path: Seq<IntersectionOrEdge>,
    labels: Seq<usize>,
    c: Pos,
) -> bool {
    &&& (linked(p, path, c, right_cell(c)) ==> labels[cell_index(p, c)] == labels[cell_index(
        p,
        right_cell(c),
    )])
    &&& (linked(p, path, c, below_cell(c)) ==> labels[cell_index(p, c)] == labels[cell_index(
        p,
        below_cell(c),
    )])
}

/// Every cell with row-major index below `k` has its canonical links
/// label-equal.
pub open spec fn closed_upto(
    p: Puzzle,
    path: Seq<IntersectionOrEdge>,
    labels: Seq<usize>,
    k: int,
) -> bool {
    forall|i: int| 0 <= i < k ==> canon_ok(p, path, labels, #[trigger] index_cell(p, i))
}

proof fn lemma_closed_upto_closed(p: Puzzle, path: Seq<IntersectionOrEdge>, labels: Seq<usize>)
    requires
        p.width > 0,
        closed_upto(p, path, labels, p.width * p.height),
    ensures
        labels_closed(p, path, labels),
{
    assert forall|a: Pos, b: Pos| #[trigger] linked(p, path, a, b) implies labels[cell_index(
        p,
        a,
    )] == labels[cell_index(p, b)] by {
        if b.y == a.y && b.x == a.x + 1 {
            lemma_cell_index(p, a);
            assert(canon_ok(p, path, labels, index_cell(p, cell_index(p, a))));
            assert(right_cell(a) == b);
        } else if a.y == b.y && a.x == b.x + 1 {
            lemma_cell_index(p, b);
            assert(canon_ok(p, path, labels, index_cell(p, cell_index(p, b))));
            assert(right_cell(b) == a);
        } else if b.x == a.x && b.y == a.y + 1 {
            lemma_cell_index(p, a);
            assert(canon_ok(p, path, labels, index_cell(p, cell_index(p, a))));
            assert(below_cell(a) == b);
        } else {
            lemma_cell_index(p, b);
            assert(canon_ok(p, path, labels, index_cell(p, cell_index(p, b))));
            assert(below_cell(b) == a);
        }
    }
}

proof fn lemma_closed_chain(
    p: Puzzle,
    path: Seq<IntersectionOrEdge>,
    labels: Seq<usize>,
    ch: Seq<Pos>,
    a: Pos,
    b: Pos,
)
    requires
        labels_closed(p, path, labels),
        chain_ok(p, path, ch, a, b),
    ensures
        labels[cell_index(p, a)] == labels[cell_index(p, b)],
    decreases ch.len(),
{
    if ch.len() > 1 {
        assert(linked(p, path, ch[0], ch[1]));
        let ch2 = ch.subrange(1, ch.len() as int);
        assert forall|i: int| 0 <= i < ch2.len() - 1 implies linked(
            p,
            path,
            #[trigger] ch2[i],
            ch2[i + 1],
        ) by {
            assert(ch2[i] == ch[i + 1]);
            assert(ch2[i + 1] == ch[i + 2]);
        }
        assert(chain_ok(p, path, ch2, ch[1], b));
        lemma_closed_chain(p, path, labels, ch2, ch[1], b);
    }
}

/// With a closed labelling, cells in the same region carry equal labels.
pub proof fn lemma_closed_connected(
    p: Puzzle,
    path: Seq<IntersectionOrEdge>,
    labels: Seq<usize>,
    a: Pos,
    b: Pos,
)
    requires
        labels_closed(p, path, labels),
        connected(p, path, a, b),
    ensures
        labels[cell_index(p, a)] == labels[cell_index(p, b)],
{
    let ch = choose|ch: Seq<Pos>| chain_ok(p, path, ch, a, b);
    lemma_closed_chain(p, path, labels, ch, a, b);
}

/// The sum of all labels; the measure that the propagation loop shrinks.
pub open spec fn label_sum(s: Seq<usize>) -> nat
    decreases s.len(),
{
    if s.len() == 0 {
        0
    } else {
        (label_sum(s.drop_last()) + s.last()) as nat
    }
}

proof fn lemma_label_sum_update(s: Seq<usize>, i: int, v: usize)
    requires
        0 <= i < s.len(),
    ensures
        label_sum(s.update(i, v)) + s[i] == label_sum(s) + v,
    decreases s.len(),
{
    let s2 = s.update(i, v);
    if i == s.len() - 1 {
        assert(s2.drop_last() =~= s.drop_last());
        assert(s2.last() == v);
    } else {
        assert(s2.drop_last() =~= s.drop_last().update(i, v));
        lemma_label_sum_update(s.drop_last(), i, v);
        assert(s2.last() == s.last());
    }
}

/// Lowering the label of one endpoint of a link to the label of the other
/// endpoint preserves `labels_connected`.
proof fn lemma_labels_connected_update(
    p: Puzzle,
    path: Seq<IntersectionOrEdge>,
    labels: Seq<usize>,
    a: Pos,
    b: Pos,
)
    requires
        p.width > 0,
        labels.len() == p.width * p.height,
        labels_connected(p, path, labels),
        linked(p, path, a, b),
    ensures
        labels_connected(p, path, labels.update(cell_index(p, b), labels[cell_index(p, a)])),
{
    let ia = cell_index(p, a);
    let ib = cell_index(p, b);
    lemma_cell_index(p, a);
    lemma_cell_index(p, b);
    let v = labels[ia];
    let l2 = labels.update(ib, v);
    assert(chain_ok(p, path, seq![a, b], a, b));
    assert forall|i: int, j: int|
        #![trigger l2[i], l2[j]]
        0 <= i < l2.len() && 0 <= j < l2.len() && l2[i] == l2[j] implies connected(
        p,
        path,
        index_cell(p, i),
        index_cell(p, j),
    ) by {
        lemma_index_cell(p, i);
        lemma_index_cell(p, j);
        let ci = index_cell(p, i);
        let cj = index_cell(p, j);
        if i == ib && j == ib {
            lemma_connected_refl(p, path, b);
        } else if i == ib {
            assert(labels[j] == labels[ia]);
            assert(connected(p, path, cj, index_cell(p, ia)));
            lemma_connected_extend(p, path, cj, a, b);
            lemma_connected_sym(p, path, cj, b);
        } else if j == ib {
            assert(labels[i] == labels[ia]);
            assert(connected(p, path, ci, index_cell(p, ia)));
            lemma_connected_extend(p, path, ci, a, b);
        } else {
            assert(labels[i] == labels[j]);
        }
    }
}

/// One propagation pass: for every pair of linked cells whose labels
/// differ, lower the larger label to the smaller one. Reports whether any
/// label changed; when none did, the labelling is closed.
fn sweep(p: &Puzzle, path: &Vec<IntersectionOrEdge>, labels: &mut Vec<usize>) -> (changed: bool)
    requires
        p.wf(),
        p.width > 0,
        p.height > 0,
        old(labels)@.len() == p.width * p.height,
        labels_connected(*p, path@, old(labels)@),
    ensures
        final(labels)@.len() == old(labels)@.len(),
        labels_connected(*p, path@, final(labels)@),
        !changed ==> final(labels)@ == old(labels)@ && labels_closed(*p, path@, final(labels)@),
        changed ==> label_sum(final(labels)@) < label_sum(old(labels)@),
{
    let w = p.width as usize;
    let h = p.height as usize;
    let mut changed = false;
    let mut y: usize = 0;
    while y < h
        invariant
            p.wf(),
            p.width > 0,
            p.height > 0,
            w == p.width,
            h == p.height,
            0 <= y <= h,
            labels@.len() == p.width * p.height,
            labels_connected(*p, path@, labels@),
            !changed ==> labels@ == old(labels)@ && closed_upto(*p, path@, labels@, y * w),
            changed ==> label_sum(labels@) < label_sum(old(labels)@),
        decreases h - y,
    {
        let mut x: usize = 0;
        while x < w
            invariant
                p.wf(),
                p.width > 0,
                p.height > 0,
                w == p.width,
                h == p.height,
                0 <= y < h,
                0 <= x <= w,
                labels@.len() == p.width * p.height,
                labels_connected(*p, path@, labels@),
                !changed ==> labels@ == old(labels)@ && closed_upto(*p, path@, labels@, y * w + x),
                changed ==> label_sum(labels@) < label_sum(old(labels)@),
            decreases w - x,
        {
            let ghost c = Pos { x: x as u32, y: y as u32 };
            proof {
                assert(y * w + x < w * h && w * h < 0x4000_0000) by (nonlinear_arith)
                    requires
                        0 <= x < w,
                        0 <= y < h,
                        w <= 0x7FFF,
                        h <= 0x7FFF,
                ;
                assert(cell_in_bounds(p.width, p.height, c));
                lemma_cell_index(*p, c);
                assert(cell_index(*p, c) == y * w + x);
            }
            let k: usize = y * w + x;
            let ghost changed_before_cell = changed;
            let ghost labels_before_cell = labels@;
            if x + 1 < w {
                let e = IntersectionOrEdge::Edge(
                    Edge {
                        pos: Pos { x: (x + 1) as u32, y: y as u32 },
                        dir: EdgeDirection::Vertical,
                    },
                );
                if !contains_node(path, &e) {
                    let ghost r = right_cell(c);
                    proof {
                        assert(cell_in_bounds(p.width, p.height, r));
                        lemma_cell_index(*p, r);
                        assert(cell_index(*p, r) == y * w + x + 1);
                        assert(linked(*p, path@, c, r));
                    }
                    let la = labels[k];
                    let lb = labels[k + 1];
                    if la < lb {
                        proof {
                            lemma_labels_connected_update(*p, path@, labels@, c, r);
                            lemma_label_sum_update(labels@, k + 1 as int, la);
                        }
                        labels.set(k + 1, la);
                        changed = true;
                    } else if lb < la {
                        proof {
                            assert(linked(*p, path@, r, c));
                            lemma_labels_connected_update(*p, path@, labels@, r, c);
                            lemma_label_sum_update(labels@, k as int, lb);
                        }
                        labels.set(k, lb);
                        changed = true;
                    }
                }
            }
            if y + 1 < h {
                let e = IntersectionOrEdge::Edge(
                    Edge {
                        pos: Pos { x: x as u32, y: (y + 1) as u32 },
                        dir: EdgeDirection::Horizontal,
                    },
                );
                if !contains_node(path, &e) {
                    let ghost d = below_cell(c);
                    proof {
                        assert(cell_in_bounds(p.width, p.height, d));
                        lemma_cell_index(*p, d);
                        assert(cell_index(*p, d) == (y + 1) * w + x);
                        assert(linked(*p, path@, c, d));
                    }
                    proof {
                        assert(y * w + x + w < w * h && (y + 1) * w == y * w + w)
                            by (nonlinear_arith)
                            requires
                                0 <= x < w,
                                0 <= y,
                                y + 1 < h,
                        ;
                    }
                    let la = labels[k];
                    let lb = labels[k + w];
                    if la < lb {
                        proof {
                            lemma_labels_connected_update(*p, path@, labels@, c, d);
                            lemma_label_sum_update(labels@, k + w as int, la);
                        }
                        labels.set(k + w, la);
                        changed = true;
                    } else if lb < la {
                        proof {
                            assert(linked(*p, path@, d, c));
                            lemma_labels_connected_update(*p, path@, labels@, d, c);
                            lemma_label_sum_update(labels@, k as int, lb);
                        }
                        labels.set(k, lb);
                        changed = true;
                    }
                }
            }
            proof {
                if !changed {
                    assert(labels@ == labels_before_cell && !changed_before_cell);
                    assert(canon_ok(*p, path@, labels@, c));
                    assert forall|i: int| 0 <= i < y * w + x + 1 implies canon_ok(
                        *p,
                        path@,
                        labels@,
                        #[trigger] index_cell(*p, i),
                    ) by {
                        if i == y * w + x {
                            assert(index_cell(*p, i) == c);
                        }
                    }
                }
            }
            x = x + 1;
        }
        proof {
            assert(y * w + w == (y + 1) * w) by (nonlinear_arith);
        }
        y = y + 1;
    }
    proof {
        if !changed {
            assert(h * w == p.width * p.height) by (nonlinear_arith)
                requires
                    w == p.width,
                    h == p.height,
            ;
            lemma_closed_upto_closed(*p, path@, labels@);
        }
    }
    changed
}

/// Labels every cell with its region: cells carry equal labels exactly
/// when the path leaves them in the same region.
pub fn compute_labels(p: &Puzzle, path: &Vec<IntersectionOrEdge>) -> (labels: Vec<usize>)
    requires
        p.wf(),
        p.width > 0,
        p.height > 0,
    ensures
        labels@.len() == p.width * p.height,
        labels_connected(*p, path@, labels@),
        labels_closed(*p, path@, labels@),
{
    let w = p.width as usize;
    let h = p.height as usize;
    proof {
        assert(w * h < 0x4000_0000) by (nonlinear_arith)
            requires
                0 < w <= 0x7FFF,
                0 < h <= 0x7FFF,
        ;
    }
    let n: usize = w * h;
    let mut labels: Vec<usize> = Vec::new();
    let mut i: usize = 0;
    while i < n
        invariant
            labels@.len() == i,
            0 <= i <= n,
            forall|j: int| 0 <= j < i ==> labels@[j] == j,
        decreases n - i,
    {
        labels.push(i);
        i = i + 1;
    }
    proof {
        assert forall|a: int, b: int|
            #![trigger labels@[a], labels@[b]]
            0 <= a < labels@.len() && 0 <= b < labels@.len() && labels@[a] == labels@[b] implies
            connected(*p, path@, index_cell(*p, a), index_cell(*p, b)) by {
            assert(labels@[a] == a && labels@[b] == b);
            lemma_index_cell(*p, a);
            lemma_connected_refl(*p, path@, index_cell(*p, a));
        }
    }
    loop
        invariant
            p.wf(),
            p.width > 0,
            p.height > 0,
            labels@.len() == p.width * p.height,
            labels_connected(*p, path@, labels@),
        ensures
            labels_closed(*p, path@, labels@),
        decreases label_sum(labels@),
    {
        let changed = sweep(p, path, &mut labels);
        if !changed {
            break ;
        }
    }
    labels
}

} // verus!
