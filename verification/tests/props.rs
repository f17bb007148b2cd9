use witness::{
    check_solution, solve, Colour, ColouredSymbol, Edge, EdgeDirection, IntersectionOrEdge, Pos,
    Puzzle,
};

fn dot_puzzle() -> Puzzle {
    Puzzle {
        width: 1,
        height: 1,
        sources: vec![IntersectionOrEdge::Intersection(Pos { x: 0, y: 0 })],
        exits: vec![IntersectionOrEdge::Intersection(Pos { x: 1, y: 1 })],
        broken: vec![],
        dots: vec![IntersectionOrEdge::Edge(Edge {
            pos: Pos { x: 0, y: 0 },
            dir: EdgeDirection::Vertical,
        })],
        squares: vec![],
        suns: vec![],
    }
}

#[test]
fn path_shape_and_dots_concrete() {
    let puzzle = dot_puzzle();
    let path = solve(&puzzle).expect("the dot puzzle has a solution");
    // The verified checker accepts the returned path: shape, bounds,
    // no duplicates, adjacency, broken, dots, squares and suns all hold.
    assert!(check_solution(&puzzle, &path));
    // Spot-check the shape properties directly.
    assert!(puzzle.sources.contains(&path[0]));
    assert!(puzzle.exits.contains(&path[path.len() - 1]));
    for w in path.windows(2) {
        let one_is_edge = matches!(w[0], IntersectionOrEdge::Edge(_))
            != matches!(w[1], IntersectionOrEdge::Edge(_));
        assert!(one_is_edge);
    }
    for i in 0..path.len() {
        for j in (i + 1)..path.len() {
            assert!(path[i] != path[j]);
        }
    }
    // The dot lies on the path.
    assert!(path.contains(&puzzle.dots[0]));
}

#[test]
fn broken_concrete() {
    let broken_edge = IntersectionOrEdge::Edge(Edge {
        pos: Pos { x: 0, y: 0 },
        dir: EdgeDirection::Vertical,
    });
    let puzzle = Puzzle {
        width: 1,
        height: 1,
        sources: vec![IntersectionOrEdge::Intersection(Pos { x: 0, y: 0 })],
        exits: vec![IntersectionOrEdge::Intersection(Pos { x: 1, y: 1 })],
        broken: vec![broken_edge],
        dots: vec![],
        squares: vec![],
        suns: vec![],
    };
    let path = solve(&puzzle).expect("one corner path remains");
    assert!(check_solution(&puzzle, &path));
    assert!(!path.contains(&puzzle.broken[0]));
}

#[test]
fn squares_partition_concrete() {
    let puzzle = Puzzle {
        width: 1,
        height: 2,
        sources: vec![IntersectionOrEdge::Intersection(Pos { x: 0, y: 1 })],
        exits: vec![IntersectionOrEdge::Intersection(Pos { x: 1, y: 1 })],
        broken: vec![],
        dots: vec![],
        squares: vec![
            ColouredSymbol {
                pos: Pos { x: 0, y: 0 },
                colour: Colour::Black,
            },
            ColouredSymbol {
                pos: Pos { x: 0, y: 1 },
                colour: Colour::White,
            },
        ],
        suns: vec![],
    };
    let path = solve(&puzzle).expect("the line can separate the two squares");
    assert!(check_solution(&puzzle, &path));
    // The only line separating the cells is the middle horizontal edge.
    assert!(path.contains(&IntersectionOrEdge::Edge(Edge {
        pos: Pos { x: 0, y: 1 },
        dir: EdgeDirection::Horizontal,
    })));
}

#[test]
fn two_suns_as_suns_sat() {
    // Two orange suns in one region: the count of orange elements is two.
    let puzzle = Puzzle {
        width: 1,
        height: 2,
        sources: vec![IntersectionOrEdge::Intersection(Pos { x: 0, y: 1 })],
        exits: vec![IntersectionOrEdge::Intersection(Pos { x: 1, y: 1 })],
        broken: vec![],
        dots: vec![],
        squares: vec![],
        suns: vec![
            ColouredSymbol {
                pos: Pos { x: 0, y: 0 },
                colour: Colour::Orange,
            },
            ColouredSymbol {
                pos: Pos { x: 0, y: 1 },
                colour: Colour::Orange,
            },
        ],
    };
    let path = solve(&puzzle).expect("both suns can share a region");
    assert!(check_solution(&puzzle, &path));
    // The middle horizontal edge may not carry the line: it would split
    // the suns into two regions of one orange element each.
    assert!(!path.contains(&IntersectionOrEdge::Edge(Edge {
        pos: Pos { x: 0, y: 1 },
        dir: EdgeDirection::Horizontal,
    })));
}

#[test]
fn sun_and_square_pair_by_colour() {
    // A sun pairs with a square of its colour in the same region.
    let puzzle = Puzzle {
        width: 1,
        height: 2,
        sources: vec![IntersectionOrEdge::Intersection(Pos { x: 0, y: 1 })],
        exits: vec![IntersectionOrEdge::Intersection(Pos { x: 1, y: 1 })],
        broken: vec![],
        dots: vec![],
        squares: vec![ColouredSymbol {
            pos: Pos { x: 0, y: 0 },
            colour: Colour::Blue,
        }],
        suns: vec![ColouredSymbol {
            pos: Pos { x: 0, y: 1 },
            colour: Colour::Blue,
        }],
    };
    let path = solve(&puzzle).expect("the sun pairs with the square");
    assert!(check_solution(&puzzle, &path));
    assert!(!path.contains(&IntersectionOrEdge::Edge(Edge {
        pos: Pos { x: 0, y: 1 },
        dir: EdgeDirection::Horizontal,
    })));
}

#[test]
fn solve_twice_both_valid() {
    // Solving the same puzzle twice returns results that both satisfy
    // every rule, whichever paths the solver picks.
    let puzzle = Puzzle {
        width: 2,
        height: 2,
        sources: vec![IntersectionOrEdge::Intersection(Pos { x: 0, y: 2 })],
        exits: vec![IntersectionOrEdge::Intersection(Pos { x: 2, y: 0 })],
        broken: vec![],
        dots: vec![],
        squares: vec![],
        suns: vec![],
    };
    let first = solve(&puzzle).expect("an open grid is solvable");
    let second = solve(&puzzle).expect("an open grid is solvable");
    assert!(check_solution(&puzzle, &first));
    assert!(check_solution(&puzzle, &second));
}

#[test]
fn degenerate_strip_sat() {
    // A 0-wide strip still applies the topology rules; the region-count
    // rule is suppressed.
    let puzzle = Puzzle {
        width: 0,
        height: 2,
        sources: vec![IntersectionOrEdge::Intersection(Pos { x: 0, y: 0 })],
        exits: vec![IntersectionOrEdge::Intersection(Pos { x: 0, y: 2 })],
        broken: vec![],
        dots: vec![],
        squares: vec![],
        suns: vec![],
    };
    assert_eq!(
        solve(&puzzle),
        Some(vec![
            IntersectionOrEdge::Intersection(Pos { x: 0, y: 0 }),
            IntersectionOrEdge::Edge(Edge {
                pos: Pos { x: 0, y: 0 },
                dir: EdgeDirection::Vertical
            }),
            IntersectionOrEdge::Intersection(Pos { x: 0, y: 1 }),
            IntersectionOrEdge::Edge(Edge {
                pos: Pos { x: 0, y: 1 },
                dir: EdgeDirection::Vertical
            }),
            IntersectionOrEdge::Intersection(Pos { x: 0, y: 2 })
        ])
    );
}

#[test]
fn degenerate_strip_unsat() {
    let puzzle = Puzzle {
        width: 2,
        height: 0,
        sources: vec![IntersectionOrEdge::Intersection(Pos { x: 0, y: 0 })],
        exits: vec![IntersectionOrEdge::Intersection(Pos { x: 2, y: 0 })],
        broken: vec![IntersectionOrEdge::Intersection(Pos { x: 1, y: 0 })],
        dots: vec![],
        squares: vec![],
        suns: vec![],
    };
    assert_eq!(solve(&puzzle), None);
}

fn neighbours(width: u32, height: u32, node: &IntersectionOrEdge) -> Vec<IntersectionOrEdge> {
    let mut adj = Vec::new();
    match node {
        IntersectionOrEdge::Intersection(pos) => {
            if pos.x > 0 {
                adj.push(IntersectionOrEdge::Edge(Edge {
                    pos: Pos {
                        x: pos.x - 1,
                        y: pos.y,
                    },
                    dir: EdgeDirection::Horizontal,
                }));
            }
            if pos.y > 0 {
                adj.push(IntersectionOrEdge::Edge(Edge {
                    pos: Pos {
                        x: pos.x,
                        y: pos.y - 1,
                    },
                    dir: EdgeDirection::Vertical,
                }));
            }
            if pos.x < width {
                adj.push(IntersectionOrEdge::Edge(Edge {
                    pos: *pos,
                    dir: EdgeDirection::Horizontal,
                }));
            }
            if pos.y < height {
                adj.push(IntersectionOrEdge::Edge(Edge {
                    pos: *pos,
                    dir: EdgeDirection::Vertical,
                }));
            }
        }
        IntersectionOrEdge::Edge(e) => {
            adj.push(IntersectionOrEdge::Intersection(e.pos));
            let end = match e.dir {
                EdgeDirection::Horizontal => Pos {
                    x: e.pos.x + 1,
                    y: e.pos.y,
                },
                EdgeDirection::Vertical => Pos {
                    x: e.pos.x,
                    y: e.pos.y + 1,
                },
            };
            adj.push(IntersectionOrEdge::Intersection(end));
        }
    }
    adj
}

fn count_valid_paths(puzzle: &Puzzle, path: &mut Vec<IntersectionOrEdge>) -> usize {
    let mut found = if check_solution(puzzle, path) { 1 } else { 0 };
    let current = *path.last().unwrap();
    for next in neighbours(puzzle.width, puzzle.height, &current) {
        if !path.contains(&next) {
            path.push(next);
            found += count_valid_paths(puzzle, path);
            path.pop();
        }
    }
    found
}

/// Exhaustively enumerates every simple path from every flagged source and
/// counts, with the verified checker as the oracle, how many satisfy all
/// rules.
fn exhaustive_solution_count(puzzle: &Puzzle) -> usize {
    let mut found = 0;
    for source in &puzzle.sources {
        let mut path = vec![*source];
        found += count_valid_paths(puzzle, &mut path);
    }
    found
}

#[test]
fn unsat_agrees_with_exhaustive_enumeration() {
    // When the solver reports no solution, brute force agrees.
    let puzzle = Puzzle {
        width: 1,
        height: 1,
        sources: vec![IntersectionOrEdge::Intersection(Pos { x: 0, y: 0 })],
        exits: vec![IntersectionOrEdge::Intersection(Pos { x: 1, y: 1 })],
        broken: vec![IntersectionOrEdge::Edge(Edge {
            pos: Pos { x: 1, y: 0 },
            dir: EdgeDirection::Vertical,
        })],
        dots: vec![IntersectionOrEdge::Intersection(Pos { x: 1, y: 0 })],
        squares: vec![],
        suns: vec![],
    };
    assert_eq!(solve(&puzzle), None);
    assert_eq!(exhaustive_solution_count(&puzzle), 0);
}

#[test]
fn sat_agrees_with_exhaustive_enumeration() {
    let puzzle = dot_puzzle();
    assert!(matches!(solve(&puzzle), Some(_)));
    assert!(exhaustive_solution_count(&puzzle) > 0);
}

#[test]
fn last_square_on_cell_wins() {
    // Symbol lists are applied in order: a later square on the same cell
    // replaces an earlier one, so this puzzle behaves as if both cells
    // were black and any line works.
    let puzzle = Puzzle {
        width: 1,
        height: 2,
        sources: vec![IntersectionOrEdge::Intersection(Pos { x: 0, y: 0 })],
        exits: vec![IntersectionOrEdge::Intersection(Pos { x: 1, y: 2 })],
        broken: vec![],
        dots: vec![],
        squares: vec![
            ColouredSymbol {
                pos: Pos { x: 0, y: 0 },
                colour: Colour::White,
            },
            ColouredSymbol {
                pos: Pos { x: 0, y: 1 },
                colour: Colour::Black,
            },
            ColouredSymbol {
                pos: Pos { x: 0, y: 0 },
                colour: Colour::Black,
            },
        ],
        suns: vec![],
    };
    let path = solve(&puzzle).expect("two black squares may share a region");
    assert!(check_solution(&puzzle, &path));
}
