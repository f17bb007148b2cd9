//! A solver for a family of grid path puzzles: given a board description,
//! it decides whether a path from a chosen source to a chosen exit exists
//! that satisfies every placed symbol, and if so returns one such path.
//!
//! The decision itself is delegated to the Z3 SMT solver; every returned
//! path is validated by a verified checker, so the `solve` contract
//! guarantees each returned path obeys the puzzle's rules.

pub mod board;
pub mod checker;
pub mod geometry;
pub mod laws;
pub mod puzzle;
pub mod regions;
pub mod smt;
pub mod solve;

pub use checker::check_solution;
pub use puzzle::Colour;
pub use puzzle::ColouredSymbol;
pub use puzzle::Edge;
pub use puzzle::EdgeDirection;
pub use puzzle::IntersectionOrEdge;
pub use puzzle::Pos;
pub use puzzle::Puzzle;
pub use solve::solve;
