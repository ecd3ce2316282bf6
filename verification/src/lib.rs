//! Solver for a fixed-topology ring puzzle: a board of 4 concentric subrings,
//! each a 12-bit mask of enemy positions over 12 angles. The solver finds the
//! shortest sequence of ring rotations and row shifts (bounded by a small
//! maximum) that brings the board into a state solvable within its action
//! budget, and returns that move sequence plus summary statistics.

pub mod eval;
pub mod moves;
pub mod rotate;
pub mod search;
pub mod zigzag;

pub use eval::{Solution, get_solution};
pub use moves::{Ring, RingMovement};
pub use search::{MAX_TURNS, SolveError, find_solution, find_solution_at_turn, solve};

