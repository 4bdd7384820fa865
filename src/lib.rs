//! A solver for five-letter word guessing puzzles: a constraint model built from
//! feedback, a candidate filter, and a guess scorer that maximises eliminations.
pub mod word;
pub mod constraint;
pub mod feedback;
pub mod scorer;
pub mod frequency;
pub mod solver;

pub use word::{Word, word_from_str, word_to_str, word_contains};
pub use constraint::{Letter, word_valid, apply, candidates};
pub use feedback::{simulate_feedback, feedback_constraints, parse_feedback, get_result};
pub use scorer::{count_eliminated, score, next_guess};
pub use solver::{Step, SolveError, solver_step};
pub use frequency::{known_positions, coverage_score, frequency_guess};
