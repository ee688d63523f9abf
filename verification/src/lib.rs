//! Solver for the Dog and Rabbit board game.
//!
//! Three dogs and a rabbit move on a graph of eleven cells, laid out on a
//! grid of three rows and five columns. The rabbit wins by reaching one of
//! its home cells, the dogs win by trapping it. For a position and the side
//! that moves next, the solver weighs every legal move by simulated games
//! and gives the position after the best one.

pub mod entity;
pub mod board;
pub mod adjacency;
pub mod judge;
pub mod moves;
pub mod estimate;
pub mod policy;
pub mod rollout;
pub mod lookahead;
pub mod solver;
pub mod text;
pub mod options;

pub use adjacency::neighbors;
pub use board::Game;
pub use entity::Entity;
pub use estimate::{pick_best, Estimate};
pub use judge::{is_win_for, judge, GameState};
pub use lookahead::{play_good, prob_to_win_good, rollplay_good};
pub use moves::{choices, play};
pub use options::{respond, Answer, Opt};
pub use policy::{play_random, play_random_at, play_trivial};
pub use rollout::{prob_to_win, rollplay_random};
pub use solver::{assess, best_candidate, solve, Candidate};
pub use text::{answer, GameError};
