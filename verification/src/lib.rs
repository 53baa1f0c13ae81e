//! Ranking of champions for one player: the champion catalog is joined with
//! the player's mastery points, the completed challenges and a table of win
//! rates, and the rows that result are ordered by a score.

pub mod identity;
pub mod score;
pub mod model;
pub mod sources;
pub mod fusion;
pub mod ranker;
pub mod scoring;
pub mod pipeline;
