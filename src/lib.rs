//! The iterated prisoner's dilemma: payoffs, a closed roster of strategies,
//! a match engine with action noise, a round-robin tournament and a
//! generational selection loop.
pub mod chance;
pub mod engine;
pub mod evolution;
pub mod game;
pub mod laws;
pub mod strategy;
pub mod tournament;
