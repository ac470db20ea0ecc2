//! The players: each turns a game state into a grid of move weights.

pub mod cli;
pub mod countboundmcts;
pub mod guessing;
pub mod minmax;
pub mod onelookahead;
pub mod strategy;
