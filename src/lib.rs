//! A parimutuel wager engine for chat channels: participants stake points on
//! the outcomes of a wager, and the pool is split among the winners.

pub mod bet;
pub mod bet_usecase;
pub mod command;
pub mod lifecycle;
pub mod match_usecase;
pub mod message;
pub mod model;
pub mod order;
pub mod request;
pub mod settlement;
pub mod statistic;
pub mod store;
pub mod user_usecase;
