//! A backgammon rules engine: legal-turn enumeration, validation and play,
//! with every rule stated as a contract over a mathematical model of the board.

mod chance;
pub mod commandlineplayer;
pub mod laws;
pub mod layout;
pub mod notation;
pub mod randomplayer;
pub mod rustgammon;
