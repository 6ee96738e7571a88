//! Rules engine and room logic of the Guandan card game server.

pub mod types;
pub mod indexed;
pub mod errors;
pub mod cards;
pub mod combinations;
pub mod round;
pub mod match_state;
pub mod identity;
pub mod text;
pub mod rooms;
pub mod views;
pub mod config;
pub mod transport;
pub mod rate_limit;
pub mod engine;
