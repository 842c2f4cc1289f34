//! The decisions of a worker of the L4DDER ladder: what it asks the ladder and the tracker, how fast,
//! and what it makes of the answers.

pub mod config;
pub mod json;
pub mod lane;
pub mod profile;
pub mod rate;
pub mod refresh;
pub mod search;
pub mod session;
pub mod text;
