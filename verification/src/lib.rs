//! Scheduling logic of a small nudge sender: configuration rules, the daily
//! schedule with its message rotation, the pending queue and the tick that
//! delivers at most one due message.

pub mod cli;
pub mod config;
pub mod delivery;
pub mod launchagent;
pub mod paths;
pub mod rng;
pub mod rotation;
pub mod schedule;
pub mod state;
pub mod text;
pub mod tick;
pub mod time;
