//! A focus enforcer: a break timer, daily requirements and locked time
//! ranges, combined by a simulation of future state changes into the
//! present session state, the time it next changes and the reason.

pub mod break_timer;
pub mod config;
pub mod constraints;
pub mod manager;
pub mod registry;
pub mod simulator;
pub mod text;
pub mod time;
