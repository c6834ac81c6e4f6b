//! Scoring engine for attack/defend competitions: service probes, the
//! uptime and SLA counters they feed, injects that extend the probe set at
//! game-clock deadlines, and the data behind the scoreboard.

pub mod address;
pub mod config;
pub mod checks;
pub mod scoring;
pub mod injects;
pub mod store;
pub mod web;
pub mod cli;
