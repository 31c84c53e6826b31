//! A verified core for a football-data pipeline: fetched league, schedule
//! and match-report documents — handed over as plain table models — are
//! turned into fixtures, rosters and per-player match statistics; a
//! relational store saves them under idempotent upsert transactions and an
//! in-place legacy migration; and a Poisson-based engine projects match
//! outcome probabilities from the stored history with exact rational
//! arithmetic. The network transports, the HTML parser, the SQLite file and
//! the floating-point rim of the engine live with the embedding shell.

pub mod analysis;
pub mod dates;
pub mod db;
pub mod dom;
pub mod errors;
pub mod fetch;
pub mod fixtures;
pub mod league;
pub mod match_stats;
pub mod team_schedule;
pub mod text;
pub mod urls;
