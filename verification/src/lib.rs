//! Graph-driven controller core: scheduling, parsing and bookkeeping logic.

pub mod advisor;
pub mod commands;
pub mod control;
pub mod engine;
pub mod executor;
pub mod graph;
pub mod history;
pub mod layers;
pub mod metrics;
pub mod notifications;
pub mod parsers;
pub mod pattern;
pub mod ports;
pub mod pty;
pub mod registry;
pub mod scheduler;
pub mod strmap;
pub mod text;
pub mod workspace;
