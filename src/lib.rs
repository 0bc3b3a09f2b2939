//! Core logic of an experiment runner that builds and tests every
//! (package, toolchain) pair of an experiment: the task graph that workers
//! drain, per-task log capture, the result store, the disk-space watcher's
//! purge barrier, the coordinator's experiment registry, the agent protocol
//! built on it, report retries, and the graph's DOT rendering.

pub mod agent;
pub mod disk;
pub mod dot;
pub mod experiments;
pub mod graph;
pub mod logs;
pub mod reports;
pub mod results;
pub mod runner;
