//! Derives the include-search paths that a C/C++ code-intelligence engine
//! needs for a project built against a base toolkit and a set of addon
//! modules: it compiles per-module exclusion rules, walks directory trees,
//! aggregates and sorts the admitted paths, and shapes the final
//! configuration record.

pub mod strutil;
pub mod rules;
pub mod walk;
pub mod order;
pub mod agg;
pub mod config;
pub mod laws;
