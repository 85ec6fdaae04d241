//! Counters for instrumenting a program.

pub mod cmap;
