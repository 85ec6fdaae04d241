//! Matrix multiplication cell by cell, laid out for a pool of workers, and
//! named counters to instrument it.
//!
//! - `vector`: the inner product of two vectors of scalars.
//! - `matrix`: matrices, the tasks and results of a product, and `multiply`.
//! - `pool`: the same product shared out among workers over channels.
//! - `render`: the textual forms of a matrix.
//! - `metrics`: named counters.

mod channel;
pub mod matrix;
pub mod metrics;
pub mod pool;
pub mod render;
pub mod vector;

pub use matrix::{multiply, Matrix};
pub use metrics::cmap::CmapMetrics;
pub use vector::{dot_product, Vector};
