//! Uniform random sampling of rows from a Parquet file, rendered as a padded
//! text table.
//!
//! - [`sampler`] chooses which row ordinals to keep.
//! - [`filter`] walks the rows of a file one at a time and keeps the chosen ones.
//! - [`table`] renders headers and rows as a padded text table.
//! - [`pipeline`] resolves the headers and wires the parts together for one file.

pub mod filter;
pub mod pipeline;
pub mod sampler;
pub mod table;
