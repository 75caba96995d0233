//! Decoder for a simulation tool's binary time-series log format.
//!
//! A log file consists of a self-describing header (a fixed format tag, a
//! descriptor count, and a list of typed, named variable descriptors) followed
//! by an unbounded sequence of fixed-layout binary rows, one value per
//! descriptor per row.  The decoder resolves the numeric type identifiers of
//! the header against a fixed registry, reads rows until the input is
//! exhausted, and transposes the row-major values into one column of 64-bit
//! float samples per descriptor.
//!
//! Floating-point values are represented throughout by their IEEE 754 bit
//! patterns (`u64` for 64-bit floats, `u32` for 32-bit floats), so that every
//! numeric claim is a claim about integers; callers reinterpret the bits.

pub mod dataset;
pub mod header;
pub mod laws;
pub mod model;
pub mod numeric;
pub mod primitives;
pub mod rows;
pub mod text;
pub mod types;
