//! Per-interface TCP throughput estimation with operator-adjustable
//! correction factors.
//!
//! The crate holds the logic of the estimator: deriving a bandwidth
//! figure from connection timing and socket-buffer introspection,
//! keeping raw gauge samples per (interface, server) pair, storing
//! strictly positive correction multipliers, and rendering corrected
//! metrics text. All quantities are integers; fractional values such
//! as correction factors are carried in millionths (fixed point with
//! six decimal places), so every stated formula is exact.

pub mod aliases;
pub mod binder;
pub mod control;
pub mod correction;
pub mod metrics;
pub mod parse;
pub mod probe;
pub mod render;
pub mod table;
pub mod text;
