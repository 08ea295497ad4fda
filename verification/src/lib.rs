//! SENTIL: runtime verification for Signal Temporal Logic (STL) and its
//! probabilistic extension, PrSTL.
pub mod error;
pub mod formula;
pub mod gpu;
pub mod monitor;
pub mod number;
pub mod semantics;
pub mod signal;
pub mod spec_builder;
pub mod stats;
pub mod text;
