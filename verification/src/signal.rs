//! Signals: how they are stored, how they are read between samples, and what
//! reading them from files decides.
pub mod buffer;
pub mod ingest;
pub mod interpolation;
