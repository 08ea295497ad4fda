//! What formulas mean over recorded samples.
pub mod stream;
pub mod symbols;
pub mod violations;
pub mod window;
