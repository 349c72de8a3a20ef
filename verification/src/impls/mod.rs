//! Arithmetic on jets and the chain rule.
pub mod jet_chain;
pub mod jet_convert;
pub mod jet_halve;
pub mod jet_laws;
pub mod jet_ops;
