//! Interfaces to external token registries.

pub mod tokens;
