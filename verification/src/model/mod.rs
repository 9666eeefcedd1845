//! The model registry and the local model cache.

pub mod manager;
pub mod registry;
