//! Working-tree state and synchronisation of repositories.
pub mod ops;
pub mod status;
