//! Versions, repositories, changesets and the workspace model.
pub mod semver_bridge;
pub mod version;
pub mod repo;
pub mod changeset;
pub mod workspace;
