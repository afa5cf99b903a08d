//! Publishing of built packages into on-disk repositories: a reproducible
//! archive entry encoder and the engine that routes packages into repository
//! backends under a conflict policy.

pub mod backend;
pub mod pack;
pub mod repo;
pub mod store;
pub mod version;
