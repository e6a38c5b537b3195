//! Read-only queries over one version-control repository: its local
//! branches with their checkout status, and the history reachable from HEAD.

pub mod branches;
pub mod history;
pub mod model;
pub mod repo;
mod store;
