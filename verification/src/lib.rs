//! Release planning for a multi-crate workspace.
//!
//! The library models a workspace as a dependency graph between its members,
//! derives a publish order from it, tracks which members are released or
//! ignored during a session, and plans the manifest edits of a version bump.

pub mod ident;
pub mod metadata;
pub mod weight;
pub mod topo;
pub mod rank;
pub mod workspace;
pub mod graph;
pub mod query;
pub mod session;
pub mod version;
pub mod manifest;
pub mod bump;
pub mod publish;
pub mod readiness;
pub mod apidoc;
pub mod rows;
pub mod diagram;
