//! Manifest synchronization engine for a Python project manager.
//!
//! The library models a project manifest (project metadata, pinned
//! packages, named scripts), a textual on-disk format for it with a
//! verified round trip, and the decision logic that keeps the manifest
//! in step with an isolated package environment: an entry is recorded
//! or dropped only after the corresponding external action reported
//! success.

pub mod engine;
pub mod manifest;
pub mod pkgspec;
pub mod registry;
pub mod reqfile;
pub mod store;
pub mod text;

pub use manifest::Config;
pub use manifest::Project;
