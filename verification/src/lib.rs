//! Resolution of locally installed NuGet packages against their remote
//! registries, producing a deterministic manifest of (id, version, canonical
//! download URL, content hash) records.
//!
//! The core of the library is the [`nuget::NuGet`] resolver: it discovers each
//! registry's package-base-address endpoint through a single-flight cache (at
//! most one service-index fetch per registry per run), optionally confirms
//! that the requested version is published, builds the canonical download URL,
//! and hashes the local artifact.
//!
//! Failure policy: collect-and-report.  Every input descriptor reaches exactly
//! one terminal state (`Resolved`, `NotFound`, `Failed` or `Skipped`), in
//! input order; no failure aborts the resolution of its siblings.

pub mod listing;
pub mod net;
pub mod nuget;
pub mod nix_hash;
pub mod service_index;
pub mod text;
pub mod types;
pub mod url_builder;
pub mod urlenc;
pub mod version;
