//! Turns blobs and release trees into a normalised, deduplicated,
//! deterministically ordered catalog of microcode patches.

pub mod collection;
pub mod compare;
pub mod contents;
pub mod diff;
pub mod error;
pub mod gather;
pub mod ingest;
pub mod law;
pub mod manifest;
pub mod sidecar;

pub use collection::{Catalog, DetectedFormat, SourceBlob};
pub use diff::{diff_catalogs, CatalogDiff, DiffEntry, DiffKind};
pub use error::CatalogError;
pub use ingest::{detect_format, ingest_bytes, IngestOptions};
pub use manifest::{Manifest, ManifestEntry};
pub use sidecar::AmdSidecar;
