//! Deterministic `newc` CPIO support.
//!
//! This is written out here rather than taken from a general-purpose cpio
//! crate because the resulting artifact is a boot-critical, reproducible
//! output: we need total control over ordering, padding, timestamps, inode
//! numbers, uid/gid, mode bits and the trailer. Any incidental metadata from
//! the building machine leaking into the archive would break reproducibility.

pub mod error;
pub mod format;
pub mod law;
pub mod layout;
pub mod reader;
pub mod writer;

pub use error::ArchiveError;
pub use format::{ALIGNMENT, MODE_DIR, MODE_FILE, NEWC_HEADER_SIZE, NEWC_MAGIC, TRAILER_NAME};
pub use reader::{find_first_archive_end, scan_early_cpio, CpioEntry, CpioReader, EarlyCpioScan};
pub use writer::{CpioBuilder, CpioFile};
