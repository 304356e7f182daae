//! Boot-artifact inspection for early microcode.
//!
//! Responsibilities:
//!   * find the leading uncompressed newc CPIO on an initrd;
//!   * extract `kernel/x86/microcode/{GenuineIntel,AuthenticAMD}.bin`;
//!   * inspect UKI PE sections, especially `.ucode`;
//!   * never mutate a signed UKI.

pub mod content;
pub mod early;
pub mod error;
pub mod found;
pub mod initrd;
pub mod law;
pub mod rivals;
pub mod uki;

pub use early::{build_early_cpio, EarlyBuildInput, EarlyBuildResult};
pub use error::BootError;
pub use initrd::{extract_embedded_microcode, inspect_initrd_bytes, EmbeddedBlob, InitrdInspection};
pub use uki::{inspect_uki_bytes, UkiInspection, UkiSectionInfo};
