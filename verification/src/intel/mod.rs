//! Intel microcode container support.
//!
//! Layout of one microcode update (Intel SDM Vol. 3A, "Microcode Update
//! Facilities"), all fields little-endian `u32`:
//!
//! ```text
//! offset  field
//!   0x00  hdrver     1 = microcode, 2 = In-Field Scan test image
//!   0x04  rev        update revision
//!   0x08  date       packed BCD, 0xMMDDYYYY
//!   0x0c  sig        CPUID.1:EAX this update targets
//!   0x10  cksum      dword sum of header+data == 0
//!   0x14  ldrver     loader revision, 1
//!   0x18  pf         platform-flags bitmask
//!   0x1c  datasize   payload size, 0 means 2000
//!   0x20  totalsize  whole update size, 0 means 2048
//!   0x24  metasize   size of the metadata region inside the payload
//!   0x28  min_req_ver  Minimum Runtime Update Revision (0 = unspecified)
//!   0x2c  reserved
//! ```
//!
//! Optionally followed, at `0x30 + datasize`, by an extended signature table:
//! `count`, `checksum`, 12 reserved bytes, then `count` times `(sig, pf, cksum)`.

pub mod bundle;
pub mod dat;
pub mod error;
pub mod header;
pub mod law;
pub mod parsed;
pub mod validate;

pub use bundle::{scan_for_microcode, IntelBundle, IntelEntry};
pub use error::IntelError;
pub use header::{
    IntelExtendedSignature, IntelHeader, EXTENDED_SIGNATURE_SIZE, EXTENDED_TABLE_HEADER_SIZE,
    HEADER_SIZE, MIN_UPDATE_SIZE,
};
pub use validate::{validate_entry, IntelValidationMode};
