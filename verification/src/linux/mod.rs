//! Read-only discovery of the host's microcode-relevant state.
//!
//! Nothing here touches the system: the contents of files, the environment and
//! the registry are handed in as plain values, and only CPUID is asked
//! directly. Where a source is unavailable the result says so, so that
//! inspection and artifact building work on any host.

pub mod cpuid;
pub mod cpuinfo;
pub mod discover;
pub mod error;
pub mod firmware;
pub mod law;
pub mod markers;
pub mod observe;
pub mod paths;
pub mod sysfs;
pub mod virt;

pub use cpuinfo::{parse_cpuinfo, CpuInfoCpu};
pub use discover::{
    discover_system, system_from_cpuinfo_text, system_from_identity, with_platform_mask, HostCpu,
    SystemState,
};
pub use error::LinuxError;
pub use firmware::{probe_firmware_tree, FirmwareTree};
pub use paths::{default_firmware_paths, default_initrd_candidates};
pub use sysfs::{read_microcode_version, CpuOnlineState};
pub use virt::{
    detect_virtualization, detect_virtualization_info, MicrocodeAuthority, VirtualizationInfo,
    VirtualizationKind,
};
