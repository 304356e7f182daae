//! The status of a system and of its CPUs.

use vstd::prelude::*;
use crate::linux::discover::{SystemModel, SystemState};
use crate::model::cpu::CpuIdentity;
use crate::model::patch::{PatchMeta, PatchModel};
use crate::text::strings;

verus! {

/// High-level status returned by `ucodectl status` / `plan`.
#[derive(Debug, Clone, Copy, PartialEq, Eq, Structural)]
pub enum SystemStatus {
    /// Running revision equals best available; boot artifact matches (or no boot check).
    UpToDate,
    /// A newer patch is installed in firmware but will not be active until reboot
    /// with an updated early image.
    InstalledButNotBootable,
    /// The early CPIO / UKI embeds older microcode than firmware provides.
    BootArtifactOutdated,
    /// Firmware has a newer revision than what is currently running.
    RebootRequired,
    /// No patch in the catalog applies to this CPU.
    NoCompatiblePatch,
    /// Multiple conflicting patches share the best revision.
    AmbiguousMatch,
    /// Selected patch would lower the running revision.
    UnsafeDowngrade,
    /// CPUs in the system have different signatures or revisions.
    MixedCpuConfiguration,
    /// Available firmware is older than the BIOS-loaded revision.
    FirmwareOlderThanBios,
    /// Guest VM; microcode is expected to be host-managed.
    VirtualMachineHostManaged,
    /// Structural validity is fine but provenance was not verified.
    SignatureUnverified,
    /// Patch is not eligible for runtime (late) update given current revision.
    RuntimeUpdateUnsupported,
    /// Platform ID unknown; selection cannot proceed safely for Intel.
    PlatformIdUnknown,
    /// Not enough information to decide.
    Unknown,
}

impl SystemStatus {
    pub open spec fn status_text(self) -> Seq<char> {
        match self {
            SystemStatus::UpToDate => "up_to_date"@,
            SystemStatus::InstalledButNotBootable => "installed_but_not_bootable"@,
            SystemStatus::BootArtifactOutdated => "boot_artifact_outdated"@,
            SystemStatus::RebootRequired => "reboot_required"@,
            SystemStatus::NoCompatiblePatch => "no_compatible_patch"@,
            SystemStatus::AmbiguousMatch => "ambiguous_match"@,
            SystemStatus::UnsafeDowngrade => "unsafe_downgrade"@,
            SystemStatus::MixedCpuConfiguration => "mixed_cpu_configuration"@,
            SystemStatus::FirmwareOlderThanBios => "firmware_older_than_bios"@,
            SystemStatus::VirtualMachineHostManaged => "virtual_machine_host_managed"@,
            SystemStatus::SignatureUnverified => "signature_unverified"@,
            SystemStatus::RuntimeUpdateUnsupported => "runtime_update_unsupported"@,
            SystemStatus::PlatformIdUnknown => "platform_id_unknown"@,
            SystemStatus::Unknown => "unknown"@,
        }
    }

    /// Place in the order of urgency; the lowest decides for the system.
    pub open spec fn urgency(self) -> int {
        match self {
            SystemStatus::AmbiguousMatch => 0,
            SystemStatus::PlatformIdUnknown => 1,
            SystemStatus::NoCompatiblePatch => 2,
            SystemStatus::UnsafeDowngrade => 3,
            SystemStatus::MixedCpuConfiguration => 4,
            SystemStatus::BootArtifactOutdated => 5,
            SystemStatus::InstalledButNotBootable => 6,
            SystemStatus::RebootRequired => 7,
            SystemStatus::FirmwareOlderThanBios => 8,
            SystemStatus::RuntimeUpdateUnsupported => 9,
            SystemStatus::SignatureUnverified => 10,
            SystemStatus::VirtualMachineHostManaged => 11,
            SystemStatus::Unknown => 12,
            SystemStatus::UpToDate => 13,
        }
    }

    pub fn as_str(self) -> (r: &'static str)
        ensures
            r@ == self.status_text(),
    {
        match self {
            SystemStatus::UpToDate => "up_to_date",
            SystemStatus::InstalledButNotBootable => "installed_but_not_bootable",
            SystemStatus::BootArtifactOutdated => "boot_artifact_outdated",
            SystemStatus::RebootRequired => "reboot_required",
            SystemStatus::NoCompatiblePatch => "no_compatible_patch",
            SystemStatus::AmbiguousMatch => "ambiguous_match",
            SystemStatus::UnsafeDowngrade => "unsafe_downgrade",
            SystemStatus::MixedCpuConfiguration => "mixed_cpu_configuration",
            SystemStatus::FirmwareOlderThanBios => "firmware_older_than_bios",
            SystemStatus::VirtualMachineHostManaged => "virtual_machine_host_managed",
            SystemStatus::SignatureUnverified => "signature_unverified",
            SystemStatus::RuntimeUpdateUnsupported => "runtime_update_unsupported",
            SystemStatus::PlatformIdUnknown => "platform_id_unknown",
            SystemStatus::Unknown => "unknown",
        }
    }

    pub(crate) fn place(self) -> (r: u8)
        ensures
            r == self.urgency(),
    {
        match self {
            SystemStatus::AmbiguousMatch => 0,
            SystemStatus::PlatformIdUnknown => 1,
            SystemStatus::NoCompatiblePatch => 2,
            SystemStatus::UnsafeDowngrade => 3,
            SystemStatus::MixedCpuConfiguration => 4,
            SystemStatus::BootArtifactOutdated => 5,
            SystemStatus::InstalledButNotBootable => 6,
            SystemStatus::RebootRequired => 7,
            SystemStatus::FirmwareOlderThanBios => 8,
            SystemStatus::RuntimeUpdateUnsupported => 9,
            SystemStatus::SignatureUnverified => 10,
            SystemStatus::VirtualMachineHostManaged => 11,
            SystemStatus::Unknown => 12,
            SystemStatus::UpToDate => 13,
        }
    }
}

/// Per-CPU evaluation snapshot.
#[derive(Debug)]
pub struct CpuEvaluation {
    pub processor: u32,
    pub identity: CpuIdentity,
    pub status: SystemStatus,
    pub running_revision: Option<u32>,
    pub best_available_revision: Option<u32>,
    pub embedded_revision: Option<u32>,
    pub best_patch: Option<PatchMeta>,
    pub reasons: Vec<String>,
}

/// The contents of a [`CpuEvaluation`].
#[verifier::ext_equal]
pub struct EvaluationModel {
    pub processor: u32,
    pub identity: CpuIdentity,
    pub status: SystemStatus,
    pub running_revision: Option<u32>,
    pub best_available_revision: Option<u32>,
    pub embedded_revision: Option<u32>,
    pub best_patch: Option<PatchModel>,
    pub reasons: Seq<Seq<char>>,
}

impl View for CpuEvaluation {
    type V = EvaluationModel;

    open spec fn view(&self) -> EvaluationModel {
        EvaluationModel {
            processor: self.processor,
            identity: self.identity,
            status: self.status,
            running_revision: self.running_revision,
            best_available_revision: self.best_available_revision,
            embedded_revision: self.embedded_revision,
            best_patch: match self.best_patch {
                Some(p) => Some(p@),
                None => None,
            },
            reasons: strings(self.reasons@),
        }
    }
}

pub open spec fn evaluations_view(v: Seq<CpuEvaluation>) -> Seq<EvaluationModel> {
    v.map_values(|e: CpuEvaluation| e@)
}

pub open spec fn concerns_of(system: SystemModel) -> Seq<SystemStatus> {
    if system.mixed_signature || system.mixed_revision {
        seq![SystemStatus::MixedCpuConfiguration]
    } else {
        Seq::empty()
    }
}

/// Summarise system-level concerns from host state alone.
///
/// Virtualization is **not** pushed here as a status concern that overrides
/// patch evaluation — it is reported separately via messages / overall logic.
pub fn host_concerns(system: &SystemState) -> (r: Vec<SystemStatus>)
    ensures
        r@ == concerns_of(system@),
{
    let mut out: Vec<SystemStatus> = Vec::new();
    if system.mixed_signature || system.mixed_revision {
        out.push(SystemStatus::MixedCpuConfiguration);
    }
    assert(out@ =~= concerns_of(system@));
    out
}

} // verus!
