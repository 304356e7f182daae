//! The host as a whole: its CPUs, firmware and execution environment.

use vstd::prelude::*;
use crate::catalog::manifest::opt_text;
use crate::linux::cpuid::{read_brand, read_features, read_leaf, read_vendor, FeatureReading, Leaf};
use crate::linux::cpuinfo::{cpuinfo_of, parse_cpuinfo, CpuInfoCpu};
use crate::linux::error::{LinuxError, LinuxFault};
use crate::linux::firmware::{
    default_listing, default_tree, files_total, probe_firmware_tree, FirmwareTree, TreeModel,
};
use crate::linux::sysfs::{
    cpu_online_state, online_of, opt_str, read_microcode_version, version_of, CpuOnlineState,
};
use crate::linux::virt::{
    detect_virtualization_info, detectable, HostSignals, MicrocodeAuthority, SignalsModel,
    VirtualizationInfo, VirtualizationKind, VirtualizationModel,
};
use crate::model::cpu::{
    CpuIdentity, CpuSignature, ObservationConfidence, ObservationModel, ObservationScope,
    ObservedModel, PlatformMask, RevisionObservation, RevisionSource, Vendor,
};
use crate::text::{chars_of, string_of, str_eq, trim, trim_text};
use crate::windows::opt_observation;

verus! {

/// One logical CPU with microcode-relevant fields filled in.
#[derive(Debug)]
pub struct HostCpu {
    pub processor: u32,
    pub identity: CpuIdentity,
    pub online: CpuOnlineState,
    pub physical_id: Option<u32>,
    pub core_id: Option<u32>,
    pub brand: Option<String>,
    /// Active microcode observation with source and availability semantics.
    pub revision: RevisionObservation,
}

/// The contents of a [`HostCpu`].
#[verifier::ext_equal]
pub struct HostCpuModel {
    pub processor: u32,
    pub identity: CpuIdentity,
    pub online: CpuOnlineState,
    pub physical_id: Option<u32>,
    pub core_id: Option<u32>,
    pub brand: Option<Seq<char>>,
    pub revision: ObservationModel,
}

impl View for HostCpu {
    type V = HostCpuModel;

    open spec fn view(&self) -> HostCpuModel {
        HostCpuModel {
            processor: self.processor,
            identity: self.identity,
            online: self.online,
            physical_id: self.physical_id,
            core_id: self.core_id,
            brand: opt_text(self.brand),
            revision: self.revision@,
        }
    }
}

pub open spec fn cpus_view(v: Seq<HostCpu>) -> Seq<HostCpuModel> {
    v.map_values(|c: HostCpu| c@)
}

/// Windows registry metadata whose scope is the system rather than one CPU.
#[derive(Debug)]
pub struct WindowsMicrocodeMetadata {
    pub current_revision: Option<RevisionObservation>,
    pub previous_revision: Option<RevisionObservation>,
    /// Number of processor registry keys that exposed `Previous Update Revision`.
    pub registry_keys_observed: usize,
    pub logical_processor_count: usize,
}

/// The contents of [`WindowsMicrocodeMetadata`].
#[verifier::ext_equal]
pub struct WindowsModel {
    pub current_revision: Option<ObservationModel>,
    pub previous_revision: Option<ObservationModel>,
    pub registry_keys_observed: nat,
    pub logical_processor_count: nat,
}

impl View for WindowsMicrocodeMetadata {
    type V = WindowsModel;

    open spec fn view(&self) -> WindowsModel {
        WindowsModel {
            current_revision: opt_observation(self.current_revision),
            previous_revision: opt_observation(self.previous_revision),
            registry_keys_observed: self.registry_keys_observed as nat,
            logical_processor_count: self.logical_processor_count as nat,
        }
    }
}

pub open spec fn opt_windows(w: Option<WindowsMicrocodeMetadata>) -> Option<WindowsModel> {
    match w {
        Some(x) => Some(x@),
        None => None,
    }
}

/// Aggregate system view used by status / plan / match.
#[derive(Debug)]
pub struct SystemState {
    pub cpus: Vec<HostCpu>,
    pub windows_microcode: Option<WindowsMicrocodeMetadata>,
    /// Distinct CPU identities across the system (signature + platform).
    pub unique_identities: Vec<CpuIdentity>,
    pub mixed_signature: bool,
    pub mixed_revision: bool,
    pub virtualization: VirtualizationKind,
    pub virtualization_info: VirtualizationInfo,
    pub firmware: FirmwareTree,
    /// Kernel release string when available.
    pub kernel_release: Option<String>,
    /// Whether any CPU is offline.
    pub has_offline_cpus: bool,
    /// Source of the discovery (`proc`, `cpuid`, `manual`, …).
    pub source: String,
    pub os: String,
}

/// The contents of a [`SystemState`].
#[verifier::ext_equal]
pub struct SystemModel {
    pub cpus: Seq<HostCpuModel>,
    pub windows_microcode: Option<WindowsModel>,
    pub unique_identities: Seq<CpuIdentity>,
    pub mixed_signature: bool,
    pub mixed_revision: bool,
    pub virtualization: VirtualizationKind,
    pub virtualization_info: VirtualizationModel,
    pub firmware: TreeModel,
    pub kernel_release: Option<Seq<char>>,
    pub has_offline_cpus: bool,
    pub source: Seq<char>,
    pub os: Seq<char>,
}

impl View for SystemState {
    type V = SystemModel;

    open spec fn view(&self) -> SystemModel {
        SystemModel {
            cpus: cpus_view(self.cpus@),
            windows_microcode: opt_windows(self.windows_microcode),
            unique_identities: self.unique_identities@,
            mixed_signature: self.mixed_signature,
            mixed_revision: self.mixed_revision,
            virtualization: self.virtualization,
            virtualization_info: self.virtualization_info@,
            firmware: self.firmware@,
            kernel_release: opt_text(self.kernel_release),
            has_offline_cpus: self.has_offline_cpus,
            source: self.source@,
            os: self.os@,
        }
    }
}

/// The sysfs files of one logical CPU, where they could be read.
#[derive(Debug)]
pub struct CpuFiles {
    pub version: Option<String>,
    pub online: Option<String>,
}

pub open spec fn files_view(v: Seq<CpuFiles>) -> Seq<(Option<Seq<char>>, Option<Seq<char>>)> {
    v.map_values(|f: CpuFiles| (opt_text(f.version), opt_text(f.online)))
}

/// What Windows reports of its processors.
#[derive(Debug)]
pub struct WindowsReading {
    /// Active logical processors over all processor groups.
    pub count: u32,
    /// `Update Revision` of the first processor's key.
    pub current: RevisionObservation,
    /// `Previous Update Revision` of the first processor's key.
    pub previous: Option<RevisionObservation>,
}

/// The contents of a [`WindowsReading`].
#[verifier::ext_equal]
pub struct WindowsReadingModel {
    pub count: u32,
    pub current: ObservationModel,
    pub previous: Option<ObservationModel>,
}

impl View for WindowsReading {
    type V = WindowsReadingModel;

    open spec fn view(&self) -> WindowsReadingModel {
        WindowsReadingModel {
            count: self.count,
            current: self.current@,
            previous: opt_observation(self.previous),
        }
    }
}

pub open spec fn opt_windows_reading(w: Option<WindowsReading>) -> Option<WindowsReadingModel> {
    match w {
        Some(x) => Some(x@),
        None => None,
    }
}

/// Everything about the host that is read outside.
#[derive(Debug)]
pub struct HostReadings {
    pub signals: HostSignals,
    /// For each default firmware path, the number of files in it if it is a
    /// directory.
    pub firmware_counts: Vec<Option<usize>>,
    /// `/proc/cpuinfo`.
    pub cpuinfo: Option<String>,
    /// The sysfs files of the CPUs that `/proc/cpuinfo` lists, in its order.
    pub cpu_files: Vec<CpuFiles>,
    /// What Windows reports; none on every other system.
    pub windows: Option<WindowsReading>,
}

/// The contents of [`HostReadings`].
#[verifier::ext_equal]
pub struct ReadingsModel {
    pub signals: SignalsModel,
    pub firmware_counts: Seq<Option<usize>>,
    pub cpuinfo: Option<Seq<char>>,
    pub cpu_files: Seq<(Option<Seq<char>>, Option<Seq<char>>)>,
    pub windows: Option<WindowsReadingModel>,
}

impl View for HostReadings {
    type V = ReadingsModel;

    open spec fn view(&self) -> ReadingsModel {
        ReadingsModel {
            signals: self.signals@,
            firmware_counts: self.firmware_counts@,
            cpuinfo: opt_text(self.cpuinfo),
            cpu_files: files_view(self.cpu_files@),
            windows: opt_windows_reading(self.windows),
        }
    }
}

/// What CPUID reports of the processor.
#[derive(Debug)]
pub struct CpuidReading {
    pub vendor: Option<String>,
    pub features: Option<FeatureReading>,
    /// The version leaf, leaf 1.
    pub leaf: Leaf,
    pub brand: Option<String>,
}

/// The contents of a [`CpuidReading`].
#[verifier::ext_equal]
pub struct CpuidModel {
    pub vendor: Option<Seq<char>>,
    pub features: Option<FeatureReading>,
    pub leaf: Leaf,
    pub brand: Option<Seq<char>>,
}

impl View for CpuidReading {
    type V = CpuidModel;

    open spec fn view(&self) -> CpuidModel {
        CpuidModel {
            vendor: opt_text(self.vendor),
            features: self.features,
            leaf: self.leaf,
            brand: opt_text(self.brand),
        }
    }
}

// --- what the readings mean ---------------------------------------------------------

/// The position of the CPU that stands for the system: the first online one,
/// else the first.
pub open spec fn first_online(cpus: Seq<HostCpuModel>, from: int) -> Option<int>
    decreases cpus.len() - from,
{
    if from < 0 || from >= cpus.len() {
        None
    } else if cpus[from].online == CpuOnlineState::Online {
        Some(from)
    } else {
        first_online(cpus, from + 1)
    }
}

pub open spec fn primary_of(cpus: Seq<HostCpuModel>) -> Option<HostCpuModel> {
    match first_online(cpus, 0) {
        Some(i) => Some(cpus[i]),
        None => if cpus.len() > 0 {
            Some(cpus[0])
        } else {
            None
        },
    }
}

pub open spec fn has_vendor(cpus: Seq<HostCpuModel>, vendor: Vendor) -> bool {
    exists|i: int| 0 <= i < cpus.len() && (#[trigger] cpus[i]).identity.vendor == vendor
}

/// The vendors that occur, Intel first.
pub open spec fn vendors_of(cpus: Seq<HostCpuModel>) -> Seq<Vendor> {
    (if has_vendor(cpus, Vendor::Intel) {
        seq![Vendor::Intel]
    } else {
        Seq::empty()
    }) + (if has_vendor(cpus, Vendor::Amd) {
        seq![Vendor::Amd]
    } else {
        Seq::empty()
    })
}

/// The two are the same kind of CPU to a microcode loader.
pub open spec fn same_kind(a: CpuIdentity, b: CpuIdentity) -> bool {
    a.vendor == b.vendor && a.signature == b.signature && a.platform_mask == b.platform_mask
}

pub open spec fn has_kind(list: Seq<CpuIdentity>, id: CpuIdentity) -> bool {
    exists|i: int| 0 <= i < list.len() && same_kind(#[trigger] list[i], id)
}

/// The first CPU of each kind.
pub open spec fn unique_of(cpus: Seq<HostCpuModel>) -> Seq<CpuIdentity>
    decreases cpus.len(),
{
    if cpus.len() == 0 {
        Seq::empty()
    } else {
        let front = unique_of(cpus.drop_last());
        if has_kind(front, cpus.last().identity) {
            front
        } else {
            front.push(cpus.last().identity)
        }
    }
}

pub open spec fn same_signature(a: HostCpuModel, b: HostCpuModel) -> bool {
    a.identity.vendor == b.identity.vendor && a.identity.signature == b.identity.signature
}

/// Two CPUs differ in vendor or signature.
pub open spec fn mixed_signatures(cpus: Seq<HostCpuModel>) -> bool {
    exists|i: int, j: int|
        0 <= i < cpus.len() && 0 <= j < cpus.len() && !(#[trigger] same_signature(
            cpus[i],
            cpus[j],
        ))
}

pub open spec fn differ(a: Option<u32>, b: Option<u32>) -> bool {
    a is Some && b is Some && a != b
}

/// Two CPUs run different known revisions.
pub open spec fn mixed_revisions(cpus: Seq<HostCpuModel>) -> bool {
    exists|i: int, j: int|
        0 <= i < cpus.len() && 0 <= j < cpus.len() && #[trigger] differ(
            cpus[i].revision.revision(),
            cpus[j].revision.revision(),
        )
}

pub open spec fn any_offline(cpus: Seq<HostCpuModel>) -> bool {
    exists|i: int| 0 <= i < cpus.len() && (#[trigger] cpus[i]).online == CpuOnlineState::Offline
}

/// The firmware on the host; it is looked at on Linux only.
pub open spec fn host_firmware(r: ReadingsModel) -> TreeModel {
    if r.signals.os == "linux"@ {
        default_tree(r.firmware_counts)
    } else {
        TreeModel::empty()
    }
}

/// The system that a list of CPUs makes up.
pub open spec fn system_of(
    cpus: Seq<HostCpuModel>,
    source: Seq<char>,
    windows: Option<WindowsModel>,
    r: ReadingsModel,
    virt: VirtualizationModel,
) -> SystemModel {
    SystemModel {
        cpus,
        windows_microcode: windows,
        unique_identities: unique_of(cpus),
        mixed_signature: mixed_signatures(cpus),
        mixed_revision: mixed_revisions(cpus),
        virtualization: virt.kind,
        virtualization_info: virt,
        firmware: host_firmware(r),
        kernel_release: match r.signals.osrelease {
            Some(s) => Some(trim_text(s)),
            None => None,
        },
        has_offline_cpus: any_offline(cpus),
        source,
        os: r.signals.os,
    }
}

/// What `/proc/cpuinfo` tells of the active revision. All ones is the kernel's
/// way to say that it cannot see it.
pub open spec fn proc_revision(value: Option<u32>) -> ObservationModel {
    match value {
        Some(v) => if v == u32::MAX {
            ObservationModel::of(
                RevisionSource::ProcCpuinfo,
                ObservedModel::Unavailable {
                    reason:
                        "kernel reported sentinel 0xffffffff; the active revision is hidden or virtualized by the host"@,
                },
            )
        } else {
            ObservationModel::of(
                RevisionSource::ProcCpuinfo,
                ObservedModel::Known { revision: v, raw: None },
            )
        },
        None => ObservationModel::of(
            RevisionSource::ProcCpuinfo,
            ObservedModel::Unavailable {
                reason: "/proc/cpuinfo does not report a microcode revision"@,
            },
        ),
    }
}

/// A CPU that `/proc/cpuinfo` lists. Its identity carries the revision that
/// was observed, if one was.
pub open spec fn listed_cpu(
    info: CpuInfoCpu,
    revision: ObservationModel,
    online: CpuOnlineState,
    brand: Option<Seq<char>>,
) -> HostCpuModel {
    HostCpuModel {
        processor: info.processor,
        identity: CpuIdentity { current_revision: revision.revision(), ..info.identity() },
        online,
        physical_id: info.physical_id,
        core_id: info.core_id,
        brand,
        revision,
    }
}

/// The files of the CPU at a position; those that were not read are missing.
pub open spec fn files_at(files: Seq<(Option<Seq<char>>, Option<Seq<char>>)>, i: int) -> (
    Option<Seq<char>>,
    Option<Seq<char>>,
) {
    if i < files.len() {
        files[i]
    } else {
        (None, None)
    }
}

/// The revision of a CPU: that of sysfs where it is readable, which is more
/// authoritative, else that of `/proc/cpuinfo`.
pub open spec fn observed_revision(info: CpuInfoCpu, version: Option<Seq<char>>) -> ObservationModel {
    match version_of(version) {
        Ok(Some(rev)) => ObservationModel::of(
            RevisionSource::LinuxSysfs,
            ObservedModel::Known { revision: rev, raw: None },
        ),
        _ => proc_revision(info.microcode),
    }
}

pub open spec fn proc_cpus(
    infos: Seq<CpuInfoCpu>,
    files: Seq<(Option<Seq<char>>, Option<Seq<char>>)>,
    brand: Option<Seq<char>>,
) -> Seq<HostCpuModel> {
    Seq::new(
        infos.len(),
        |i: int|
            listed_cpu(
                infos[i],
                observed_revision(infos[i], files_at(files, i).0),
                online_of(infos[i].processor, files_at(files, i).1),
                brand,
            ),
    )
}

pub open spec fn text_cpus(infos: Seq<CpuInfoCpu>) -> Seq<HostCpuModel> {
    infos.map_values(
        |info: CpuInfoCpu|
            listed_cpu(info, proc_revision(info.microcode), CpuOnlineState::Online, None),
    )
}

/// The processor's name, if it has a non-empty one.
pub open spec fn brand_of(raw: Option<Seq<char>>) -> Option<Seq<char>> {
    match raw {
        Some(s) => if trim_text(s).len() > 0 {
            Some(trim_text(s))
        } else {
            None
        },
        None => None,
    }
}

/// The signature of the processor: leaf 1 as it stands where it agrees with
/// the decoded family, model and stepping, else their encoding.
pub open spec fn cpuid_signature(vendor: Vendor, f: FeatureReading, eax: u32) -> CpuSignature {
    let raw = CpuSignature(eax);
    let (family, model) = (f.folded_family(), f.folded_model(vendor));
    if raw.display_family() == family && raw.display_model(vendor) == model
        && raw.stepping_field() == f.stepping {
        raw
    } else {
        CpuSignature(CpuSignature::encode(vendor, family, model, f.stepping as u32))
    }
}

/// An observation of the system as a whole.
pub open spec fn system_wide(o: ObservationModel) -> ObservationModel {
    ObservationModel {
        scope: ObservationScope::System,
        confidence: ObservationConfidence::Reported,
        ..o
    }
}

pub open spec fn windows_metadata(w: WindowsReadingModel) -> WindowsModel {
    WindowsModel {
        current_revision: Some(system_wide(w.current)),
        previous_revision: match w.previous {
            Some(p) => Some(system_wide(p)),
            None => None,
        },
        registry_keys_observed: if w.previous is Some {
            1
        } else {
            0
        },
        logical_processor_count: processor_count(Some(w)) as nat,
    }
}

pub open spec fn processor_count(w: Option<WindowsReadingModel>) -> u32 {
    match w {
        Some(x) => if x.count > 1 {
            x.count
        } else {
            1
        },
        None => 1,
    }
}

/// The revision observed beside CPUID.
pub open spec fn cpuid_revision(w: Option<WindowsReadingModel>) -> ObservationModel {
    match w {
        Some(x) => system_wide(x.current),
        None => ObservationModel::of(
            RevisionSource::Unavailable,
            ObservedModel::Unavailable {
                reason: "no active microcode revision source is available off Linux/Windows"@,
            },
        ),
    }
}

/// The same CPU as often as there are processors.
pub open spec fn cpuid_cpus(
    vendor: Vendor,
    signature: CpuSignature,
    brand: Option<Seq<char>>,
    w: Option<WindowsReadingModel>,
) -> Seq<HostCpuModel> {
    Seq::new(
        processor_count(w) as nat,
        |i: int|
            HostCpuModel {
                processor: i as u32,
                identity: CpuIdentity {
                    vendor,
                    signature,
                    platform_mask: None,
                    current_revision: cpuid_revision(w).revision(),
                },
                online: CpuOnlineState::Online,
                physical_id: None,
                core_id: None,
                brand,
                revision: cpuid_revision(w),
            },
    )
}

pub open spec fn cpuid_system(c: CpuidModel, r: ReadingsModel, virt: VirtualizationModel) -> Result<
    SystemModel,
    LinuxFault,
> {
    let vendor = match c.vendor {
        Some(v) => Vendor::of_cpuid_text(v),
        None => Vendor::of_cpuid_text(Seq::empty()),
    };
    match (vendor, c.features) {
        (Some(v), Some(f)) => Ok(
            system_of(
                cpuid_cpus(v, cpuid_signature(v, f, c.leaf.eax), brand_of(c.brand), r.windows),
                "cpuid"@,
                match r.windows {
                    Some(w) => Some(windows_metadata(w)),
                    None => None,
                },
                r,
                virt,
            ),
        ),
        _ => Err(LinuxFault::NoCpus),
    }
}

/// The CPUs that `/proc/cpuinfo` lists, where it can be read and understood.
pub open spec fn proc_infos(r: ReadingsModel) -> Option<Seq<CpuInfoCpu>> {
    match r.cpuinfo {
        Some(text) => match cpuinfo_of(text) {
            Ok(infos) => Some(infos),
            Err(_) => None,
        },
        None => None,
    }
}

pub open spec fn proc_system(
    infos: Seq<CpuInfoCpu>,
    r: ReadingsModel,
    brand: Option<Seq<char>>,
    virt: VirtualizationModel,
) -> SystemModel {
    system_of(proc_cpus(infos, r.cpu_files, brand_of(brand)), "proc"@, None, r, virt)
}

pub open spec fn masked(id: CpuIdentity, mask: PlatformMask) -> CpuIdentity {
    if id.vendor == Vendor::Intel && id.platform_mask is None {
        CpuIdentity { platform_mask: Some(mask), ..id }
    } else {
        id
    }
}

pub open spec fn masked_cpus(cpus: Seq<HostCpuModel>, mask: PlatformMask) -> Seq<HostCpuModel> {
    cpus.map_values(
        |c: HostCpuModel| HostCpuModel { identity: masked(c.identity, mask), ..c },
    )
}

pub open spec fn with_mask(s: SystemModel, mask: PlatformMask) -> SystemModel {
    SystemModel {
        cpus: masked_cpus(s.cpus, mask),
        unique_identities: s.unique_identities.map_values(|id: CpuIdentity| masked(id, mask)),
        ..s
    }
}

pub open spec fn manual_system(identity: CpuIdentity, os: Seq<char>) -> SystemModel {
    SystemModel {
        cpus: seq![
            HostCpuModel {
                processor: 0,
                identity,
                online: CpuOnlineState::Online,
                physical_id: Some(0u32),
                core_id: Some(0u32),
                brand: None,
                revision: ObservationModel::of(
                    RevisionSource::Manual,
                    ObservedModel::Unavailable {
                        reason: "manual identity does not include an active microcode revision"@,
                    },
                ),
            },
        ],
        windows_microcode: None,
        unique_identities: seq![identity],
        mixed_signature: false,
        mixed_revision: false,
        virtualization: VirtualizationKind::Unknown,
        virtualization_info: VirtualizationModel {
            kind: VirtualizationKind::Unknown,
            authority: MicrocodeAuthority::Unknown,
            reason: "manual identity; virtualization not probed"@,
            hypervisor_vendor: None,
            hypervisor_bit: false,
            hyperv_root: false,
        },
        firmware: TreeModel::empty(),
        kernel_release: None,
        has_offline_cpus: false,
        source: "manual"@,
        os,
    }
}

// --- discovering --------------------------------------------------------------------

impl SystemState {
    /// Representative CPU for selection (first online CPU, else first).
    pub fn primary_cpu(&self) -> (r: Option<&HostCpu>)
        ensures
            match r {
                Some(c) => primary_of(self@.cpus) == Some(c@),
                None => primary_of(self@.cpus) is None,
            },
    {
        let ghost all = self@.cpus;
        let mut i: usize = 0;
        while i < self.cpus.len()
            invariant
                i <= self.cpus@.len(),
                all == cpus_view(self.cpus@),
                first_online(all, 0) == first_online(all, i as int),
            decreases self.cpus@.len() - i,
        {
            assert(all[i as int] == self.cpus@[i as int]@);
            if self.cpus[i].online == CpuOnlineState::Online {
                return Some(&self.cpus[i]);
            }
            i = i + 1;
        }
        if self.cpus.len() > 0 {
            assert(all[0] == self.cpus@[0]@);
            Some(&self.cpus[0])
        } else {
            None
        }
    }

    pub fn primary_identity(&self) -> (r: Option<&CpuIdentity>)
        ensures
            match r {
                Some(id) => primary_of(self@.cpus) matches Some(c) && *id == c.identity,
                None => primary_of(self@.cpus) is None,
            },
    {
        match self.primary_cpu() {
            Some(c) => Some(&c.identity),
            None => None,
        }
    }

    pub fn vendors(&self) -> (r: Vec<Vendor>)
        ensures
            r@ == vendors_of(self@.cpus),
    {
        let ghost all = self@.cpus;
        let mut intel = false;
        let mut amd = false;
        let mut i: usize = 0;
        while i < self.cpus.len()
            invariant
                i <= self.cpus@.len(),
                all == cpus_view(self.cpus@),
                intel == has_vendor(all.take(i as int), Vendor::Intel),
                amd == has_vendor(all.take(i as int), Vendor::Amd),
            decreases self.cpus@.len() - i,
        {
            let vendor = self.cpus[i].identity.vendor;
            let ghost before = all.take(i as int);
            let ghost after = all.take(i + 1);
            assert(after =~= before.push(self.cpus@[i as int]@));
            assert(after[i as int].identity.vendor == vendor);
            assert forall|v: Vendor| has_vendor(before, v) implies has_vendor(after, v) by {
                let k = choose|k: int|
                    0 <= k < before.len() && (#[trigger] before[k]).identity.vendor == v;
                assert(after[k].identity.vendor == v);
            }
            assert forall|v: Vendor| v != vendor && has_vendor(after, v) implies has_vendor(
                before,
                v,
            ) by {
                let k = choose|k: int|
                    0 <= k < after.len() && (#[trigger] after[k]).identity.vendor == v;
                assert(before[k].identity.vendor == v);
            }
            match vendor {
                Vendor::Intel => {
                    intel = true;
                },
                Vendor::Amd => {
                    amd = true;
                },
            }
            i = i + 1;
        }
        assert(all.take(i as int) =~= all);
        let mut out: Vec<Vendor> = Vec::new();
        if intel {
            out.push(Vendor::Intel);
        }
        if amd {
            out.push(Vendor::Amd);
        }
        assert(out@ =~= vendors_of(all));
        out
    }
}

fn trimmed(s: &str) -> (r: String)
    ensures
        r@ == trim_text(s@),
{
    let chars = chars_of(s);
    string_of(trim(chars.as_slice()))
}

/// The distinct identities of a list of CPUs.
fn unique_identities(cpus: &Vec<HostCpu>) -> (r: Vec<CpuIdentity>)
    ensures
        r@ == unique_of(cpus_view(cpus@)),
{
    let ghost all = cpus_view(cpus@);
    let mut out: Vec<CpuIdentity> = Vec::new();
    let mut i: usize = 0;
    while i < cpus.len()
        invariant
            i <= cpus@.len(),
            all == cpus_view(cpus@),
            out@ == unique_of(all.take(i as int)),
        decreases cpus@.len() - i,
    {
        let id = cpus[i].identity;
        assert(all.take(i + 1).drop_last() =~= all.take(i as int));
        assert(all.take(i + 1).last() == cpus@[i as int]@);
        let mut known = false;
        let mut k: usize = 0;
        while k < out.len()
            invariant
                k <= out@.len(),
                known == exists|j: int| 0 <= j < k && same_kind(#[trigger] out@[j], id),
            decreases out@.len() - k,
        {
            let u = out[k];
            if u.vendor == id.vendor && u.signature == id.signature && u.platform_mask
                == id.platform_mask {
                assert(same_kind(out@[k as int], id));
                known = true;
            }
            k = k + 1;
        }
        if !known {
            out.push(id);
        }
        i = i + 1;
    }
    assert(all.take(i as int) =~= all);
    out
}

/// Whether two CPUs differ in vendor or signature.
fn has_mixed_signatures(cpus: &Vec<HostCpu>) -> (r: bool)
    ensures
        r == mixed_signatures(cpus_view(cpus@)),
{
    let ghost all = cpus_view(cpus@);
    let mut i: usize = 0;
    while i < cpus.len()
        invariant
            i <= cpus@.len(),
            all == cpus_view(cpus@),
            forall|k: int| 0 <= k < i ==> #[trigger] same_signature(all[k], all[0]),
        decreases cpus@.len() - i,
    {
        assert(all[i as int] == cpus@[i as int]@);
        assert(all[0] == cpus@[0]@);
        let a = cpus[i].identity;
        let b = cpus[0].identity;
        if !(a.vendor == b.vendor && a.signature == b.signature) {
            assert(!same_signature(all[i as int], all[0]));
            return true;
        }
        i = i + 1;
    }
    assert forall|a: int, b: int| 0 <= a < all.len() && 0 <= b < all.len() implies same_signature(
        all[a],
        all[b],
    ) by {
        assert(same_signature(all[a], all[0]));
        assert(same_signature(all[b], all[0]));
    }
    false
}

/// Whether two CPUs run different known revisions.
fn has_mixed_revisions(cpus: &Vec<HostCpu>) -> (r: bool)
    ensures
        r == mixed_revisions(cpus_view(cpus@)),
{
    let ghost all = cpus_view(cpus@);
    let mut first: Option<u32> = None;
    let ghost mut at: int = 0;
    let mut i: usize = 0;
    while i < cpus.len()
        invariant
            i <= cpus@.len(),
            all == cpus_view(cpus@),
            first is Some ==> 0 <= at < i && all[at].revision.revision() == first,
            forall|k: int|
                0 <= k < i ==> {
                    let rev = (#[trigger] all[k]).revision.revision();
                    rev is None || rev == first
                },
        decreases cpus@.len() - i,
    {
        assert(all[i as int] == cpus@[i as int]@);
        let rev = cpus[i].revision.known_revision();
        if let Some(v) = rev {
            match first {
                None => {
                    first = Some(v);
                    proof {
                        at = i as int;
                    }
                },
                Some(f) => {
                    if f != v {
                        assert(differ(
                            all[at].revision.revision(),
                            all[i as int].revision.revision(),
                        ));
                        return true;
                    }
                },
            }
        }
        i = i + 1;
    }
    assert forall|a: int, b: int| 0 <= a < all.len() && 0 <= b < all.len() implies !differ(
        all[a].revision.revision(),
        all[b].revision.revision(),
    ) by {
        let x = all[a].revision.revision();
        let y = all[b].revision.revision();
        assert(x is None || x == first);
        assert(y is None || y == first);
    }
    false
}

fn has_offline(cpus: &Vec<HostCpu>) -> (r: bool)
    ensures
        r == any_offline(cpus_view(cpus@)),
{
    let ghost all = cpus_view(cpus@);
    let mut i: usize = 0;
    while i < cpus.len()
        invariant
            i <= cpus@.len(),
            all == cpus_view(cpus@),
            forall|k: int| 0 <= k < i ==> (#[trigger] all[k]).online != CpuOnlineState::Offline,
        decreases cpus@.len() - i,
    {
        assert(all[i as int] == cpus@[i as int]@);
        if cpus[i].online == CpuOnlineState::Offline {
            return true;
        }
        i = i + 1;
    }
    false
}

/// The system that a list of CPUs makes up.
pub fn finalise(
    cpus: Vec<HostCpu>,
    source: &str,
    windows_microcode: Option<WindowsMicrocodeMetadata>,
    readings: &HostReadings,
    virt: VirtualizationInfo,
) -> (r: SystemState)
    requires
        files_total(default_listing(readings.firmware_counts@)) <= usize::MAX,
    ensures
        r@ == system_of(
            cpus_view(cpus@),
            source@,
            opt_windows(windows_microcode),
            readings@,
            virt@,
        ),
{
    let mixed_signature = has_mixed_signatures(&cpus);
    let mixed_revision = has_mixed_revisions(&cpus);
    let unique = unique_identities(&cpus);
    let has_offline_cpus = has_offline(&cpus);
    let kernel_release = match &readings.signals.osrelease {
        Some(s) => Some(trimmed(s.as_str())),
        None => None,
    };
    let firmware = if str_eq(readings.signals.os.as_str(), "linux") {
        probe_firmware_tree(readings.firmware_counts.as_slice())
    } else {
        FirmwareTree::default()
    };
    SystemState {
        mixed_signature,
        mixed_revision,
        unique_identities: unique,
        virtualization: virt.kind,
        virtualization_info: virt,
        firmware,
        kernel_release,
        has_offline_cpus,
        source: source.to_owned(),
        os: readings.signals.os.clone(),
        windows_microcode,
        cpus,
    }
}

/// What `/proc/cpuinfo` tells of the active revision.
pub fn revision_from_proc(value: Option<u32>) -> (r: RevisionObservation)
    ensures
        r@ == proc_revision(value),
{
    match value {
        Some(v) => if v == u32::MAX {
            RevisionObservation::unavailable(
                RevisionSource::ProcCpuinfo,
                "kernel reported sentinel 0xffffffff; the active revision is hidden or virtualized by the host",
            )
        } else {
            RevisionObservation::known(v, RevisionSource::ProcCpuinfo)
        },
        None => RevisionObservation::unavailable(
            RevisionSource::ProcCpuinfo,
            "/proc/cpuinfo does not report a microcode revision",
        ),
    }
}

fn host_cpu(
    info: &CpuInfoCpu,
    revision: RevisionObservation,
    online: CpuOnlineState,
    brand: Option<String>,
) -> (r: HostCpu)
    ensures
        r@ == listed_cpu(*info, revision@, online, opt_text(brand)),
{
    let identity = CpuIdentity {
        current_revision: revision.known_revision(),
        ..info.to_identity()
    };
    HostCpu {
        processor: info.processor,
        identity,
        online,
        physical_id: info.physical_id,
        core_id: info.core_id,
        brand,
        revision,
    }
}

/// The system that `/proc/cpuinfo` and sysfs describe.
pub fn system_from_proc(
    infos: &Vec<CpuInfoCpu>,
    readings: &HostReadings,
    brand: &Option<String>,
    virt: VirtualizationInfo,
) -> (r: SystemState)
    requires
        files_total(default_listing(readings.firmware_counts@)) <= usize::MAX,
    ensures
        r@ == proc_system(infos@, readings@, opt_text(*brand), virt@),
{
    let name = brand_name(brand);
    let ghost want = proc_cpus(infos@, readings@.cpu_files, opt_text(name));
    let mut cpus: Vec<HostCpu> = Vec::new();
    let mut i: usize = 0;
    while i < infos.len()
        invariant
            i <= infos@.len(),
            want == proc_cpus(infos@, readings@.cpu_files, opt_text(name)),
            cpus_view(cpus@) =~= want.take(i as int),
        decreases infos@.len() - i,
    {
        let info = &infos[i];
        let mut version: Option<&str> = None;
        let mut online: Option<&str> = None;
        if i < readings.cpu_files.len() {
            let files = &readings.cpu_files[i];
            assert(readings@.cpu_files[i as int] == (opt_text(files.version), opt_text(files.online)));
            if let Some(v) = &files.version {
                version = Some(v.as_str());
            }
            if let Some(v) = &files.online {
                online = Some(v.as_str());
            }
        }
        assert(files_at(readings@.cpu_files, i as int) == (opt_str(version), opt_str(online)));
        // Prefer sysfs revision when present (more authoritative).
        let revision = match read_microcode_version(version) {
            Ok(Some(rev)) => RevisionObservation::known(rev, RevisionSource::LinuxSysfs),
            _ => revision_from_proc(info.microcode),
        };
        let state = cpu_online_state(info.processor, online);
        let cpu = host_cpu(info, revision, state, name.clone());
        let ghost before = cpus@;
        cpus.push(cpu);
        assert(cpus_view(cpus@) =~= cpus_view(before).push(cpu@));
        assert(cpu@ == want[i as int]);
        i = i + 1;
    }
    assert(want.take(i as int) =~= want);
    finalise(cpus, "proc", None, readings, virt)
}

/// The processor's name, if it has a non-empty one.
fn brand_name(raw: &Option<String>) -> (r: Option<String>)
    ensures
        opt_text(r) == brand_of(opt_text(*raw)),
{
    match raw {
        Some(s) => {
            let chars = chars_of(s.as_str());
            let t = trim(chars.as_slice());
            if t.len() > 0 {
                Some(string_of(t))
            } else {
                None
            }
        },
        None => None,
    }
}

/// The system that CPUID describes.
pub fn system_from_cpuid(reading: &CpuidReading, readings: &HostReadings, virt: VirtualizationInfo) -> (r:
    Result<SystemState, LinuxError>)
    requires
        files_total(default_listing(readings.firmware_counts@)) <= usize::MAX,
    ensures
        match r {
            Ok(s) => cpuid_system(reading@, readings@, virt@) == Ok::<_, LinuxFault>(s@),
            Err(e) => cpuid_system(reading@, readings@, virt@) == Err::<SystemModel, _>(e@),
        },
{
    let vendor = match &reading.vendor {
        Some(s) => Vendor::from_cpuid_string(s.as_str()),
        None => {
            proof {
                reveal_strlit("");
                assert(""@ =~= Seq::empty());
            }
            Vendor::from_cpuid_string("")
        },
    };
    let vendor = match vendor {
        Some(v) => v,
        None => {
            return Err(LinuxError::NoCpus);
        },
    };
    let f = match reading.features {
        Some(f) => f,
        None => {
            return Err(LinuxError::NoCpus);
        },
    };
    // Prefer the raw CPUID.1:EAX signature when it round-trips; raw leaf is
    // the authoritative processor signature used by microcode matching.
    let raw = CpuSignature(reading.leaf.eax);
    let family = f.family();
    let model = f.model(vendor);
    let stepping: u32 = f.stepping as u32;
    let signature = if raw.family() == family && raw.model_for(vendor) == model
        && raw.stepping() == stepping {
        raw
    } else {
        CpuSignature::from_fms(vendor, family, model, stepping)
    };
    let brand = brand_name(&reading.brand);
    let count = match &readings.windows {
        Some(w) => if w.count > 1 {
            w.count
        } else {
            1
        },
        None => 1,
    };
    let revision = match &readings.windows {
        Some(w) => w.current.clone().with_scope_confidence(
            ObservationScope::System,
            ObservationConfidence::Reported,
        ),
        None => RevisionObservation::unavailable(
            RevisionSource::Unavailable,
            "no active microcode revision source is available off Linux/Windows",
        ),
    };
    let ghost w = opt_windows_reading(readings.windows);
    let ghost want = cpuid_cpus(vendor, signature, opt_text(brand), w);
    let mut cpus: Vec<HostCpu> = Vec::new();
    let mut processor: u32 = 0;
    while processor < count
        invariant
            processor <= count,
            count == processor_count(w),
            revision@ == cpuid_revision(w),
            want == cpuid_cpus(vendor, signature, opt_text(brand), w),
            cpus_view(cpus@) =~= want.take(processor as int),
        decreases count - processor,
    {
        let identity = CpuIdentity {
            current_revision: revision.known_revision(),
            ..CpuIdentity::new(vendor, signature)
        };
        let cpu = HostCpu {
            processor,
            identity,
            online: CpuOnlineState::Online,
            physical_id: None,
            core_id: None,
            brand: brand.clone(),
            revision: revision.clone(),
        };
        let ghost before = cpus@;
        cpus.push(cpu);
        assert(cpus_view(cpus@) =~= cpus_view(before).push(cpu@));
        assert(cpu@ == want[processor as int]);
        processor = processor + 1;
    }
    assert(want.take(processor as int) =~= want);
    let windows_microcode = match &readings.windows {
        Some(x) => {
            let previous = match &x.previous {
                Some(p) => Some(
                    p.clone().with_scope_confidence(
                        ObservationScope::System,
                        ObservationConfidence::Reported,
                    ),
                ),
                None => None,
            };
            Some(
                WindowsMicrocodeMetadata {
                    registry_keys_observed: if x.previous.is_some() {
                        1
                    } else {
                        0
                    },
                    current_revision: Some(revision),
                    previous_revision: previous,
                    logical_processor_count: count as usize,
                },
            )
        },
        None => None,
    };
    Ok(finalise(cpus, "cpuid", windows_microcode, readings, virt))
}

/// The leaf of a reading is the version leaf.
pub open spec fn of_version_leaf(c: CpuidModel) -> bool {
    c.leaf.number == 1
}

/// The system that CPUID describes, for some reading of its version leaf.
pub open spec fn found_by_cpuid(r: ReadingsModel, result: Result<SystemModel, LinuxFault>) -> bool {
    exists|c: CpuidModel, virt: VirtualizationModel|
        of_version_leaf(c) && detectable(r.signals, virt) && result == #[trigger] cpuid_system(
            c,
            r,
            virt,
        )
}

/// The system that `/proc/cpuinfo` describes, for some processor name.
pub open spec fn found_in_proc(
    infos: Seq<CpuInfoCpu>,
    r: ReadingsModel,
    result: SystemModel,
) -> bool {
    exists|brand: Option<Seq<char>>, virt: VirtualizationModel|
        detectable(r.signals, virt) && result == #[trigger] proc_system(infos, r, brand, virt)
}

/// Asks CPUID about the processor.
fn read_cpuid() -> (r: CpuidReading)
    ensures
        of_version_leaf(r@),
{
    CpuidReading {
        vendor: read_vendor(),
        features: read_features(),
        leaf: read_leaf(1),
        brand: read_brand(),
    }
}

fn discover_from_cpuid(readings: &HostReadings) -> (r: Result<SystemState, LinuxError>)
    requires
        files_total(default_listing(readings.firmware_counts@)) <= usize::MAX,
    ensures
        match r {
            Ok(s) => found_by_cpuid(readings@, Ok(s@)),
            Err(e) => e@ == LinuxFault::NoCpus && found_by_cpuid(readings@, Err(e@)),
        },
{
    let reading = read_cpuid();
    let virt = detect_virtualization_info(&readings.signals);
    let ghost seen = cpuid_system(reading@, readings@, virt@);
    system_from_cpuid(&reading, readings, virt)
}

/// Discover the local system. Off Linux, or where `/proc/cpuinfo` does not
/// help, CPUID decides.
pub fn discover_system(readings: &HostReadings) -> (r: Result<SystemState, LinuxError>)
    requires
        files_total(default_listing(readings.firmware_counts@)) <= usize::MAX,
    ensures
        ({
            let linux = readings@.signals.os == "linux"@;
            if linux && proc_infos(readings@) is Some {
                r matches Ok(s) && found_in_proc(proc_infos(readings@)->0, readings@, s@)
            } else {
                match r {
                    Ok(s) => found_by_cpuid(readings@, Ok(s@)),
                    Err(e) => {
                        &&& found_by_cpuid(readings@, Err(LinuxFault::NoCpus))
                        &&& e@ == if linux {
                            LinuxFault::NoCpus
                        } else {
                            LinuxFault::NotLinux(
                                "CPU discovery requires /proc/cpuinfo or x86 CPUID"@,
                            )
                        }
                    },
                }
            }
        }),
{
    let linux = str_eq(readings.signals.os.as_str(), "linux");
    if linux {
        if let Some(text) = &readings.cpuinfo {
            if let Ok(infos) = parse_cpuinfo(text.as_str()) {
                let brand = read_brand();
                let virt = detect_virtualization_info(&readings.signals);
                let ghost seen = proc_system(infos@, readings@, opt_text(brand), virt@);
                return Ok(system_from_proc(&infos, readings, &brand, virt));
            }
        }
    }
    match discover_from_cpuid(readings) {
        Ok(s) => Ok(s),
        Err(e) => if linux {
            Err(e)
        } else {
            Err(LinuxError::NotLinux("CPU discovery requires /proc/cpuinfo or x86 CPUID"))
        },
    }
}

/// Build a system state from an explicit identity (for offline workflows).
pub fn system_from_identity(identity: CpuIdentity, os: &str) -> (r: SystemState)
    ensures
        r@ == manual_system(identity, os@),
{
    let revision = RevisionObservation::unavailable(
        RevisionSource::Manual,
        "manual identity does not include an active microcode revision",
    );
    let mut cpus: Vec<HostCpu> = Vec::new();
    cpus.push(
        HostCpu {
            processor: 0,
            identity,
            online: CpuOnlineState::Online,
            physical_id: Some(0),
            core_id: Some(0),
            brand: None,
            revision,
        },
    );
    let mut unique: Vec<CpuIdentity> = Vec::new();
    unique.push(identity);
    let r = SystemState {
        cpus,
        windows_microcode: None,
        unique_identities: unique,
        mixed_signature: false,
        mixed_revision: false,
        virtualization: VirtualizationKind::Unknown,
        virtualization_info: VirtualizationInfo {
            kind: VirtualizationKind::Unknown,
            authority: MicrocodeAuthority::Unknown,
            reason: "manual identity; virtualization not probed".to_owned(),
            hypervisor_vendor: None,
            hypervisor_bit: false,
            hyperv_root: false,
        },
        firmware: FirmwareTree::default(),
        kernel_release: None,
        has_offline_cpus: false,
        source: "manual".to_owned(),
        os: os.to_owned(),
    };
    assert(r@ =~= manual_system(identity, os@));
    r
}

/// Parse cpuinfo text into a system state (offline analysis).
pub fn system_from_cpuinfo_text(text: &str, readings: &HostReadings) -> (r: Result<
    SystemState,
    LinuxError,
>)
    requires
        files_total(default_listing(readings.firmware_counts@)) <= usize::MAX,
    ensures
        match (r, cpuinfo_of(text@)) {
            (Ok(s), Ok(infos)) => exists|virt: VirtualizationModel| #[trigger]
                detectable(readings@.signals, virt) && s@ == system_of(
                    text_cpus(infos),
                    "cpuinfo-text"@,
                    None,
                    readings@,
                    virt,
                ),
            (Err(e), Err(f)) => e@ == f,
            _ => false,
        },
{
    let infos = match parse_cpuinfo(text) {
        Ok(v) => v,
        Err(e) => {
            return Err(e);
        },
    };
    let ghost want = text_cpus(infos@);
    let mut cpus: Vec<HostCpu> = Vec::new();
    let mut i: usize = 0;
    while i < infos.len()
        invariant
            i <= infos@.len(),
            want == text_cpus(infos@),
            cpus_view(cpus@) =~= want.take(i as int),
        decreases infos@.len() - i,
    {
        let info = &infos[i];
        let cpu = host_cpu(
            info,
            revision_from_proc(info.microcode),
            CpuOnlineState::Online,
            None,
        );
        let ghost before = cpus@;
        cpus.push(cpu);
        assert(cpus_view(cpus@) =~= cpus_view(before).push(cpu@));
        assert(cpu@ == want[i as int]);
        i = i + 1;
    }
    assert(want.take(i as int) =~= want);
    let virt = detect_virtualization_info(&readings.signals);
    assert(detectable(readings@.signals, virt@));
    Ok(finalise(cpus, "cpuinfo-text", None, readings, virt))
}

fn with_mask_if_unknown(id: CpuIdentity, mask: PlatformMask) -> (r: CpuIdentity)
    ensures
        r == masked(id, mask),
{
    if id.vendor == Vendor::Intel && id.platform_mask.is_none() {
        id.with_platform_mask(mask)
    } else {
        id
    }
}

/// Attach a platform mask to every Intel CPU that lacks one.
pub fn with_platform_mask(state: SystemState, mask: PlatformMask) -> (r: SystemState)
    ensures
        r@ == with_mask(state@, mask),
{
    let ghost all = state@.cpus;
    let mut cpus: Vec<HostCpu> = Vec::new();
    for cpu in it: state.cpus
        invariant
            it.seq() == state.cpus@,
            all == cpus_view(state.cpus@),
            cpus_view(cpus@) =~= masked_cpus(all, mask).take(it.index() as int),
    {
        let ghost k = it.index() as int;
        let changed = HostCpu { identity: with_mask_if_unknown(cpu.identity, mask), ..cpu };
        let ghost before = cpus@;
        cpus.push(changed);
        assert(all[k] == cpu@);
        assert(cpus_view(cpus@) =~= cpus_view(before).push(changed@));
        assert(changed@ =~= masked_cpus(all, mask)[k]);
    }
    assert(masked_cpus(all, mask).take(all.len() as int) =~= masked_cpus(all, mask));
    let mut unique: Vec<CpuIdentity> = Vec::new();
    let mut i: usize = 0;
    while i < state.unique_identities.len()
        invariant
            i <= state.unique_identities@.len(),
            unique@ =~= state.unique_identities@.take(i as int).map_values(
                |id: CpuIdentity| masked(id, mask),
            ),
        decreases state.unique_identities@.len() - i,
    {
        unique.push(with_mask_if_unknown(state.unique_identities[i], mask));
        i = i + 1;
    }
    assert(state.unique_identities@.take(i as int) =~= state.unique_identities@);
    SystemState {
        cpus,
        windows_microcode: state.windows_microcode,
        unique_identities: unique,
        mixed_signature: state.mixed_signature,
        mixed_revision: state.mixed_revision,
        virtualization: state.virtualization,
        virtualization_info: state.virtualization_info,
        firmware: state.firmware,
        kernel_release: state.kernel_release,
        has_offline_cpus: state.has_offline_cpus,
        source: state.source,
        os: state.os,
    }
}

} // verus!
