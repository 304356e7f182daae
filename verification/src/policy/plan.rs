//! Evaluating a system against the patches that are available.

use vstd::prelude::*;
use crate::catalog::collection::{Catalog, CatalogModel};
use crate::catalog::manifest::opt_text;
use crate::linux::discover::{HostCpuModel, SystemModel, SystemState};
use crate::linux::virt::VirtualizationKind;
use crate::model::cpu::{CpuIdentity, Vendor};
use crate::model::patch::{
    any_signature, has_signature, PatchMeta, PatchModel, RuntimeUpdatePolicy,
};
use crate::model::select::selection;
use crate::number::{around_hex8, hex, hex_text};
use crate::policy::state::{
    concerns_of, evaluations_view, host_concerns, CpuEvaluation, EvaluationModel, SystemStatus,
};
use crate::text::{str_eq, strings};

verus! {

/// Inputs to the decision engine.
#[derive(Debug)]
pub struct PlanInput<'a> {
    pub system: &'a SystemState,
    /// Firmware / release catalog of available patches.
    pub available: &'a Catalog,
    /// Patches currently embedded in the boot artifact (initrd/UKI), if known.
    pub embedded: Option<&'a Catalog>,
    /// Allow selecting a revision lower than currently running.
    pub allow_downgrade: bool,
    /// When true, emit write actions for early CPIO generation.
    pub want_early_image: bool,
    /// Destination path for a generated early CPIO (advisory; transaction uses it).
    pub early_output: Option<String>,
}

/// The contents of a [`PlanInput`].
#[verifier::ext_equal]
pub struct InputModel {
    pub system: SystemModel,
    pub available: CatalogModel,
    pub embedded: Option<CatalogModel>,
    pub allow_downgrade: bool,
    pub want_early_image: bool,
    pub early_output: Option<Seq<char>>,
}

/// The view of a catalog that may be missing.
pub open spec fn opt_catalog(c: Option<&Catalog>) -> Option<CatalogModel> {
    match c {
        Some(x) => Some(x@),
        None => None,
    }
}

impl<'a> View for PlanInput<'a> {
    type V = InputModel;

    open spec fn view(&self) -> InputModel {
        InputModel {
            system: self.system@,
            available: self.available@,
            embedded: opt_catalog(self.embedded),
            allow_downgrade: self.allow_downgrade,
            want_early_image: self.want_early_image,
            early_output: opt_text(self.early_output),
        }
    }
}

/// A single concrete write the transaction layer may perform.
#[derive(Debug)]
#[allow(inconsistent_fields)]
pub enum PlannedWrite {
    /// Write a complete early-load CPIO to `path`.
    EarlyCpio { path: String, intel_patches: usize, amd_patches: usize },
    /// Write individual Intel firmware files under a directory.
    IntelFirmwareDir { dir: String, file_count: usize },
    /// Write an AMD container under a directory.
    AmdFirmwareDir { dir: String, file_count: usize },
}

/// The contents of a [`PlannedWrite`].
#[verifier::ext_equal]
#[allow(inconsistent_fields)]
pub enum WriteModel {
    EarlyCpio { path: Seq<char>, intel_patches: nat, amd_patches: nat },
    IntelFirmwareDir { dir: Seq<char>, file_count: nat },
    AmdFirmwareDir { dir: Seq<char>, file_count: nat },
}

impl View for PlannedWrite {
    type V = WriteModel;

    open spec fn view(&self) -> WriteModel {
        match *self {
            PlannedWrite::EarlyCpio { path, intel_patches, amd_patches } => WriteModel::EarlyCpio {
                path: path@,
                intel_patches: intel_patches as nat,
                amd_patches: amd_patches as nat,
            },
            PlannedWrite::IntelFirmwareDir { dir, file_count } => WriteModel::IntelFirmwareDir {
                dir: dir@,
                file_count: file_count as nat,
            },
            PlannedWrite::AmdFirmwareDir { dir, file_count } => WriteModel::AmdFirmwareDir {
                dir: dir@,
                file_count: file_count as nat,
            },
        }
    }
}

pub open spec fn writes_view(v: Seq<PlannedWrite>) -> Seq<WriteModel> {
    v.map_values(|w: PlannedWrite| w@)
}

/// High-level recommended action.
#[derive(Debug, Clone, Copy, PartialEq, Eq, Structural)]
pub enum Action {
    NoAction,
    RebuildEarlyImage,
    InstallFirmwareAndRebuildEarly,
    Reboot,
    InvestigateAmbiguity,
    NoOpVirtualMachine,
}

/// Full explained plan.
#[derive(Debug)]
pub struct Plan {
    pub plan_version: u32,
    pub overall_status: SystemStatus,
    pub action: Action,
    pub cpus: Vec<CpuEvaluation>,
    pub writes: Vec<PlannedWrite>,
    pub messages: Vec<String>,
    /// True when apply would change the system.
    pub would_change: bool,
}

/// The contents of a [`Plan`].
#[verifier::ext_equal]
pub struct PlanModel {
    pub plan_version: u32,
    pub overall_status: SystemStatus,
    pub action: Action,
    pub cpus: Seq<EvaluationModel>,
    pub writes: Seq<WriteModel>,
    pub messages: Seq<Seq<char>>,
    pub would_change: bool,
}

impl View for Plan {
    type V = PlanModel;

    open spec fn view(&self) -> PlanModel {
        PlanModel {
            plan_version: self.plan_version,
            overall_status: self.overall_status,
            action: self.action,
            cpus: evaluations_view(self.cpus@),
            writes: writes_view(self.writes@),
            messages: strings(self.messages@),
            would_change: self.would_change,
        }
    }
}

// --- one CPU ------------------------------------------------------------------------

/// The revision of the best patch for a CPU in the boot artifact.
pub open spec fn embedded_of(embedded: Option<CatalogModel>, id: CpuIdentity) -> Option<u32> {
    match embedded {
        Some(c) => match selection(c.patches, id).best {
            Some(p) => Some(p.revision),
            None => None,
        },
        None => None,
    }
}

/// A loadable Intel patch has the signature of the CPU.
pub open spec fn signature_known(patches: Seq<PatchModel>, id: CpuIdentity) -> bool {
    exists|i: int|
        0 <= i < patches.len() && (#[trigger] patches[i]).vendor == Vendor::Intel
            && patches[i].loadable() && any_signature(patches[i].matches, id.signature)
}

/// The platform of an Intel CPU is not known although its signature is.
pub open spec fn platform_unknown(patches: Seq<PatchModel>, id: CpuIdentity) -> bool {
    id.vendor == Vendor::Intel && id.platform_mask is None && signature_known(patches, id)
}

/// What the running, best and embedded revisions amount to, with the reasons.
pub open spec fn revisions_status(
    running: Option<u32>,
    best: Option<u32>,
    embedded: Option<u32>,
    no_catalog: bool,
    allow_downgrade: bool,
) -> (SystemStatus, Seq<Seq<char>>) {
    match (running, best) {
        (_, None) => if no_catalog {
            (SystemStatus::Unknown, seq!["no firmware catalog loaded"@])
        } else {
            (SystemStatus::NoCompatiblePatch, seq!["no applicable patch in available catalog"@])
        },
        (Some(run), Some(best)) => if best < run {
            if allow_downgrade {
                (SystemStatus::UnsafeDowngrade, seq!["downgrade explicitly allowed"@])
            } else {
                (
                    SystemStatus::FirmwareOlderThanBios,
                    seq![
                        "best available 0x"@ + hex(best as nat, 8) + " is older than running 0x"@
                            + hex(run as nat, 8),
                    ],
                )
            }
        } else if best > run {
            let step = "running 0x"@ + hex(run as nat, 8) + ", best available 0x"@ + hex(
                best as nat,
                8,
            );
            match embedded {
                Some(e) => if e < best {
                    (
                        SystemStatus::BootArtifactOutdated,
                        seq![
                            step,
                            "boot artifact embeds 0x"@ + hex(e as nat, 8) + ", which is outdated"@,
                        ],
                    )
                } else {
                    (
                        SystemStatus::RebootRequired,
                        seq![
                            step,
                            "boot artifact already has the newer image; reboot required"@,
                        ],
                    )
                },
                None => (
                    SystemStatus::InstalledButNotBootable,
                    seq![step, "boot artifact not inspected"@],
                ),
            }
        } else if embedded is Some && embedded->0 < best {
            (
                SystemStatus::BootArtifactOutdated,
                seq![
                    "running is current but boot artifact embeds older 0x"@ + hex(
                        embedded->0 as nat,
                        8,
                    ),
                ],
            )
        } else {
            (SystemStatus::UpToDate, seq!["running revision matches best available"@])
        },
        (None, Some(best)) => (
            if embedded is Some && embedded->0 < best {
                SystemStatus::BootArtifactOutdated
            } else {
                SystemStatus::Unknown
            },
            seq!["running revision unknown; best available 0x"@ + hex(best as nat, 8)],
        ),
    }
}

/// Why the best patch could not be loaded into the running system as it is.
pub open spec fn gate_reasons(running: Option<u32>, best: Option<PatchModel>) -> Seq<Seq<char>> {
    match (running, best) {
        (Some(run), Some(p)) => {
            let late = match p.runtime_update {
                RuntimeUpdatePolicy::RequiresBaseRevision(min) => if min != 0 && run < min {
                    seq![
                        "runtime update to 0x"@ + hex(p.revision as nat, 8)
                            + " requires base revision ≥ 0x"@ + hex(min as nat, 8),
                    ]
                } else {
                    Seq::empty()
                },
                RuntimeUpdatePolicy::Unspecified => Seq::empty(),
            };
            let base = match p.min_base_revision {
                Some(min) => if run < min {
                    seq![
                        "AMD minimum base revision 0x"@ + hex(min as nat, 8)
                            + " not satisfied by running 0x"@ + hex(run as nat, 8),
                    ]
                } else {
                    Seq::empty()
                },
                None => Seq::empty(),
            };
            late + base
        },
        _ => Seq::empty(),
    }
}

pub open spec fn revision_of(p: Option<PatchModel>) -> Option<u32> {
    match p {
        Some(x) => Some(x.revision),
        None => None,
    }
}

/// How a CPU stands against the available and the embedded patches.
pub open spec fn evaluation(
    processor: u32,
    id: CpuIdentity,
    available: CatalogModel,
    embedded: Option<CatalogModel>,
    allow_downgrade: bool,
) -> EvaluationModel {
    let chosen = selection(available.patches, id);
    let unknown = EvaluationModel {
        processor,
        identity: id,
        status: SystemStatus::PlatformIdUnknown,
        running_revision: id.current_revision,
        best_available_revision: None,
        embedded_revision: embedded_of(embedded, id),
        best_patch: None,
        reasons: seq!["Intel platform ID unknown; cannot safely match platform flags"@],
    };
    if platform_unknown(available.patches, id) {
        unknown
    } else if chosen.ambiguous_with.len() > 0 {
        EvaluationModel {
            status: SystemStatus::AmbiguousMatch,
            best_available_revision: revision_of(chosen.best),
            best_patch: chosen.best,
            reasons: seq!["multiple distinct patches share the highest revision"@],
            ..unknown
        }
    } else {
        let (status, reasons) = revisions_status(
            id.current_revision,
            revision_of(chosen.best),
            embedded_of(embedded, id),
            available.patches.len() == 0,
            allow_downgrade,
        );
        EvaluationModel {
            status,
            best_available_revision: revision_of(chosen.best),
            best_patch: chosen.best,
            reasons: reasons + gate_reasons(id.current_revision, chosen.best),
            ..unknown
        }
    }
}

fn embedded_rev(embedded: Option<&Catalog>, identity: &CpuIdentity) -> (r: Option<u32>)
    ensures
        r == embedded_of(opt_catalog(embedded), *identity),
{
    match embedded {
        Some(cat) => {
            let chosen = cat.select(identity);
            match chosen.best {
                Some(p) => Some(p.revision),
                None => None,
            }
        },
        None => None,
    }
}

fn has_known_signature(patches: &Vec<PatchMeta>, id: &CpuIdentity) -> (r: bool)
    ensures
        r == signature_known(crate::model::patch::metas_view(patches@), *id),
{
    let ghost all = crate::model::patch::metas_view(patches@);
    let mut i: usize = 0;
    while i < patches.len()
        invariant
            i <= patches@.len(),
            all == crate::model::patch::metas_view(patches@),
            forall|k: int|
                0 <= k < i ==> !((#[trigger] all[k]).vendor == Vendor::Intel && all[k].loadable()
                    && any_signature(all[k].matches, id.signature)),
        decreases patches@.len() - i,
    {
        let p = &patches[i];
        assert(all[i as int] == p@);
        if p.vendor == Vendor::Intel && p.is_loadable() && has_signature(
            p.matches.as_slice(),
            id.signature,
        ) {
            return true;
        }
        i = i + 1;
    }
    false
}

/// Appends one reason.
fn add_reason(reasons: &mut Vec<String>, text: String)
    ensures
        strings(final(reasons)@) == strings(old(reasons)@).push(text@),
{
    let ghost before = reasons@;
    reasons.push(text);
    assert(strings(reasons@) =~= strings(before).push(text@));
}

/// A number in eight hexadecimal digits after a text.
fn one_number(before: &str, a: u32) -> (r: String)
    ensures
        r@ == before@ + hex(a as nat, 8),
{
    let mut m = before.to_owned();
    m.append(hex_text(a as u64, 8).as_str());
    m
}

/// Two numbers in eight hexadecimal digits, each after a text.
fn two_numbers(before: &str, a: u32, between: &str, b: u32) -> (r: String)
    ensures
        r@ == before@ + hex(a as nat, 8) + between@ + hex(b as nat, 8),
{
    let mut m = around_hex8(before, a, between);
    m.append(hex_text(b as u64, 8).as_str());
    m
}

fn decide_status(
    running: Option<u32>,
    best: Option<u32>,
    embedded: Option<u32>,
    no_catalog: bool,
    allow_downgrade: bool,
) -> (r: (SystemStatus, Vec<String>))
    ensures
        (r.0, strings(r.1@)) == revisions_status(
            running,
            best,
            embedded,
            no_catalog,
            allow_downgrade,
        ),
{
    let mut reasons: Vec<String> = Vec::new();
    assert(strings(reasons@) =~= Seq::empty());
    let ghost want = revisions_status(running, best, embedded, no_catalog, allow_downgrade);
    let status = match (running, best) {
        (_, None) => {
            if no_catalog {
                add_reason(&mut reasons, "no firmware catalog loaded".to_owned());
                SystemStatus::Unknown
            } else {
                add_reason(&mut reasons, "no applicable patch in available catalog".to_owned());
                SystemStatus::NoCompatiblePatch
            }
        },
        (Some(run), Some(best_r)) => {
            if best_r < run {
                if allow_downgrade {
                    add_reason(&mut reasons, "downgrade explicitly allowed".to_owned());
                    SystemStatus::UnsafeDowngrade
                } else {
                    add_reason(
                        &mut reasons,
                        two_numbers("best available 0x", best_r, " is older than running 0x", run),
                    );
                    SystemStatus::FirmwareOlderThanBios
                }
            } else if best_r > run {
                add_reason(
                    &mut reasons,
                    two_numbers("running 0x", run, ", best available 0x", best_r),
                );
                match embedded {
                    Some(e) => {
                        if e < best_r {
                            add_reason(
                                &mut reasons,
                                around_hex8("boot artifact embeds 0x", e, ", which is outdated"),
                            );
                            SystemStatus::BootArtifactOutdated
                        } else {
                            add_reason(
                                &mut reasons,
                                "boot artifact already has the newer image; reboot required".to_owned(),
                            );
                            SystemStatus::RebootRequired
                        }
                    },
                    None => {
                        add_reason(&mut reasons, "boot artifact not inspected".to_owned());
                        SystemStatus::InstalledButNotBootable
                    },
                }
            } else {
                let stale = match embedded {
                    Some(e) => e < best_r,
                    None => false,
                };
                if stale {
                    let e = match embedded {
                        Some(e) => e,
                        None => 0,
                    };
                    add_reason(
                        &mut reasons,
                        one_number("running is current but boot artifact embeds older 0x", e),
                    );
                    SystemStatus::BootArtifactOutdated
                } else {
                    add_reason(
                        &mut reasons,
                        "running revision matches best available".to_owned(),
                    );
                    SystemStatus::UpToDate
                }
            }
        },
        (None, Some(best_r)) => {
            add_reason(
                &mut reasons,
                one_number("running revision unknown; best available 0x", best_r),
            );
            match embedded {
                Some(e) => {
                    if e < best_r {
                        SystemStatus::BootArtifactOutdated
                    } else {
                        SystemStatus::Unknown
                    }
                },
                None => SystemStatus::Unknown,
            }
        },
    };
    assert(strings(reasons@) =~= want.1);
    (status, reasons)
}

/// Runtime-update gate annotation (informational; we do not late-load).
fn add_gate_reasons(reasons: &mut Vec<String>, running: Option<u32>, best: Option<&PatchMeta>)
    ensures
        strings(final(reasons)@) == strings(old(reasons)@) + gate_reasons(
            running,
            match best {
                Some(p) => Some(p@),
                None => None,
            },
        ),
{
    let ghost before = strings(reasons@);
    if let Some(run) = running {
        if let Some(patch) = best {
            if let Some(false) = patch.runtime_update_allowed_from(run) {
                let min = match patch.runtime_update {
                    RuntimeUpdatePolicy::RequiresBaseRevision(v) => v,
                    RuntimeUpdatePolicy::Unspecified => 0,
                };
                add_reason(
                    reasons,
                    two_numbers(
                        "runtime update to 0x",
                        patch.revision,
                        " requires base revision ≥ 0x",
                        min,
                    ),
                );
            }
            if let Some(false) = patch.base_revision_satisfied(run) {
                let min = match patch.min_base_revision {
                    Some(v) => v,
                    None => 0,
                };
                add_reason(
                    reasons,
                    two_numbers(
                        "AMD minimum base revision 0x",
                        min,
                        " not satisfied by running 0x",
                        run,
                    ),
                );
            }
            assert(strings(reasons@) =~= before + gate_reasons(running, Some(patch@)));
        }
    }
    assert(strings(reasons@) =~= before + gate_reasons(
        running,
        match best {
            Some(p) => Some(p@),
            None => None,
        },
    ));
}

/// How one CPU stands against the available and the embedded patches.
pub fn evaluate_cpu(
    processor: u32,
    identity: &CpuIdentity,
    available: &Catalog,
    embedded: Option<&Catalog>,
    allow_downgrade: bool,
) -> (r: CpuEvaluation)
    ensures
        r@ == evaluation(
            processor,
            *identity,
            available@,
            opt_catalog(embedded),
            allow_downgrade,
        ),
{
    let selected = available.select(identity);
    let emb_rev = embedded_rev(embedded, identity);
    let running = identity.current_revision;
    if identity.vendor == Vendor::Intel && identity.platform_mask.is_none() {
        if has_known_signature(&available.patches, identity) {
            let mut reasons: Vec<String> = Vec::new();
            assert(strings(reasons@) =~= Seq::empty());
            add_reason(
                &mut reasons,
                "Intel platform ID unknown; cannot safely match platform flags".to_owned(),
            );
            return CpuEvaluation {
                processor,
                identity: *identity,
                status: SystemStatus::PlatformIdUnknown,
                running_revision: running,
                best_available_revision: None,
                embedded_revision: emb_rev,
                best_patch: None,
                reasons,
            };
        }
    }
    let best = selected.best;
    let best_rev = match best {
        Some(p) => Some(p.revision),
        None => None,
    };
    let best_patch = match best {
        Some(p) => Some(p.clone()),
        None => None,
    };
    if selected.is_ambiguous() {
        let mut reasons: Vec<String> = Vec::new();
        assert(strings(reasons@) =~= Seq::empty());
        add_reason(
            &mut reasons,
            "multiple distinct patches share the highest revision".to_owned(),
        );
        return CpuEvaluation {
            processor,
            identity: *identity,
            status: SystemStatus::AmbiguousMatch,
            running_revision: running,
            best_available_revision: best_rev,
            embedded_revision: emb_rev,
            best_patch,
            reasons,
        };
    }
    let (status, reasons) = decide_status(
        running,
        best_rev,
        emb_rev,
        available.is_empty(),
        allow_downgrade,
    );
    let mut reasons = reasons;
    add_gate_reasons(&mut reasons, running, best);
    CpuEvaluation {
        processor,
        identity: *identity,
        status,
        running_revision: running,
        best_available_revision: best_rev,
        embedded_revision: emb_rev,
        best_patch,
        reasons,
    }
}

// --- the system ---------------------------------------------------------------------

/// The evaluation of every CPU, or of every known identity where no CPU was
/// found.
pub open spec fn evaluations(input: InputModel) -> Seq<EvaluationModel> {
    if input.system.cpus.len() > 0 {
        input.system.cpus.map_values(
            |c: HostCpuModel|
                evaluation(
                    c.processor,
                    c.identity,
                    input.available,
                    input.embedded,
                    input.allow_downgrade,
                ),
        )
    } else {
        Seq::new(
            input.system.unique_identities.len(),
            |i: int|
                evaluation(
                    i as u32,
                    input.system.unique_identities[i],
                    input.available,
                    input.embedded,
                    input.allow_downgrade,
                ),
        )
    }
}

/// The most urgent of a list of statuses; nothing is known of an empty one.
pub open spec fn most_urgent(statuses: Seq<SystemStatus>) -> SystemStatus
    decreases statuses.len(),
{
    if statuses.len() == 0 {
        SystemStatus::Unknown
    } else if statuses.len() == 1 {
        statuses[0]
    } else {
        let front = most_urgent(statuses.drop_last());
        if statuses.last().urgency() < front.urgency() {
            statuses.last()
        } else {
            front
        }
    }
}

pub open spec fn statuses_of(cpus: Seq<EvaluationModel>) -> Seq<SystemStatus> {
    cpus.map_values(|e: EvaluationModel| e.status)
}

/// No CPU has a patch.
pub open spec fn nothing_available(cpus: Seq<EvaluationModel>) -> bool {
    forall|i: int| 0 <= i < cpus.len() ==> (#[trigger] cpus[i]).best_available_revision is None
}

/// CPU and patch status decide. Only where a confident guest has nothing to
/// say about patches is its microcode called host-managed.
pub open spec fn overall_of(
    cpus: Seq<EvaluationModel>,
    concerns: Seq<SystemStatus>,
    virtualization: VirtualizationKind,
) -> SystemStatus {
    let base = most_urgent(statuses_of(cpus) + concerns);
    if virtualization == VirtualizationKind::VirtualMachineGuest && (base == SystemStatus::Unknown
        || base == SystemStatus::NoCompatiblePatch || base == SystemStatus::UpToDate)
        && nothing_available(cpus) {
        SystemStatus::VirtualMachineHostManaged
    } else {
        base
    }
}

pub open spec fn loadable_count(patches: Seq<PatchModel>, vendor: Vendor) -> nat
    decreases patches.len(),
{
    if patches.len() == 0 {
        0
    } else {
        loadable_count(patches.drop_last(), vendor) + if patches.last().vendor == vendor
            && patches.last().loadable() {
            1nat
        } else {
            0nat
        }
    }
}

pub open spec fn selected_count(cpus: Seq<EvaluationModel>, vendor: Vendor) -> nat
    decreases cpus.len(),
{
    if cpus.len() == 0 {
        0
    } else {
        selected_count(cpus.drop_last(), vendor) + if cpus.last().identity.vendor == vendor
            && cpus.last().best_patch is Some {
            1nat
        } else {
            0nat
        }
    }
}

/// The CPUs of a vendor that have a patch; where none has, the loadable
/// patches of the vendor, of which AMD's share one container.
pub open spec fn image_count(
    patches: Seq<PatchModel>,
    cpus: Seq<EvaluationModel>,
    vendor: Vendor,
) -> nat {
    if selected_count(cpus, vendor) > 0 {
        selected_count(cpus, vendor)
    } else if vendor == Vendor::Intel || loadable_count(patches, vendor) == 0 {
        loadable_count(patches, vendor)
    } else {
        1
    }
}

pub open spec fn needs_firmware(status: SystemStatus) -> bool {
    ||| status == SystemStatus::RebootRequired
    ||| status == SystemStatus::InstalledButNotBootable
    ||| status == SystemStatus::BootArtifactOutdated
    ||| status == SystemStatus::FirmwareOlderThanBios
}

pub open spec fn is_stale(status: SystemStatus) -> bool {
    status == SystemStatus::BootArtifactOutdated || status == SystemStatus::InstalledButNotBootable
}

pub open spec fn any_needs_firmware(cpus: Seq<EvaluationModel>) -> bool {
    exists|i: int| 0 <= i < cpus.len() && needs_firmware((#[trigger] cpus[i]).status)
}

pub open spec fn any_stale(cpus: Seq<EvaluationModel>) -> bool {
    exists|i: int| 0 <= i < cpus.len() && is_stale((#[trigger] cpus[i]).status)
}

/// The early image that is to be written, if one is.
pub open spec fn early_write(input: InputModel, cpus: Seq<EvaluationModel>) -> Option<WriteModel> {
    let intel = image_count(input.available.patches, cpus, Vendor::Intel);
    let amd = image_count(input.available.patches, cpus, Vendor::Amd);
    if (input.want_early_image || any_stale(cpus)) && intel + amd > 0 {
        Some(
            WriteModel::EarlyCpio {
                path: match input.early_output {
                    Some(p) => p,
                    None => "ucode-early.cpio"@,
                },
                intel_patches: intel,
                amd_patches: amd,
            },
        )
    } else {
        None
    }
}

/// What is said about the environment before anything is decided.
pub open spec fn environment_messages(system: SystemModel) -> Seq<Seq<char>> {
    let reason = system.virtualization_info.reason;
    (if system.virtualization == VirtualizationKind::VirtualMachineGuest {
        seq![
            "guest virtualization detected ("@ + reason
                + "); microcode is often managed by the hypervisor host"@,
        ]
    } else if system.virtualization == VirtualizationKind::HypervisorRoot {
        seq![
            "Hyper-V root partition detected ("@ + reason
                + "); this is a normal Windows host configuration"@,
        ]
    } else {
        Seq::empty()
    }) + (if system.os != "linux"@ {
        seq![
            "running on "@ + system.os
                + "; microcode early-load paths and sysfs revisions are Linux-specific — CPU identity comes from CPUID; pass firmware with --source / path arguments to evaluate patches"@,
        ]
    } else {
        Seq::empty()
    })
}

/// What a status without a usable selection leaves to say.
pub open spec fn refusal(overall: SystemStatus, no_catalog: bool) -> Option<Seq<char>> {
    if overall == SystemStatus::AmbiguousMatch {
        Some("conflicting patches share the best revision; refuse to choose automatically"@)
    } else if overall == SystemStatus::Unknown && no_catalog {
        Some(
            "no microcode catalog loaded (no firmware sources found); pass a release tree or use --source"@,
        )
    } else if overall == SystemStatus::NoCompatiblePatch {
        Some("no compatible microcode patch found in the available catalog"@)
    } else if overall == SystemStatus::PlatformIdUnknown {
        Some(
            "Intel platform ID is unknown; pass --platform-id or load from a context that provides it"@,
        )
    } else {
        None
    }
}

pub open spec fn wants_reboot(overall: SystemStatus) -> bool {
    overall == SystemStatus::RebootRequired || overall == SystemStatus::InstalledButNotBootable
}

/// What is said about what to do next.
pub open spec fn advice(rebuilds: bool, reboots: bool, up_to_date: bool) -> Seq<Seq<char>> {
    (if rebuilds {
        seq![
            "rebuild the early microcode CPIO and integrate it into the initrd/UKI via distro tooling"@,
        ]
    } else {
        Seq::empty()
    }) + (if reboots {
        seq![
            "a reboot with an updated early image is required for the new microcode to load"@,
        ]
    } else {
        Seq::empty()
    }) + (if up_to_date {
        seq!["running microcode matches the best available patch"@]
    } else {
        Seq::empty()
    })
}

pub open spec fn plan_of(input: InputModel) -> PlanModel {
    let cpus = evaluations(input);
    let concerns = concerns_of(input.system);
    let overall = overall_of(cpus, concerns, input.system.virtualization);
    let refused = refusal(overall, input.available.patches.len() == 0);
    let write = if refused is Some {
        None
    } else {
        early_write(input, cpus)
    };
    // A guest has its own action until something else is recommended.
    let idle = if overall == SystemStatus::VirtualMachineHostManaged {
        Action::NoOpVirtualMachine
    } else {
        Action::NoAction
    };
    let reboots = refused is None && write is None && wants_reboot(overall);
    PlanModel {
        plan_version: 1,
        overall_status: overall,
        action: if overall == SystemStatus::AmbiguousMatch {
            Action::InvestigateAmbiguity
        } else if write is Some {
            if any_needs_firmware(cpus) {
                Action::InstallFirmwareAndRebuildEarly
            } else {
                Action::RebuildEarlyImage
            }
        } else if reboots {
            Action::Reboot
        } else {
            idle
        },
        cpus,
        writes: if write is Some {
            seq![write->0]
        } else {
            Seq::empty()
        },
        messages: environment_messages(input.system) + (if refused is Some {
            seq![refused->0]
        } else {
            advice(write is Some, reboots, overall == SystemStatus::UpToDate)
        }) + (if concerns.len() > 0 {
            seq!["mixed CPU signature or microcode revision detected across logical CPUs"@]
        } else {
            Seq::empty()
        }),
        would_change: write is Some,
    }
}

// --- evaluating ---------------------------------------------------------------------

fn priority_status(statuses: &Vec<SystemStatus>) -> (r: SystemStatus)
    ensures
        r == most_urgent(statuses@),
{
    if statuses.len() == 0 {
        return SystemStatus::Unknown;
    }
    let mut best = statuses[0];
    let mut i: usize = 1;
    assert(statuses@.take(1) =~= seq![statuses@[0]]);
    while i < statuses.len()
        invariant
            1 <= i <= statuses@.len(),
            best == most_urgent(statuses@.take(i as int)),
        decreases statuses@.len() - i,
    {
        let s = statuses[i];
        assert(statuses@.take(i + 1).drop_last() =~= statuses@.take(i as int));
        if s.place() < best.place() {
            best = s;
        }
        i = i + 1;
    }
    assert(statuses@.take(i as int) =~= statuses@);
    best
}

fn overall_status(
    cpus: &Vec<CpuEvaluation>,
    concerns: &Vec<SystemStatus>,
    virtualization: VirtualizationKind,
) -> (r: SystemStatus)
    requires
        concerns@.len() <= 1,
    ensures
        r == overall_of(evaluations_view(cpus@), concerns@, virtualization),
{
    // CPU/patch status always wins over virtualization. A false VM positive used
    // to hide real results; even true guests still report per-CPU match state.
    let ghost all = evaluations_view(cpus@);
    let mut statuses: Vec<SystemStatus> = Vec::new();
    let mut none = true;
    let mut i: usize = 0;
    while i < cpus.len()
        invariant
            i <= cpus@.len(),
            all == evaluations_view(cpus@),
            statuses@ =~= statuses_of(all).take(i as int),
            none == forall|k: int|
                0 <= k < i ==> (#[trigger] all[k]).best_available_revision is None,
        decreases cpus@.len() - i,
    {
        assert(all[i as int] == cpus@[i as int]@);
        statuses.push(cpus[i].status);
        if cpus[i].best_available_revision.is_some() {
            none = false;
        }
        i = i + 1;
    }
    assert(none == nothing_available(all));
    if concerns.len() > 0 {
        statuses.push(concerns[0]);
    }
    assert(statuses@ =~= statuses_of(all) + concerns@);
    let base = priority_status(&statuses);
    // Only surface VirtualMachineHostManaged when we are a confident guest *and*
    // there is no stronger patch-related status (e.g. no catalog loaded).
    if virtualization == VirtualizationKind::VirtualMachineGuest && (base == SystemStatus::Unknown
        || base == SystemStatus::NoCompatiblePatch || base == SystemStatus::UpToDate) && none {
        return SystemStatus::VirtualMachineHostManaged;
    }
    base
}

proof fn lemma_loadable_count(patches: Seq<PatchModel>, n: int, vendor: Vendor)
    requires
        0 <= n <= patches.len(),
    ensures
        loadable_count(patches.take(n), vendor) <= n,
    decreases n,
{
    if n > 0 {
        lemma_loadable_count(patches, n - 1, vendor);
        assert(patches.take(n).drop_last() =~= patches.take(n - 1));
    }
}

proof fn lemma_selected_count(cpus: Seq<EvaluationModel>, n: int, vendor: Vendor)
    requires
        0 <= n <= cpus.len(),
    ensures
        selected_count(cpus.take(n), vendor) <= n,
    decreases n,
{
    if n > 0 {
        lemma_selected_count(cpus, n - 1, vendor);
        assert(cpus.take(n).drop_last() =~= cpus.take(n - 1));
    }
}

fn count_selected(available: &Catalog, cpus: &Vec<CpuEvaluation>, vendor: Vendor) -> (r: usize)
    ensures
        r == image_count(available@.patches, evaluations_view(cpus@), vendor),
{
    let ghost all = evaluations_view(cpus@);
    let ghost patches = available@.patches;
    let mut n: usize = 0;
    let mut i: usize = 0;
    while i < cpus.len()
        invariant
            i <= cpus@.len(),
            all == evaluations_view(cpus@),
            n == selected_count(all.take(i as int), vendor),
        decreases cpus@.len() - i,
    {
        proof {
            assert(all.take(i + 1).drop_last() =~= all.take(i as int));
            assert(all.take(i + 1).last() == cpus@[i as int]@);
            lemma_selected_count(all, i as int, vendor);
        }
        if cpus[i].identity.vendor == vendor && cpus[i].best_patch.is_some() {
            n = n + 1;
        }
        i = i + 1;
    }
    assert(all.take(i as int) =~= all);
    if n > 0 {
        return n;
    }
    // Fall back to counting applicable patches when evaluations lack best_patch.
    let mut m: usize = 0;
    let mut k: usize = 0;
    while k < available.patches.len()
        invariant
            k <= available.patches@.len(),
            patches == crate::model::patch::metas_view(available.patches@),
            m == loadable_count(patches.take(k as int), vendor),
        decreases available.patches@.len() - k,
    {
        proof {
            assert(patches.take(k + 1).drop_last() =~= patches.take(k as int));
            assert(patches.take(k + 1).last() == available.patches@[k as int]@);
            lemma_loadable_count(patches, k as int, vendor);
        }
        if available.patches[k].vendor == vendor && available.patches[k].is_loadable() {
            m = m + 1;
        }
        k = k + 1;
    }
    assert(patches.take(k as int) =~= patches);
    if vendor == Vendor::Intel || m == 0 {
        m
    } else {
        1
    }
}

fn evaluate_cpus(input: &PlanInput<'_>) -> (r: Vec<CpuEvaluation>)
    ensures
        evaluations_view(r@) == evaluations(input@),
{
    let ghost want = evaluations(input@);
    let mut cpus: Vec<CpuEvaluation> = Vec::new();
    let mut i: usize = 0;
    while i < input.system.cpus.len()
        invariant
            i <= input.system.cpus@.len(),
            input.system.cpus@.len() > 0 ==> want == evaluations(input@),
            input.system.cpus@.len() > 0 ==> evaluations_view(cpus@) =~= want.take(i as int),
            cpus@.len() == i,
        decreases input.system.cpus@.len() - i,
    {
        let host = &input.system.cpus[i];
        assert(input@.system.cpus[i as int] == host@);
        let e = evaluate_cpu(
            host.processor,
            &host.identity,
            input.available,
            input.embedded,
            input.allow_downgrade,
        );
        let ghost before = cpus@;
        cpus.push(e);
        assert(evaluations_view(cpus@) =~= evaluations_view(before).push(e@));
        assert(e@ == want[i as int]);
        i = i + 1;
    }
    // If no CPUs discovered, still try primary unique identities.
    if input.system.cpus.len() == 0 {
        let mut k: usize = 0;
        while k < input.system.unique_identities.len()
            invariant
                k <= input.system.unique_identities@.len(),
                input.system.cpus@.len() == 0,
                want == evaluations(input@),
                evaluations_view(cpus@) =~= want.take(k as int),
            decreases input.system.unique_identities@.len() - k,
        {
            let e = evaluate_cpu(
                k as u32,
                &input.system.unique_identities[k],
                input.available,
                input.embedded,
                input.allow_downgrade,
            );
            let ghost before = cpus@;
            cpus.push(e);
            assert(evaluations_view(cpus@) =~= evaluations_view(before).push(e@));
            assert(e@ == want[k as int]);
            k = k + 1;
        }
    }
    assert(want.take(want.len() as int) =~= want);
    cpus
}

fn add_environment_messages(messages: &mut Vec<String>, system: &SystemState)
    ensures
        strings(final(messages)@) == strings(old(messages)@) + environment_messages(system@),
{
    let ghost before = strings(messages@);
    // Virtualization is an advisory signal, never a hard override of patch status.
    if system.virtualization == VirtualizationKind::VirtualMachineGuest {
        let mut m = "guest virtualization detected (".to_owned();
        m.append(system.virtualization_info.reason.as_str());
        m.append("); microcode is often managed by the hypervisor host");
        add_reason(messages, m);
    } else if system.virtualization == VirtualizationKind::HypervisorRoot {
        let mut m = "Hyper-V root partition detected (".to_owned();
        m.append(system.virtualization_info.reason.as_str());
        m.append("); this is a normal Windows host configuration");
        add_reason(messages, m);
    }
    if !str_eq(system.os.as_str(), "linux") {
        let mut m = "running on ".to_owned();
        m.append(system.os.as_str());
        m.append(
            "; microcode early-load paths and sysfs revisions are Linux-specific — CPU identity comes from CPUID; pass firmware with --source / path arguments to evaluate patches",
        );
        add_reason(messages, m);
    }
    assert(strings(messages@) =~= before + environment_messages(system@));
}

fn refusal_message(overall: SystemStatus, no_catalog: bool) -> (r: Option<&'static str>)
    ensures
        match r {
            Some(m) => refusal(overall, no_catalog) == Some(m@),
            None => refusal(overall, no_catalog) is None,
        },
{
    if overall == SystemStatus::AmbiguousMatch {
        Some("conflicting patches share the best revision; refuse to choose automatically")
    } else if overall == SystemStatus::Unknown && no_catalog {
        Some(
            "no microcode catalog loaded (no firmware sources found); pass a release tree or use --source",
        )
    } else if overall == SystemStatus::NoCompatiblePatch {
        Some("no compatible microcode patch found in the available catalog")
    } else if overall == SystemStatus::PlatformIdUnknown {
        Some(
            "Intel platform ID is unknown; pass --platform-id or load from a context that provides it",
        )
    } else {
        None
    }
}

/// Whether some CPU needs newer firmware, and whether some CPU's boot artifact
/// is behind.
fn survey(cpus: &Vec<CpuEvaluation>) -> (r: (bool, bool))
    ensures
        r.0 == any_needs_firmware(evaluations_view(cpus@)),
        r.1 == any_stale(evaluations_view(cpus@)),
{
    let ghost all = evaluations_view(cpus@);
    let mut needs = false;
    let mut stale = false;
    let mut i: usize = 0;
    while i < cpus.len()
        invariant
            i <= cpus@.len(),
            all == evaluations_view(cpus@),
            needs == exists|k: int| 0 <= k < i && needs_firmware((#[trigger] all[k]).status),
            stale == exists|k: int| 0 <= k < i && is_stale((#[trigger] all[k]).status),
        decreases cpus@.len() - i,
    {
        assert(all[i as int] == cpus@[i as int]@);
        let status = cpus[i].status;
        if status == SystemStatus::BootArtifactOutdated || status
            == SystemStatus::InstalledButNotBootable {
            assert(is_stale(all[i as int].status));
            assert(needs_firmware(all[i as int].status));
            stale = true;
            needs = true;
        }
        if status == SystemStatus::RebootRequired || status == SystemStatus::FirmwareOlderThanBios {
            assert(needs_firmware(all[i as int].status));
            needs = true;
        }
        i = i + 1;
    }
    (needs, stale)
}

fn add_advice(messages: &mut Vec<String>, rebuilds: bool, reboots: bool, up_to_date: bool)
    ensures
        strings(final(messages)@) == strings(old(messages)@) + advice(
            rebuilds,
            reboots,
            up_to_date,
        ),
{
    let ghost before = strings(messages@);
    if rebuilds {
        add_reason(
            messages,
            "rebuild the early microcode CPIO and integrate it into the initrd/UKI via distro tooling".to_owned(),
        );
    }
    if reboots {
        add_reason(
            messages,
            "a reboot with an updated early image is required for the new microcode to load".to_owned(),
        );
    }
    if up_to_date {
        add_reason(messages, "running microcode matches the best available patch".to_owned());
    }
    assert(strings(messages@) =~= before + advice(rebuilds, reboots, up_to_date));
}

/// The early image that is to be written, if one is.
fn plan_early_write(input: &PlanInput<'_>, cpus: &Vec<CpuEvaluation>, boot_stale: bool) -> (r: Option<
    PlannedWrite,
>)
    requires
        boot_stale == any_stale(evaluations_view(cpus@)),
    ensures
        match r {
            Some(w) => early_write(input@, evaluations_view(cpus@)) == Some(w@),
            None => early_write(input@, evaluations_view(cpus@)) is None,
        },
{
    if !(input.want_early_image || boot_stale) {
        return None;
    }
    let intel = count_selected(input.available, cpus, Vendor::Intel);
    let amd = count_selected(input.available, cpus, Vendor::Amd);
    if intel == 0 && amd == 0 {
        return None;
    }
    let path = match &input.early_output {
        Some(p) => p.clone(),
        None => "ucode-early.cpio".to_owned(),
    };
    Some(PlannedWrite::EarlyCpio { path, intel_patches: intel, amd_patches: amd })
}

/// Evaluate the current situation and produce a plan. Pure function.
pub fn evaluate(input: &PlanInput<'_>) -> (r: Plan)
    ensures
        r@ == plan_of(input@),
{
    let concerns = host_concerns(input.system);
    let cpus = evaluate_cpus(input);
    let overall = overall_status(&cpus, &concerns, input.system.virtualization);
    let refused = refusal_message(overall, input.available.is_empty());
    let (needs_newer_firmware, boot_stale) = survey(&cpus);
    let write = if refused.is_some() {
        None
    } else {
        plan_early_write(input, &cpus, boot_stale)
    };
    let would_change = write.is_some();
    let reboots = refused.is_none() && !would_change && (overall == SystemStatus::RebootRequired
        || overall == SystemStatus::InstalledButNotBootable);
    let action = if overall == SystemStatus::AmbiguousMatch {
        Action::InvestigateAmbiguity
    } else if would_change {
        if needs_newer_firmware {
            Action::InstallFirmwareAndRebuildEarly
        } else {
            Action::RebuildEarlyImage
        }
    } else if reboots {
        Action::Reboot
    } else if overall == SystemStatus::VirtualMachineHostManaged {
        // A guest has its own action until something else is recommended.
        Action::NoOpVirtualMachine
    } else {
        Action::NoAction
    };
    let mut messages: Vec<String> = Vec::new();
    assert(strings(messages@) =~= Seq::empty());
    add_environment_messages(&mut messages, input.system);
    match refused {
        Some(m) => {
            add_reason(&mut messages, m.to_owned());
        },
        None => {
            add_advice(&mut messages, would_change, reboots, overall == SystemStatus::UpToDate);
        },
    }
    if concerns.len() > 0 {
        add_reason(
            &mut messages,
            "mixed CPU signature or microcode revision detected across logical CPUs".to_owned(),
        );
    }
    let ghost want = plan_of(input@);
    assert(strings(messages@) =~= want.messages);
    let mut writes: Vec<PlannedWrite> = Vec::new();
    assert(writes_view(writes@) =~= Seq::empty());
    if let Some(w) = write {
        writes.push(w);
        assert(writes_view(writes@) =~= seq![w@]);
    }
    Plan {
        plan_version: 1,
        overall_status: overall,
        action,
        cpus,
        writes,
        messages,
        would_change,
    }
}

} // verus!
