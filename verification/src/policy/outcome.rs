//! What a plan concludes from the revisions that it finds.

use vstd::prelude::*;
use crate::catalog::collection::CatalogModel;
use crate::linux::virt::VirtualizationKind;
use crate::model::cpu::{CpuIdentity, Vendor};
use crate::model::law::{fits, is_newest, law_every_tie_is_reported, law_selection_finds_the_newest, names};
use crate::model::patch::{any_signature, HeaderKind, PatchModel, RuntimeUpdatePolicy};
use crate::model::select::{law_ambiguity_is_a_tie, selection};
use crate::number::hex;
use crate::policy::law::law_most_urgent_decides;
use crate::policy::plan::{
    advice, early_write, environment_messages, evaluation, evaluations, gate_reasons, is_stale, loadable_count,
    most_urgent, needs_firmware, plan_of, platform_unknown, refusal, selected_count, statuses_of, wants_reboot,
    Action, InputModel, WriteModel,
};
use crate::policy::state::{concerns_of, EvaluationModel, SystemStatus};

verus! {

// --- one processor ------------------------------------------------------------------

/// The platform of an Intel processor is not known, and there is Intel
/// microcode with its signature.
pub open spec fn cannot_match(patches: Seq<PatchModel>, id: CpuIdentity) -> bool {
    &&& id.vendor == Vendor::Intel
    &&& id.platform_mask is None
    &&& exists|i: int|
        0 <= i < patches.len() && (#[trigger] patches[i]).vendor == Vendor::Intel && patches[i].kind
            == HeaderKind::Microcode && names(patches[i], id.signature)
}

/// A fitting patch has the revision of the best one, and other bytes.
pub open spec fn has_rival(patches: Seq<PatchModel>, id: CpuIdentity, best: PatchModel) -> bool {
    exists|i: int|
        0 <= i < patches.len() && fits(#[trigger] patches[i], id) && patches[i] != best && patches[i].revision
            == best.revision && (patches[i].sha256 is None || patches[i].sha256 != best.sha256)
}

proof fn lemma_cannot_match(patches: Seq<PatchModel>, id: CpuIdentity)
    ensures
        cannot_match(patches, id) <==> platform_unknown(patches, id),
{
    if cannot_match(patches, id) {
        let i = choose|i: int|
            0 <= i < patches.len() && (#[trigger] patches[i]).vendor == Vendor::Intel && patches[i].kind
                == HeaderKind::Microcode && names(patches[i], id.signature);
        let k = choose|k: int|
            0 <= k < patches[i].matches.len() && (#[trigger] patches[i].matches[k]).signature == id.signature;
        assert(patches[i].matches[k].signature == id.signature);
    }
    if platform_unknown(patches, id) {
        let i = choose|i: int|
            0 <= i < patches.len() && (#[trigger] patches[i]).vendor == Vendor::Intel && patches[i].loadable()
                && any_signature(patches[i].matches, id.signature);
        let k = choose|k: int|
            0 <= k < patches[i].matches.len() && (#[trigger] patches[i].matches[k]).signature == id.signature;
        assert(patches[i].matches[k].signature == id.signature);
        assert(names(patches[i], id.signature));
    }
}

/// An evaluation carries what it is about: the processor, what it runs, the
/// newest available patch that fits it, unless its platform is unknown, and the
/// revision of the newest such patch in the boot artifact.
pub proof fn law_evaluations_carry_the_newest(
    processor: u32,
    id: CpuIdentity,
    available: CatalogModel,
    embedded: Option<CatalogModel>,
    allow_downgrade: bool,
)
    ensures
        ({
            let e = evaluation(processor, id, available, embedded, allow_downgrade);
            &&& e.processor == processor
            &&& e.identity == id
            &&& e.running_revision == id.current_revision
            &&& cannot_match(available.patches, id) ==> e.best_patch is None
            &&& !cannot_match(available.patches, id) ==> is_newest(available.patches, id, e.best_patch)
            &&& e.best_available_revision == match e.best_patch {
                Some(p) => Some(p.revision),
                None => None,
            }
            &&& embedded is None ==> e.embedded_revision is None
            &&& embedded matches Some(boot) ==> exists|p: Option<PatchModel>| #[trigger]
                is_newest(boot.patches, id, p) && e.embedded_revision == match p {
                    Some(x) => Some(x.revision),
                    None => None,
                }
        }),
{
    lemma_cannot_match(available.patches, id);
    law_selection_finds_the_newest(available.patches, id);
    if let Some(boot) = embedded {
        law_selection_finds_the_newest(boot.patches, id);
        let p = selection(boot.patches, id).best;
        assert(is_newest(boot.patches, id, p));
    }
}

/// Which status the revisions amount to. Without a platform or with two
/// contradicting patches nothing is compared. Else a lower best revision than
/// the running one is a downgrade; a higher one has to get into the boot
/// artifact and then to be booted; and with the running one the artifact must
/// not be behind.
pub proof fn law_status_follows_the_revisions(
    processor: u32,
    id: CpuIdentity,
    available: CatalogModel,
    embedded: Option<CatalogModel>,
    allow_downgrade: bool,
)
    ensures
        ({
            let e = evaluation(processor, id, available, embedded, allow_downgrade);
            let boot_is_behind = e.best_available_revision is Some && e.embedded_revision is Some
                && e.embedded_revision->0 < e.best_available_revision->0;
            if cannot_match(available.patches, id) {
                e.status == SystemStatus::PlatformIdUnknown
            } else if e.best_patch is None {
                &&& available.patches.len() == 0 ==> e.status == SystemStatus::Unknown
                &&& available.patches.len() > 0 ==> e.status == SystemStatus::NoCompatiblePatch
            } else if has_rival(available.patches, id, e.best_patch->0) {
                e.status == SystemStatus::AmbiguousMatch
            } else if e.status == SystemStatus::AmbiguousMatch {
                // The same patch stands there twice, without a digest to tell.
                e.best_patch->0.sha256 is None
            } else {
                match id.current_revision {
                    None => {
                        &&& boot_is_behind ==> e.status == SystemStatus::BootArtifactOutdated
                        &&& !boot_is_behind ==> e.status == SystemStatus::Unknown
                    },
                    Some(run) => {
                        let best = e.best_available_revision->0;
                        &&& best < run && allow_downgrade ==> e.status == SystemStatus::UnsafeDowngrade
                        &&& best < run && !allow_downgrade ==> e.status
                            == SystemStatus::FirmwareOlderThanBios
                        &&& best >= run && boot_is_behind ==> e.status
                            == SystemStatus::BootArtifactOutdated
                        &&& best > run && e.embedded_revision is None ==> e.status
                            == SystemStatus::InstalledButNotBootable
                        &&& best > run && e.embedded_revision is Some && !boot_is_behind ==> e.status
                            == SystemStatus::RebootRequired
                        &&& best == run && !boot_is_behind ==> e.status == SystemStatus::UpToDate
                    },
                }
            }
        }),
{
    let e = evaluation(processor, id, available, embedded, allow_downgrade);
    let s = selection(available.patches, id);
    lemma_cannot_match(available.patches, id);
    law_selection_finds_the_newest(available.patches, id);
    if !cannot_match(available.patches, id) && e.best_patch is Some {
        let best = e.best_patch->0;
        if has_rival(available.patches, id, best) {
            let i = choose|i: int|
                0 <= i < available.patches.len() && fits(#[trigger] available.patches[i], id)
                    && available.patches[i] != best && available.patches[i].revision == best.revision && (
                available.patches[i].sha256 is None || available.patches[i].sha256 != best.sha256);
            law_every_tie_is_reported(available.patches, id, available.patches[i]);
        } else if s.ambiguous_with.len() > 0 {
            let p = s.ambiguous_with[0];
            assert(s.ambiguous_with.contains(p));
            law_every_tie_is_reported(available.patches, id, p);
            let i = choose|i: int| 0 <= i < available.patches.len() && available.patches[i] == p;
            assert(fits(available.patches[i], id));
            assert(p == best);
        }
    } else if !cannot_match(available.patches, id) {
        if s.ambiguous_with.len() > 0 {
            law_ambiguity_is_a_tie(available.patches, id, 0);
        }
    }
}

// --- the system ---------------------------------------------------------------------

/// The statuses in the order in which they decide for the system.
pub open spec fn by_urgency() -> Seq<SystemStatus> {
    seq![
        SystemStatus::AmbiguousMatch,
        SystemStatus::PlatformIdUnknown,
        SystemStatus::NoCompatiblePatch,
        SystemStatus::UnsafeDowngrade,
        SystemStatus::MixedCpuConfiguration,
        SystemStatus::BootArtifactOutdated,
        SystemStatus::InstalledButNotBootable,
        SystemStatus::RebootRequired,
        SystemStatus::FirmwareOlderThanBios,
        SystemStatus::RuntimeUpdateUnsupported,
        SystemStatus::SignatureUnverified,
        SystemStatus::VirtualMachineHostManaged,
        SystemStatus::Unknown,
        SystemStatus::UpToDate,
    ]
}

/// A processor has the status, or the processors differ and the status says so.
pub open spec fn is_found(p: Seq<EvaluationModel>, mixed: bool, status: SystemStatus) -> bool {
    ||| mixed && status == SystemStatus::MixedCpuConfiguration
    ||| exists|i: int| 0 <= i < p.len() && (#[trigger] p[i]).status == status
}

/// The status of the system is one that was found, and none that decides before
/// it was found. Only for a guest without any patch is a quiet status replaced
/// by that of microcode that the host manages; without processors nothing is
/// known.
pub proof fn law_the_first_status_decides(input: InputModel, k: int)
    requires
        0 <= k < 14,
    ensures
        ({
            let p = plan_of(input);
            let mixed = input.system.mixed_signature || input.system.mixed_revision;
            let none = forall|i: int|
                0 <= i < p.cpus.len() ==> (#[trigger] p.cpus[i]).best_available_revision is None;
            let decided = p.overall_status == by_urgency()[k] && (forall|j: int|
                0 <= j < k ==> !is_found(p.cpus, mixed, #[trigger] by_urgency()[j])) && (is_found(
                p.cpus,
                mixed,
                by_urgency()[k],
            ) || (p.cpus.len() == 0 && !mixed && by_urgency()[k] == SystemStatus::Unknown));
            let hidden = p.overall_status == SystemStatus::VirtualMachineHostManaged
                && input.system.virtualization == VirtualizationKind::VirtualMachineGuest && none && (
            forall|j: int| 0 <= j < 2 ==> !is_found(p.cpus, mixed, #[trigger] by_urgency()[j])) && (is_found(
                p.cpus,
                mixed,
                SystemStatus::NoCompatiblePatch,
            ) || forall|j: int| 0 <= j < 12 ==> !is_found(p.cpus, mixed, #[trigger] by_urgency()[j]));
            p.overall_status == by_urgency()[k] ==> decided || hidden
        }),
{
    let p = plan_of(input);
    let mixed = input.system.mixed_signature || input.system.mixed_revision;
    let found = statuses_of(p.cpus) + concerns_of(input.system);
    let base = most_urgent(found);
    let order = by_urgency();
    assert(forall|j: int| 0 <= j < 14 ==> (#[trigger] order[j]).urgency() == j);
    assert forall|s: SystemStatus| is_found(p.cpus, mixed, s) implies #[trigger] found.contains(s) by {
        if mixed && s == SystemStatus::MixedCpuConfiguration {
            assert(found[p.cpus.len() as int] == s);
        } else {
            let i = choose|i: int| 0 <= i < p.cpus.len() && (#[trigger] p.cpus[i]).status == s;
            assert(found[i] == s);
        }
    }
    assert forall|j: int| 0 <= j < 14 && is_found(p.cpus, mixed, #[trigger] order[j]) implies base.urgency()
        <= j by {
        assert(found.contains(order[j]));
        let i = choose|i: int| 0 <= i < found.len() && found[i] == order[j];
        law_most_urgent_decides(found, i);
    }
    if found.len() > 0 {
        law_most_urgent_decides(found, 0);
        let i = choose|i: int| 0 <= i < found.len() && found[i] == base;
        if i < p.cpus.len() {
            assert(p.cpus[i].status == base);
        }
        assert(is_found(p.cpus, mixed, base));
    }
}

proof fn lemma_quiet(statuses: Seq<SystemStatus>, k: int)
    requires
        0 <= k < statuses.len(),
    ensures
        most_urgent(statuses).urgency() <= statuses[k].urgency(),
        statuses.contains(most_urgent(statuses)),
{
    law_most_urgent_decides(statuses, k);
}

/// Where no processor of a guest has a patch, the host is what manages its
/// microcode: that is said in place of a patch that is missing, where nothing is
/// refused for another reason, and in place of a status that says nothing.
pub proof fn law_the_host_manages_guests_without_patches(input: InputModel)
    requires
        input.system.virtualization == VirtualizationKind::VirtualMachineGuest,
        forall|i: int|
            0 <= i < plan_of(input).cpus.len() ==> (#[trigger] plan_of(
                input,
            ).cpus[i]).best_available_revision is None,
    ensures
        ({
            let p = plan_of(input);
            let mixed = input.system.mixed_signature || input.system.mixed_revision;
            let missing = is_found(p.cpus, mixed, SystemStatus::NoCompatiblePatch) && !is_found(
                p.cpus,
                mixed,
                SystemStatus::AmbiguousMatch,
            ) && !is_found(p.cpus, mixed, SystemStatus::PlatformIdUnknown);
            let quiet = !mixed && forall|i: int|
                0 <= i < p.cpus.len() ==> ((#[trigger] p.cpus[i]).status == SystemStatus::Unknown
                    || p.cpus[i].status == SystemStatus::UpToDate);
            missing || quiet ==> p.overall_status == SystemStatus::VirtualMachineHostManaged
        }),
{
    let p = plan_of(input);
    let mixed = input.system.mixed_signature || input.system.mixed_revision;
    let found = statuses_of(p.cpus) + concerns_of(input.system);
    let base = most_urgent(found);
    if found.len() > 0 {
        lemma_quiet(found, 0);
        let i = choose|i: int| 0 <= i < found.len() && found[i] == base;
        if i < p.cpus.len() {
            assert(p.cpus[i].status == base);
        }
        assert(is_found(p.cpus, mixed, base));
    }
    if is_found(p.cpus, mixed, SystemStatus::NoCompatiblePatch) {
        let i = choose|i: int|
            0 <= i < p.cpus.len() && (#[trigger] p.cpus[i]).status == SystemStatus::NoCompatiblePatch;
        assert(found[i] == SystemStatus::NoCompatiblePatch);
        lemma_quiet(found, i);
    }
}

/// A status with which nothing is chosen.
pub open spec fn is_refusal(status: SystemStatus, no_catalog: bool) -> bool {
    ||| status == SystemStatus::AmbiguousMatch
    ||| status == SystemStatus::NoCompatiblePatch
    ||| status == SystemStatus::PlatformIdUnknown
    ||| status == SystemStatus::Unknown && no_catalog
}

proof fn lemma_selected(cpus: Seq<EvaluationModel>, i: int)
    requires
        0 <= i < cpus.len(),
        cpus[i].best_patch is Some,
    ensures
        selected_count(cpus, cpus[i].identity.vendor) > 0,
    decreases cpus.len(),
{
    if i < cpus.len() - 1 {
        assert(cpus.drop_last()[i] == cpus[i]);
        lemma_selected(cpus.drop_last(), i);
    }
}

/// A processor could run something newer than it does, or knows nothing of
/// what it runs, and the boot artifact would not load it: it is behind, or it is
/// not known while the processor runs something older.
pub open spec fn wants_image(e: EvaluationModel) -> bool {
    e.best_available_revision matches Some(best) && {
        let behind = e.embedded_revision is Some && e.embedded_revision->0 < best;
        ||| behind && (e.running_revision is None || e.running_revision->0 <= best)
        ||| e.embedded_revision is None && e.running_revision is Some && e.running_revision->0 < best
    }
}

proof fn lemma_evaluated(input: InputModel, i: int) -> (id: CpuIdentity)
    requires
        0 <= i < plan_of(input).cpus.len(),
    ensures
        plan_of(input).cpus[i] == evaluation(
            plan_of(input).cpus[i].processor,
            id,
            input.available,
            input.embedded,
            input.allow_downgrade,
        ),
{
    if input.system.cpus.len() > 0 {
        input.system.cpus[i].identity
    } else {
        input.system.unique_identities[i]
    }
}

/// Whenever nothing is refused and some processor has a newer patch than it
/// runs, while the boot artifact is unknown or embeds a lower revision, the plan
/// lists the early image that will load it and would change the system.
pub proof fn law_newer_patches_get_an_image(input: InputModel, i: int)
    requires
        0 <= i < plan_of(input).cpus.len(),
        wants_image(plan_of(input).cpus[i]),
        !is_refusal(plan_of(input).overall_status, input.available.patches.len() == 0),
    ensures
        plan_of(input).writes.len() == 1,
        plan_of(input).writes[0] is EarlyCpio,
        plan_of(input).would_change,
        plan_of(input).action == Action::InstallFirmwareAndRebuildEarly,
{
    let p = plan_of(input);
    let e = p.cpus[i];
    let id = lemma_evaluated(input, i);
    law_status_follows_the_revisions(
        e.processor,
        id,
        input.available,
        input.embedded,
        input.allow_downgrade,
    );
    law_evaluations_carry_the_newest(
        e.processor,
        id,
        input.available,
        input.embedded,
        input.allow_downgrade,
    );
    let found = statuses_of(p.cpus) + concerns_of(input.system);
    assert(found[i] == e.status);
    law_most_urgent_decides(found, i);
    assert(e.status != SystemStatus::AmbiguousMatch && e.status != SystemStatus::PlatformIdUnknown);
    assert(is_stale(e.status));
    assert(needs_firmware(e.status));
    lemma_selected(p.cpus, i);
    assert(p.cpus == evaluations(input));
    assert(early_write(input, p.cpus) is Some);
}

/// A plan whose boot artifact is behind or does not hold what is installed
/// lists the image that mends it.
pub proof fn law_stale_systems_get_an_image(input: InputModel)
    requires
        plan_of(input).overall_status == SystemStatus::InstalledButNotBootable
            || plan_of(input).overall_status == SystemStatus::BootArtifactOutdated,
    ensures
        plan_of(input).writes.len() == 1,
        plan_of(input).writes[0] is EarlyCpio,
        plan_of(input).would_change,
        plan_of(input).action == Action::InstallFirmwareAndRebuildEarly,
{
    let p = plan_of(input);
    let found = statuses_of(p.cpus) + concerns_of(input.system);
    assert(p.overall_status == most_urgent(found));
    assert(found.len() > 0);
    law_most_urgent_decides(found, 0);
    let i = choose|i: int| 0 <= i < found.len() && found[i] == p.overall_status;
    assert(i < p.cpus.len());
    assert(p.cpus[i].status == p.overall_status);
    let e = p.cpus[i];
    let id = lemma_evaluated(input, i);
    law_status_follows_the_revisions(
        e.processor,
        id,
        input.available,
        input.embedded,
        input.allow_downgrade,
    );
    law_evaluations_carry_the_newest(
        e.processor,
        id,
        input.available,
        input.embedded,
        input.allow_downgrade,
    );
    assert(wants_image(e));
    law_newer_patches_get_an_image(input, i);
}

/// An image is only planned where it was asked for, or where some processor
/// wants one; and where it was asked for, it is planned as soon as there is a
/// patch for a processor and nothing is refused. It goes where it was asked to
/// go.
pub proof fn law_images_have_a_reason(input: InputModel)
    ensures
        ({
            let p = plan_of(input);
            let refused = is_refusal(p.overall_status, input.available.patches.len() == 0);
            &&& p.writes.len() <= 1
            &&& p.would_change <==> p.writes.len() == 1
            &&& refused ==> p.writes.len() == 0
            &&& p.writes.len() == 1 ==> input.want_early_image || exists|i: int|
                0 <= i < p.cpus.len() && wants_image(#[trigger] p.cpus[i])
            &&& !refused && input.want_early_image && (exists|i: int|
                0 <= i < p.cpus.len() && (#[trigger] p.cpus[i]).best_patch is Some) ==> p.writes.len() == 1
            &&& p.writes.len() == 1 ==> (p.writes[0] matches WriteModel::EarlyCpio { path, .. } && (match input.early_output {
                Some(out) => path == out,
                None => path == "ucode-early.cpio"@,
            }))
        }),
{
    let p = plan_of(input);
    assert(p.cpus == evaluations(input));
    if p.writes.len() == 1 && !input.want_early_image {
        let i = choose|i: int| 0 <= i < p.cpus.len() && is_stale((#[trigger] p.cpus[i]).status);
        let e = p.cpus[i];
        let id = lemma_evaluated(input, i);
        law_status_follows_the_revisions(
            e.processor,
            id,
            input.available,
            input.embedded,
            input.allow_downgrade,
        );
        law_evaluations_carry_the_newest(
            e.processor,
            id,
            input.available,
            input.embedded,
            input.allow_downgrade,
        );
        assert(wants_image(e));
    }
    if exists|i: int| 0 <= i < p.cpus.len() && (#[trigger] p.cpus[i]).best_patch is Some {
        let i = choose|i: int| 0 <= i < p.cpus.len() && (#[trigger] p.cpus[i]).best_patch is Some;
        lemma_selected(p.cpus, i);
    }
}

/// What is recommended: to look into contradicting patches; to rebuild the image
/// where one is planned, with new firmware where a processor runs or boots
/// another revision than the best; to reboot where the image is there already;
/// nothing for a guest whose host manages its microcode, and else nothing.
pub proof fn law_the_action_fits_the_plan(input: InputModel)
    ensures
        ({
            let p = plan_of(input);
            let s = p.overall_status;
            let behind = exists|i: int|
                0 <= i < p.cpus.len() && ({
                    let t = (#[trigger] p.cpus[i]).status;
                    t == SystemStatus::RebootRequired || t == SystemStatus::InstalledButNotBootable || t
                        == SystemStatus::BootArtifactOutdated || t == SystemStatus::FirmwareOlderThanBios
                });
            &&& s == SystemStatus::AmbiguousMatch ==> p.action == Action::InvestigateAmbiguity
            &&& p.writes.len() > 0 && behind ==> p.action == Action::InstallFirmwareAndRebuildEarly
            &&& p.writes.len() > 0 && !behind ==> p.action == Action::RebuildEarlyImage
            &&& p.writes.len() == 0 && s == SystemStatus::RebootRequired ==> p.action == Action::Reboot
            &&& p.writes.len() == 0 && s == SystemStatus::VirtualMachineHostManaged ==> p.action
                == Action::NoOpVirtualMachine
            &&& p.writes.len() == 0 && (s == SystemStatus::UpToDate || s == SystemStatus::NoCompatiblePatch || s
                == SystemStatus::PlatformIdUnknown || s == SystemStatus::Unknown || s
                == SystemStatus::FirmwareOlderThanBios || s == SystemStatus::UnsafeDowngrade || s
                == SystemStatus::MixedCpuConfiguration) ==> p.action == Action::NoAction
        }),
{
    let p = plan_of(input);
    assert(p.cpus == evaluations(input));
    if exists|i: int| 0 <= i < p.cpus.len() && needs_firmware((#[trigger] p.cpus[i]).status) {
        let i = choose|i: int| 0 <= i < p.cpus.len() && needs_firmware((#[trigger] p.cpus[i]).status);
        assert(needs_firmware(p.cpus[i].status));
    }
}

/// Without discovered CPUs the known kinds are evaluated in their place,
/// numbered in order.
pub proof fn law_kinds_stand_in_for_cpus(input: InputModel, i: int)
    requires
        input.system.cpus.len() == 0,
        0 <= i < input.system.unique_identities.len() <= u32::MAX,
    ensures
        plan_of(input).cpus.len() == input.system.unique_identities.len(),
        plan_of(input).cpus[i].processor == i,
        plan_of(input).cpus[i].identity == input.system.unique_identities[i],
{
}

// --- what the image holds -----------------------------------------------------------

proof fn lemma_selected_are_counted(cpus: Seq<EvaluationModel>, vendor: Vendor)
    ensures
        selected_count(cpus, vendor) == cpus.filter(
            |e: EvaluationModel| e.identity.vendor == vendor && e.best_patch is Some,
        ).len(),
    decreases cpus.len(),
{
    reveal(Seq::filter);
    if cpus.len() > 0 {
        lemma_selected_are_counted(cpus.drop_last(), vendor);
    }
}

proof fn lemma_loadable_are_counted(patches: Seq<PatchModel>, vendor: Vendor)
    ensures
        loadable_count(patches, vendor) == patches.filter(
            |p: PatchModel| p.vendor == vendor && p.kind == HeaderKind::Microcode,
        ).len(),
    decreases patches.len(),
{
    reveal(Seq::filter);
    if patches.len() > 0 {
        lemma_loadable_are_counted(patches.drop_last(), vendor);
    }
}

/// A planned image is announced with as many patches of each vendor as there
/// are processors of it with a patch; where there are none, with what the
/// catalog holds of its microcode, which for AMD is one container.
pub proof fn law_images_announce_their_patches(input: InputModel)
    ensures
        ({
            let p = plan_of(input);
            p.writes.len() == 1 ==> (p.writes[0] matches WriteModel::EarlyCpio {
                intel_patches,
                amd_patches,
                ..
            } && ({
                let intel = p.cpus.filter(
                    |e: EvaluationModel| e.identity.vendor == Vendor::Intel && e.best_patch is Some,
                ).len();
                let amd = p.cpus.filter(
                    |e: EvaluationModel| e.identity.vendor == Vendor::Amd && e.best_patch is Some,
                ).len();
                let all_intel = input.available.patches.filter(
                    |q: PatchModel| q.vendor == Vendor::Intel && q.kind == HeaderKind::Microcode,
                ).len();
                let all_amd = input.available.patches.filter(
                    |q: PatchModel| q.vendor == Vendor::Amd && q.kind == HeaderKind::Microcode,
                ).len();
                &&& intel > 0 ==> intel_patches == intel
                &&& intel == 0 ==> intel_patches == all_intel
                &&& amd > 0 ==> amd_patches == amd
                &&& amd == 0 && all_amd > 0 ==> amd_patches == 1
                &&& amd == 0 && all_amd == 0 ==> amd_patches == 0
                &&& intel_patches + amd_patches > 0
            }))
        }),
{
    let p = plan_of(input);
    lemma_selected_are_counted(p.cpus, Vendor::Intel);
    lemma_selected_are_counted(p.cpus, Vendor::Amd);
    lemma_loadable_are_counted(input.available.patches, Vendor::Intel);
    lemma_loadable_are_counted(input.available.patches, Vendor::Amd);
    assert(p.cpus == evaluations(input));
}

// --- what is said -------------------------------------------------------------------

/// A patch whose base revision the running system has not reached is reported
/// as such, and only then: by the floor in its header, which zero does not set,
/// and by the one that was published for it. Nothing is said of a processor
/// whose revision is unknown.
pub proof fn law_unmet_floors_are_reported(running: Option<u32>, best: Option<PatchModel>)
    ensures
        ({
            let said = gate_reasons(running, best);
            let run = running->0;
            let p = best->0;
            let late = running is Some && best is Some && (p.runtime_update matches
                RuntimeUpdatePolicy::RequiresBaseRevision(min) && min > run);
            let base = running is Some && best is Some && (p.min_base_revision matches Some(min) && min > run);
            &&& said.len() == (if late {
                1int
            } else {
                0
            }) + (if base {
                1int
            } else {
                0
            })
            &&& late ==> said[0] == "runtime update to 0x"@ + hex(p.revision as nat, 8)
                + " requires base revision ≥ 0x"@ + hex(
                (p.runtime_update->RequiresBaseRevision_0) as nat,
                8,
            )
            &&& base ==> said.last() == "AMD minimum base revision 0x"@ + hex(
                (p.min_base_revision->0) as nat,
                8,
            ) + " not satisfied by running 0x"@ + hex(run as nat, 8)
        }),
{
}

/// The gates of the best patch are among the reasons of an evaluation that
/// compares revisions, behind the reason for its status.
pub proof fn law_gates_are_reasons(
    processor: u32,
    id: CpuIdentity,
    available: CatalogModel,
    embedded: Option<CatalogModel>,
    allow_downgrade: bool,
)
    ensures
        ({
            let e = evaluation(processor, id, available, embedded, allow_downgrade);
            let gates = gate_reasons(id.current_revision, e.best_patch);
            &&& e.reasons.len() > 0
            &&& e.status != SystemStatus::PlatformIdUnknown && e.status != SystemStatus::AmbiguousMatch ==> {
                &&& e.reasons.len() > gates.len()
                &&& e.reasons.skip(e.reasons.len() - gates.len()) == gates
            }
        }),
{
    let e = evaluation(processor, id, available, embedded, allow_downgrade);
    let gates = gate_reasons(id.current_revision, e.best_patch);
    if e.status != SystemStatus::PlatformIdUnknown && e.status != SystemStatus::AmbiguousMatch {
        assert(e.reasons.skip(e.reasons.len() - gates.len()) =~= gates);
    }
}

/// A plan says what it refuses and why, that the image has to be rebuilt where
/// one is planned, that a reboot is due where that is all, that all is well
/// where it is, and that processors differ where they do.
pub proof fn law_plans_say_what_they_mean(input: InputModel)
    ensures
        ({
            let p = plan_of(input);
            let m = p.messages;
            let s = p.overall_status;
            &&& s == SystemStatus::AmbiguousMatch ==> m.contains(
                "conflicting patches share the best revision; refuse to choose automatically"@,
            )
            &&& s == SystemStatus::Unknown && input.available.patches.len() == 0 ==> m.contains(
                "no microcode catalog loaded (no firmware sources found); pass a release tree or use --source"@,
            )
            &&& s == SystemStatus::NoCompatiblePatch ==> m.contains(
                "no compatible microcode patch found in the available catalog"@,
            )
            &&& s == SystemStatus::PlatformIdUnknown ==> m.contains(
                "Intel platform ID is unknown; pass --platform-id or load from a context that provides it"@,
            )
            &&& p.writes.len() > 0 ==> m.contains(
                "rebuild the early microcode CPIO and integrate it into the initrd/UKI via distro tooling"@,
            )
            &&& p.writes.len() == 0 && s == SystemStatus::RebootRequired ==> m.contains(
                "a reboot with an updated early image is required for the new microcode to load"@,
            )
            &&& s == SystemStatus::UpToDate ==> m.contains(
                "running microcode matches the best available patch"@,
            )
            &&& input.system.mixed_signature || input.system.mixed_revision ==> m.contains(
                "mixed CPU signature or microcode revision detected across logical CPUs"@,
            )
            &&& input.system.virtualization == VirtualizationKind::VirtualMachineGuest ==> m.contains(
                "guest virtualization detected ("@ + input.system.virtualization_info.reason
                    + "); microcode is often managed by the hypervisor host"@,
            )
            &&& input.system.virtualization == VirtualizationKind::HypervisorRoot ==> m.contains(
                "Hyper-V root partition detected ("@ + input.system.virtualization_info.reason
                    + "); this is a normal Windows host configuration"@,
            )
            &&& input.system.os != "linux"@ ==> m.contains(
                "running on "@ + input.system.os
                    + "; microcode early-load paths and sysfs revisions are Linux-specific — CPU identity comes from CPUID; pass firmware with --source / path arguments to evaluate patches"@,
            )
        }),
{
    let p = plan_of(input);
    let concerns = concerns_of(input.system);
    let refused = refusal(p.overall_status, input.available.patches.len() == 0);
    let write = p.writes.len() > 0;
    let reboots = refused is None && !write && wants_reboot(p.overall_status);
    let first = environment_messages(input.system);
    let second = if refused is Some {
        seq![refused->0]
    } else {
        advice(write, reboots, p.overall_status == SystemStatus::UpToDate)
    };
    let third = if concerns.len() > 0 {
        seq!["mixed CPU signature or microcode revision detected across logical CPUs"@]
    } else {
        Seq::empty()
    };
    assert(p.messages == first + second + third);
    assert forall|i: int| 0 <= i < first.len() implies p.messages.contains(#[trigger] first[i]) by {
        assert(p.messages[i] == first[i]);
    }
    assert forall|i: int| 0 <= i < second.len() implies p.messages.contains(#[trigger] second[i]) by {
        assert(p.messages[first.len() + i] == second[i]);
    }
    assert forall|i: int| 0 <= i < third.len() implies p.messages.contains(#[trigger] third[i]) by {
        assert(p.messages[first.len() + second.len() + i] == third[i]);
    }
    if first.len() > 0 {
        assert(p.messages.contains(first[0]));
        assert(p.messages.contains(first[first.len() - 1]));
    }
    if second.len() > 0 {
        assert(p.messages.contains(second[0]));
        assert(p.messages.contains(second[second.len() - 1]));
    }
    if third.len() > 0 {
        assert(p.messages.contains(third[0]));
    }
}

/// How many messages of a plan there can be for each reason.
pub open spec fn one_if(b: bool) -> int {
    if b {
        1
    } else {
        0
    }
}

/// A plan says nothing beyond that: it has as many messages as reasons for one.
pub proof fn law_plans_say_no_more(input: InputModel)
    ensures
        ({
            let p = plan_of(input);
            let s = p.overall_status;
            let refused = is_refusal(s, input.available.patches.len() == 0);
            let virt = input.system.virtualization;
            p.messages.len() == one_if(
                virt == VirtualizationKind::VirtualMachineGuest || virt == VirtualizationKind::HypervisorRoot,
            ) + one_if(input.system.os != "linux"@) + one_if(refused || p.writes.len() > 0) + one_if(
                !refused && p.writes.len() == 0 && (s == SystemStatus::RebootRequired || s
                    == SystemStatus::InstalledButNotBootable),
            ) + one_if(s == SystemStatus::UpToDate) + one_if(
                input.system.mixed_signature || input.system.mixed_revision,
            )
        }),
{
}

} // verus!
