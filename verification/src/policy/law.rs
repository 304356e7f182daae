//! What holds of every plan.

use vstd::prelude::*;
use crate::catalog::collection::CatalogModel;
use crate::linux::virt::VirtualizationKind;
use crate::model::cpu::{CpuIdentity, Vendor};
use crate::model::select::{law_ambiguity_is_a_tie, law_nothing_is_guessed, selection};
use crate::policy::plan::{
    early_write, evaluation, evaluations, most_urgent, nothing_available, plan_of,
    platform_unknown, statuses_of, Action, InputModel, WriteModel,
};
use crate::policy::state::{concerns_of, SystemStatus};

verus! {

/// A plan says that it would change the system exactly if it lists a write,
/// and what it lists is an early image with at least one patch.
pub proof fn law_changes_are_listed(input: InputModel)
    ensures
        plan_of(input).would_change <==> plan_of(input).writes.len() > 0,
        forall|i: int|
            0 <= i < plan_of(input).writes.len() ==> {
                &&& (#[trigger] plan_of(input).writes[i]) matches WriteModel::EarlyCpio {
                    path,
                    intel_patches,
                    amd_patches,
                }
                &&& intel_patches + amd_patches > 0
                &&& input.early_output matches Some(p) ==> path == p
            },
{
    let w = early_write(input, evaluations(input));
    assert(w is Some ==> w->0 is EarlyCpio);
}

/// Where patches conflict, none applies, the platform is unknown or there is
/// no catalog, nothing is written.
pub proof fn law_refusals_change_nothing(input: InputModel)
    ensures
        ({
            let p = plan_of(input);
            &&& p.overall_status == SystemStatus::AmbiguousMatch || p.overall_status
                == SystemStatus::NoCompatiblePatch || p.overall_status
                == SystemStatus::PlatformIdUnknown || (p.overall_status == SystemStatus::Unknown
                && input.available.patches.len() == 0) ==> p.writes.len() == 0 && !p.would_change
            &&& p.overall_status == SystemStatus::AmbiguousMatch <==> p.action
                == Action::InvestigateAmbiguity
        }),
{
}

/// A lower revision than the running one is only called an acceptable
/// downgrade where that was allowed.
pub proof fn law_downgrades_need_permission(
    processor: u32,
    id: CpuIdentity,
    available: CatalogModel,
    embedded: Option<CatalogModel>,
    allow_downgrade: bool,
)
    ensures
        ({
            let e = evaluation(processor, id, available, embedded, allow_downgrade);
            let best = e.best_available_revision;
            let run = id.current_revision;
            let lower = best is Some && run is Some && best->0 < run->0;
            &&& e.status == SystemStatus::UnsafeDowngrade ==> allow_downgrade && lower
            &&& lower && !allow_downgrade && e.status != SystemStatus::AmbiguousMatch ==> e.status
                == SystemStatus::FirmwareOlderThanBios
        }),
{
}

/// A CPU is only called up to date where it runs the best available revision
/// and the boot artifact, as far as it is known, has no older one.
pub proof fn law_up_to_date_is_current(
    processor: u32,
    id: CpuIdentity,
    available: CatalogModel,
    embedded: Option<CatalogModel>,
    allow_downgrade: bool,
)
    ensures
        ({
            let e = evaluation(processor, id, available, embedded, allow_downgrade);
            e.status == SystemStatus::UpToDate ==> {
                &&& id.current_revision is Some
                &&& e.best_available_revision == id.current_revision
                &&& e.embedded_revision is Some ==> e.embedded_revision->0
                    >= e.best_available_revision->0
            }
        }),
{
}

/// Without a platform mask no Intel patch is ever chosen.
pub proof fn law_unknown_platforms_get_no_patch(
    processor: u32,
    id: CpuIdentity,
    available: CatalogModel,
    embedded: Option<CatalogModel>,
    allow_downgrade: bool,
)
    requires
        id.vendor == Vendor::Intel,
        id.platform_mask is None,
    ensures
        evaluation(processor, id, available, embedded, allow_downgrade).best_patch is None,
{
    law_nothing_is_guessed(available.patches, id);
}

/// An empty catalog is told apart from one without a match: where no patch is
/// found, the status is unknown without a catalog and says so with one.
pub proof fn law_a_missing_catalog_is_told_apart(
    processor: u32,
    id: CpuIdentity,
    available: CatalogModel,
    embedded: Option<CatalogModel>,
    allow_downgrade: bool,
)
    requires
        selection(available.patches, id).best is None,
        !platform_unknown(available.patches, id),
    ensures
        ({
            let e = evaluation(processor, id, available, embedded, allow_downgrade);
            &&& e.best_patch is None && e.best_available_revision is None
            &&& available.patches.len() == 0 ==> e.status == SystemStatus::Unknown && e.reasons
                == seq!["no firmware catalog loaded"@]
            &&& available.patches.len() > 0 ==> e.status == SystemStatus::NoCompatiblePatch
                && e.reasons == seq!["no applicable patch in available catalog"@]
        }),
{
    if selection(available.patches, id).ambiguous_with.len() > 0 {
        law_ambiguity_is_a_tie(available.patches, id, 0);
    }
}

/// Every discovered CPU is evaluated, in order.
pub proof fn law_every_cpu_is_evaluated(input: InputModel)
    requires
        input.system.cpus.len() > 0,
    ensures
        plan_of(input).cpus.len() == input.system.cpus.len(),
        forall|i: int|
            0 <= i < input.system.cpus.len() ==> {
                &&& (#[trigger] plan_of(input).cpus[i]).processor == input.system.cpus[i].processor
                &&& plan_of(input).cpus[i].identity == input.system.cpus[i].identity
            },
{
}

/// The most urgent status is one of the statuses, and none is more urgent.
pub proof fn law_most_urgent_decides(statuses: Seq<SystemStatus>, i: int)
    requires
        0 <= i < statuses.len(),
    ensures
        statuses.contains(most_urgent(statuses)),
        most_urgent(statuses).urgency() <= statuses[i].urgency(),
    decreases statuses.len(),
{
    if statuses.len() == 1 {
        assert(statuses[0] == most_urgent(statuses));
    } else {
        let front = statuses.drop_last();
        let n = statuses.len() - 1;
        if i < n {
            law_most_urgent_decides(front, i);
        } else {
            law_most_urgent_decides(front, 0);
        }
        assert(statuses[n] == statuses.last());
        if most_urgent(statuses) != statuses.last() {
            let k = choose|k: int| 0 <= k < front.len() && front[k] == most_urgent(front);
            assert(statuses[k] == front[k]);
        }
    }
}

/// Virtualization never hides a patch: microcode is called host-managed only
/// for a confident guest for which no patch is available, and otherwise the
/// status is the most urgent one found.
pub proof fn law_virtualization_is_advisory(input: InputModel)
    ensures
        ({
            let p = plan_of(input);
            let found = statuses_of(p.cpus) + concerns_of(input.system);
            ||| p.overall_status == most_urgent(found)
            ||| {
                &&& p.overall_status == SystemStatus::VirtualMachineHostManaged
                &&& input.system.virtualization == VirtualizationKind::VirtualMachineGuest
                &&& nothing_available(p.cpus)
            }
        }),
{
}

} // verus!
