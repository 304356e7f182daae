//! Laws of what is observed of a host.

use vstd::prelude::*;
use crate::linux::cpuid::FeatureReading;
use crate::linux::cpuinfo::{after_line, after_lines, cpuinfo_of, cpus_of, with_cpu, CpuInfoCpu, PartialCpu};
use crate::linux::discover::{
    cpuid_cpus, cpuid_signature, cpuid_system, differ, first_online, has_kind, has_vendor, mixed_revisions,
    manual_system, mixed_signatures, primary_of, proc_cpus, proc_infos, proc_system, same_kind, same_signature, system_of, text_cpus, unique_of, vendors_of, with_mask, CpuidModel, HostCpuModel, ReadingsModel,
    SystemModel, WindowsModel, WindowsReadingModel,
};
use crate::linux::error::LinuxFault;
use crate::linux::firmware::{default_listing, default_tree, tree_of};
use crate::linux::law::{law_unique_identities_are_distinct, law_unique_identities_cover};
use crate::linux::paths::{firmware_paths, initrd_candidates};
use crate::linux::sysfs::{version_number, CpuOnlineState};
use crate::linux::virt::{VirtualizationKind, VirtualizationModel};
use crate::model::cpu::{
    law_fms_round_trip, CpuIdentity, CpuSignature, ObservationConfidence, ObservationScope, ObservedModel,
    PlatformMask, RevisionSource, Vendor,
};
use crate::number::read_u32;
use crate::text::{contains_text, find_text, lines_text, trim_end_text, trim_text};

verus! {

// --- the CPUs -----------------------------------------------------------------------

/// What a version file says, if it is there and holds a number.
pub open spec fn sysfs_revision(version: Option<Seq<char>>) -> Option<u32> {
    match version {
        Some(text) => match version_number(text) {
            Ok(v) => Some(v as u32),
            Err(_) => None,
        },
        None => None,
    }
}

/// What the kernel's list says, unless it hides the revision.
pub open spec fn listed_revision(info: CpuInfoCpu) -> Option<u32> {
    if info.microcode == Some(0xffff_ffffu32) {
        None
    } else {
        info.microcode
    }
}

/// The CPU is the listed one: its number, vendor, version, package and core,
/// and no platform mask.
pub open spec fn is_listed(c: HostCpuModel, info: CpuInfoCpu) -> bool {
    &&& c.processor == info.processor
    &&& c.identity.vendor == info.vendor
    &&& c.identity.signature == CpuSignature(
        CpuSignature::encode(info.vendor, info.family, info.model, info.stepping),
    )
    &&& c.identity.platform_mask is None
    &&& c.physical_id == info.physical_id
    &&& c.core_id == info.core_id
}

/// The CPUs of a host are those that the kernel lists, in its order. The
/// revision of each is that of its version file, or that of the list where the
/// file gives none; whether it is online is what its file says, and where there
/// is no file only the first CPU is known to be.
pub proof fn law_listed_cpus_are_observed(
    infos: Seq<CpuInfoCpu>,
    files: Seq<(Option<Seq<char>>, Option<Seq<char>>)>,
    brand: Option<Seq<char>>,
)
    requires
        files.len() == infos.len(),
    ensures
        proc_cpus(infos, files, brand).len() == infos.len(),
        forall|i: int|
            0 <= i < infos.len() ==> {
                let c = #[trigger] proc_cpus(infos, files, brand)[i];
                let sysfs = sysfs_revision(files[i].0);
                &&& is_listed(c, infos[i])
                &&& c.brand == brand
                &&& sysfs is Some ==> {
                    &&& c.revision.source == RevisionSource::LinuxSysfs
                    &&& c.identity.current_revision == sysfs
                }
                &&& sysfs is None ==> {
                    &&& c.revision.source == RevisionSource::ProcCpuinfo
                    &&& c.identity.current_revision == listed_revision(infos[i])
                }
                &&& c.revision.scope == ObservationScope::LogicalProcessor
                &&& files[i].1 matches Some(text) ==> {
                    &&& c.online == CpuOnlineState::Online <==> trim_text(text) == "1"@
                    &&& c.online == CpuOnlineState::Offline <==> trim_text(text) == "0"@
                }
                &&& files[i].1 is None ==> {
                    &&& c.online == CpuOnlineState::Online <==> infos[i].processor == 0
                    &&& c.online != CpuOnlineState::Offline
                }
            },
{
    reveal_strlit("1");
    reveal_strlit("0");
    assert("1"@[0] != "0"@[0]);
}

/// From the text alone, the CPUs are those that it lists, all online, with the
/// revisions of the text.
pub proof fn law_text_cpus_are_listed(infos: Seq<CpuInfoCpu>)
    ensures
        text_cpus(infos).len() == infos.len(),
        forall|i: int|
            0 <= i < infos.len() ==> {
                let c = #[trigger] text_cpus(infos)[i];
                &&& is_listed(c, infos[i])
                &&& c.identity.current_revision == listed_revision(infos[i])
                &&& c.online == CpuOnlineState::Online
                &&& c.brand is None
            },
{
}

/// CPUID describes every processor of the host alike: as many as the system
/// reports and at least one, numbered from zero, all online, with the revision
/// that the system reports of itself. The version is the one of the feature
/// leaf, whatever form the version leaf has.
pub proof fn law_cpuid_cpus_are_alike(
    vendor: Vendor,
    f: FeatureReading,
    eax: u32,
    brand: Option<Seq<char>>,
    w: Option<WindowsReadingModel>,
)
    requires
        f.base_family <= 0xf,
        f.base_model <= 0xf,
        f.extended_model <= 0xf,
        f.stepping <= 0xf,
    ensures
        ({
            let s = cpuid_signature(vendor, f, eax);
            let cpus = cpuid_cpus(vendor, s, brand, w);
            &&& cpus.len() >= 1
            &&& w is None ==> cpus.len() == 1
            &&& w matches Some(x) ==> cpus.len() == x.count || x.count <= 1
            &&& cpus.len() > 1 ==> (w matches Some(x) && cpus.len() == x.count)
            &&& forall|i: int|
                0 <= i < cpus.len() ==> {
                    let c = #[trigger] cpus[i];
                    &&& c.processor == i
                    &&& c.identity.vendor == vendor
                    &&& c.identity.signature == s
                    &&& c.identity.platform_mask is None
                    &&& c.identity.current_revision == match w {
                        Some(x) => x.current.revision(),
                        None => None,
                    }
                    &&& w is Some ==> c.revision.scope == ObservationScope::System && c.revision.confidence
                        == ObservationConfidence::Reported
                    &&& c.online == CpuOnlineState::Online
                    &&& c.brand == brand
                }
            &&& s.stepping_field() == f.stepping
            &&& f.base_family < 0xf ==> s.display_family() == f.base_family
            &&& f.base_family == 0xf ==> s.display_family() == 0xf + f.extended_family
            &&& f.base_family == 0xf || (vendor == Vendor::Intel && f.base_family == 6) ==> s.display_model(
                vendor,
            ) == 16 * f.extended_model + f.base_model
            &&& f.base_family < 0xf && !(vendor == Vendor::Intel && f.base_family == 6) ==> s.display_model(
                vendor,
            ) == f.base_model
        }),
{
    law_fms_round_trip(vendor, f.folded_family(), f.folded_model(vendor), f.stepping as u32);
}

/// CPUID gives a system exactly where it names a supported vendor and has a
/// feature leaf; what Windows reports of the whole system is kept beside it.
pub proof fn law_cpuid_needs_a_known_vendor(c: CpuidModel, r: ReadingsModel, virt: VirtualizationModel)
    ensures
        cpuid_system(c, r, virt) is Ok <==> (c.vendor == Some("GenuineIntel"@) || c.vendor == Some(
            "AuthenticAMD"@,
        ) || c.vendor == Some("HygonGenuine"@)) && c.features is Some,
        cpuid_system(c, r, virt) matches Ok(s) ==> {
            &&& s.source == "cpuid"@
            &&& s.os == r.signals.os
            &&& s.windows_microcode is Some <==> r.windows is Some
            &&& r.windows matches Some(w) ==> {
                let m = s.windows_microcode->0;
                &&& m.logical_processor_count == s.cpus.len()
                &&& m.current_revision is Some
                &&& (m.current_revision->0).observed == w.current.observed
                &&& (m.current_revision->0).source == w.current.source
                &&& m.previous_revision is Some <==> w.previous is Some
                &&& w.previous matches Some(p) ==> (m.previous_revision->0).observed == p.observed
                &&& m.registry_keys_observed == if w.previous is Some {
                    1nat
                } else {
                    0
                }
            }
        },
{
    reveal_strlit("GenuineIntel");
    reveal_strlit("AuthenticAMD");
    reveal_strlit("HygonGenuine");
    let none: Seq<char> = Seq::empty();
    assert(none.len() != "GenuineIntel"@.len());
}

// --- the system ---------------------------------------------------------------------

proof fn lemma_first_kinds(cpus: Seq<HostCpuModel>, k: int)
    requires
        0 <= k < unique_of(cpus).len(),
    ensures
        exists|i: int| #[trigger] is_first_of_kind(cpus, i, unique_of(cpus)[k]),
    decreases cpus.len(),
{
    let front = cpus.drop_last();
    let list = unique_of(front);
    if k < list.len() {
        lemma_first_kinds(front, k);
        let i = choose|i: int| #[trigger] is_first_of_kind(front, i, list[k]);
        assert(is_first_of_kind(cpus, i, unique_of(cpus)[k])) by {
            assert(front[i] == cpus[i]);
            assert forall|j: int| 0 <= j < i implies !same_loader_kind(
                (#[trigger] cpus[j]).identity,
                unique_of(cpus)[k],
            ) by {
                assert(front[j] == cpus[j]);
            }
        }
    } else {
        let last = cpus.len() - 1;
        law_unique_identities_cover(front);
        assert(is_first_of_kind(cpus, last, unique_of(cpus)[k])) by {
            assert forall|j: int| 0 <= j < last implies !same_loader_kind(
                (#[trigger] cpus[j]).identity,
                unique_of(cpus)[k],
            ) by {
                assert(front[j] == cpus[j]);
                assert(has_kind(list, front[j].identity));
                if same_loader_kind(cpus[j].identity, cpus.last().identity) {
                    let n = choose|n: int| 0 <= n < list.len() && same_kind(#[trigger] list[n], front[j].identity);
                    assert(same_kind(list[n], cpus.last().identity));
                }
            }
        }
    }
}

/// The two agree in vendor, signature and platform mask.
pub open spec fn same_loader_kind(a: CpuIdentity, b: CpuIdentity) -> bool {
    a.vendor == b.vendor && a.signature == b.signature && a.platform_mask == b.platform_mask
}

/// The identity is that of a CPU before which there is none of its kind.
pub open spec fn is_first_of_kind(cpus: Seq<HostCpuModel>, i: int, id: CpuIdentity) -> bool {
    &&& 0 <= i < cpus.len()
    &&& cpus[i].identity == id
    &&& forall|j: int| 0 <= j < i ==> !same_loader_kind((#[trigger] cpus[j]).identity, id)
}

/// Two CPUs differ in vendor or signature.
pub open spec fn has_two_versions(cpus: Seq<HostCpuModel>) -> bool {
    exists|i: int, j: int|
        0 <= i < cpus.len() && 0 <= j < cpus.len() && ((#[trigger] cpus[i]).identity.vendor != (
        #[trigger] cpus[j]).identity.vendor || cpus[i].identity.signature != cpus[j].identity.signature)
}

/// Two CPUs are known to run different revisions.
pub open spec fn has_two_revisions(cpus: Seq<HostCpuModel>) -> bool {
    exists|i: int, j: int, a: u32, b: u32|
        0 <= i < cpus.len() && 0 <= j < cpus.len() && a != b && #[trigger] runs(cpus[i], a)
            && #[trigger] runs(cpus[j], b)
}

proof fn lemma_versions(cpus: Seq<HostCpuModel>)
    ensures
        mixed_signatures(cpus) <==> has_two_versions(cpus),
{
    if mixed_signatures(cpus) {
        let (i, j) = choose|i: int, j: int|
            0 <= i < cpus.len() && 0 <= j < cpus.len() && !(#[trigger] same_signature(cpus[i], cpus[j]));
        assert(cpus[i].identity.vendor != cpus[j].identity.vendor || cpus[i].identity.signature
            != cpus[j].identity.signature);
    }
    if has_two_versions(cpus) {
        let (i, j) = choose|i: int, j: int|
            0 <= i < cpus.len() && 0 <= j < cpus.len() && ((#[trigger] cpus[i]).identity.vendor != (
            #[trigger] cpus[j]).identity.vendor || cpus[i].identity.signature
                != cpus[j].identity.signature);
        assert(!same_signature(cpus[i], cpus[j]));
    }
}

proof fn lemma_revisions(cpus: Seq<HostCpuModel>)
    ensures
        mixed_revisions(cpus) <==> has_two_revisions(cpus),
{
    if mixed_revisions(cpus) {
        let (i, j) = choose|i: int, j: int|
            0 <= i < cpus.len() && 0 <= j < cpus.len() && #[trigger] differ(
                cpus[i].revision.revision(),
                cpus[j].revision.revision(),
            );
        assert(runs(cpus[i], cpus[i].revision.revision()->0));
        assert(runs(cpus[j], cpus[j].revision.revision()->0));
    }
    if has_two_revisions(cpus) {
        let (i, j, a, b) = choose|i: int, j: int, a: u32, b: u32|
            0 <= i < cpus.len() && 0 <= j < cpus.len() && a != b && #[trigger] runs(cpus[i], a)
                && #[trigger] runs(cpus[j], b);
        assert(differ(cpus[i].revision.revision(), cpus[j].revision.revision()));
    }
}

/// A system tells of its CPUs whether their versions differ, whether revisions
/// that are known differ, and whether one of them is offline; the rest is what
/// was read of the host.
pub proof fn law_systems_describe_their_cpus(
    cpus: Seq<HostCpuModel>,
    source: Seq<char>,
    windows: Option<WindowsModel>,
    r: ReadingsModel,
    virt: VirtualizationModel,
)
    ensures
        ({
            let s = system_of(cpus, source, windows, r, virt);
            &&& s.cpus == cpus
            &&& s.unique_identities == unique_of(cpus)
            &&& s.source == source
            &&& s.windows_microcode == windows
            &&& s.os == r.signals.os
            &&& s.virtualization == virt.kind
            &&& s.virtualization_info == virt
            &&& s.kernel_release is Some <==> r.signals.osrelease is Some
            &&& r.signals.osrelease matches Some(t) ==> s.kernel_release == Some(trim_text(t))
            &&& r.signals.os != "linux"@ ==> s.firmware.intel_dirs.len() == 0 && s.firmware.amd_dirs.len() == 0
            &&& s.mixed_signature <==> has_two_versions(cpus)
            &&& s.mixed_revision <==> has_two_revisions(cpus)
            &&& s.has_offline_cpus <==> exists|i: int|
                0 <= i < cpus.len() && (#[trigger] cpus[i]).online == CpuOnlineState::Offline
        }),
{
    lemma_versions(cpus);
    lemma_revisions(cpus);
}

/// Some listed identity is of the kind.
pub open spec fn is_kind_listed(list: Seq<CpuIdentity>, id: CpuIdentity) -> bool {
    exists|k: int| 0 <= k < list.len() && same_loader_kind(#[trigger] list[k], id)
}

/// Every CPU is of a kind that is listed.
pub proof fn law_every_kind_is_listed(cpus: Seq<HostCpuModel>, i: int)
    requires
        0 <= i < cpus.len(),
    ensures
        is_kind_listed(unique_of(cpus), cpus[i].identity),
{
    law_unique_identities_cover(cpus);
    let list = unique_of(cpus);
    assert(has_kind(list, cpus[i].identity));
    let k = choose|k: int| 0 <= k < list.len() && same_kind(#[trigger] list[k], cpus[i].identity);
    assert(same_loader_kind(list[k], cpus[i].identity));
}

/// What is listed is the first CPU of its kind, and each kind is listed once.
pub proof fn law_the_first_of_each_kind_is_listed(cpus: Seq<HostCpuModel>, k: int, l: int)
    requires
        0 <= k < unique_of(cpus).len(),
        k < l < unique_of(cpus).len() || l == k,
    ensures
        exists|i: int| #[trigger] is_first_of_kind(cpus, i, unique_of(cpus)[k]),
        k < l ==> !same_loader_kind(unique_of(cpus)[k], unique_of(cpus)[l]),
{
    lemma_first_kinds(cpus, k);
    if k < l {
        law_unique_identities_are_distinct(cpus, k, l);
    }
}

/// The CPU was observed to run the revision.
pub open spec fn runs(c: HostCpuModel, revision: u32) -> bool {
    c.revision.observed matches ObservedModel::Known { revision: r, .. } && r == revision
}

proof fn lemma_first_online(cpus: Seq<HostCpuModel>, from: int)
    requires
        0 <= from <= cpus.len(),
    ensures
        match first_online(cpus, from) {
            Some(i) => from <= i < cpus.len() && cpus[i].online == CpuOnlineState::Online && forall|j: int|
                from <= j < i ==> (#[trigger] cpus[j]).online != CpuOnlineState::Online,
            None => forall|j: int| from <= j < cpus.len() ==> (#[trigger] cpus[j]).online != CpuOnlineState::Online,
        },
    decreases cpus.len() - from,
{
    if from < cpus.len() && cpus[from].online != CpuOnlineState::Online {
        lemma_first_online(cpus, from + 1);
    }
}

/// The CPU that stands for the system is the first that is online, and the
/// first of all where none is known to be. A system without CPUs has none.
pub proof fn law_the_first_online_cpu_stands_for_all(cpus: Seq<HostCpuModel>)
    ensures
        primary_of(cpus) is None <==> cpus.len() == 0,
        primary_of(cpus) matches Some(c) ==> {
            ||| exists|i: int|
                0 <= i < cpus.len() && #[trigger] cpus[i] == c && c.online == CpuOnlineState::Online && forall|
                    j: int,
                |
                    0 <= j < i ==> (#[trigger] cpus[j]).online != CpuOnlineState::Online
            ||| c == cpus[0] && forall|j: int|
                0 <= j < cpus.len() ==> (#[trigger] cpus[j]).online != CpuOnlineState::Online
        },
{
    lemma_first_online(cpus, 0);
}

/// The vendors of a system are those of its CPUs, Intel before AMD.
pub proof fn law_vendors_are_those_of_the_cpus(cpus: Seq<HostCpuModel>)
    ensures
        forall|v: Vendor|
            #[trigger] vendors_of(cpus).contains(v) <==> exists|i: int|
                0 <= i < cpus.len() && (#[trigger] cpus[i]).identity.vendor == v,
        vendors_of(cpus).len() <= 2,
        vendors_of(cpus).len() == 2 ==> vendors_of(cpus) == seq![Vendor::Intel, Vendor::Amd],
{
    let list = vendors_of(cpus);
    let intel = has_vendor(cpus, Vendor::Intel);
    let amd = has_vendor(cpus, Vendor::Amd);
    if intel && amd {
        assert(list =~= seq![Vendor::Intel, Vendor::Amd]);
        assert(list[0] == Vendor::Intel && list[1] == Vendor::Amd);
    } else if intel {
        assert(list =~= seq![Vendor::Intel]);
        assert(list[0] == Vendor::Intel);
    } else if amd {
        assert(list =~= seq![Vendor::Amd]);
        assert(list[0] == Vendor::Amd);
    } else {
        assert(list =~= Seq::empty());
    }
    assert forall|v: Vendor| #[trigger] list.contains(v) <==> exists|i: int|
        0 <= i < cpus.len() && (#[trigger] cpus[i]).identity.vendor == v by {
        if v == Vendor::Intel {
            assert(list.contains(v) <==> intel);
        } else {
            assert(list.contains(v) <==> amd);
        }
    }
}

/// A platform mask is attached to every Intel CPU that has none, in the list of
/// CPUs and in that of the kinds, and nothing else changes.
pub proof fn law_masks_reach_every_intel_cpu(s: SystemModel, mask: PlatformMask)
    ensures
        ({
            let n = with_mask(s, mask);
            &&& n.cpus.len() == s.cpus.len()
            &&& forall|i: int|
                0 <= i < s.cpus.len() ==> {
                    let c = #[trigger] n.cpus[i];
                    &&& c == (HostCpuModel { identity: c.identity, ..s.cpus[i] })
                    &&& is_masked(s.cpus[i].identity, c.identity, mask)
                }
            &&& n.unique_identities.len() == s.unique_identities.len()
            &&& forall|i: int|
                0 <= i < s.unique_identities.len() ==> is_masked(
                    s.unique_identities[i],
                    #[trigger] n.unique_identities[i],
                    mask,
                )
            &&& n == (SystemModel { cpus: n.cpus, unique_identities: n.unique_identities, ..s })
        }),
{
}

/// The second identity is the first with the mask, if it may have it.
pub open spec fn is_masked(a: CpuIdentity, b: CpuIdentity, mask: PlatformMask) -> bool {
    &&& b.vendor == a.vendor
    &&& b.signature == a.signature
    &&& b.current_revision == a.current_revision
    &&& a.vendor == Vendor::Intel && a.platform_mask is None ==> b.platform_mask == Some(mask)
    &&& a.vendor != Vendor::Intel || a.platform_mask is Some ==> b.platform_mask == a.platform_mask
}

// --- the kernel's list --------------------------------------------------------------

/// The number that a decimal field holds.
pub open spec fn decimal(value: Seq<char>) -> Option<u32> {
    match read_u32(value, 10) {
        Ok(v) => Some(v as u32),
        Err(_) => None,
    }
}

/// A line sets the field that it names and no other, and a line with another
/// name sets none.
pub proof fn law_lines_set_their_field(cur: PartialCpu, value: Seq<char>, key: Seq<char>)
    ensures
        cur.with_field("processor"@, value) == (PartialCpu { processor: decimal(value), ..cur }),
        cur.with_field("vendor_id"@, value) == (PartialCpu {
            vendor: if value == "GenuineIntel"@ {
                Some(Vendor::Intel)
            } else if value == "AuthenticAMD"@ || value == "HygonGenuine"@ {
                Some(Vendor::Amd)
            } else {
                None
            },
            ..cur
        }),
        cur.with_field("cpu family"@, value) == (PartialCpu { family: decimal(value), ..cur }),
        cur.with_field("model"@, value) == (PartialCpu { model: decimal(value), ..cur }),
        cur.with_field("stepping"@, value) == (PartialCpu { stepping: decimal(value), ..cur }),
        cur.with_field("microcode"@, value) == (PartialCpu {
            microcode: match version_number(value) {
                Ok(v) => Some(v as u32),
                Err(_) => None,
            },
            ..cur
        }),
        cur.with_field("physical id"@, value) == (PartialCpu { physical_id: decimal(value), ..cur }),
        cur.with_field("core id"@, value) == (PartialCpu { core_id: decimal(value), ..cur }),
        key != "processor"@ && key != "vendor_id"@ && key != "cpu family"@ && key != "model"@ && key
            != "stepping"@ && key != "microcode"@ && key != "physical id"@ && key != "core id"@
            ==> cur.with_field(key, value) == cur,
{
    reveal_strlit("processor");
    reveal_strlit("vendor_id");
    reveal_strlit("cpu family");
    reveal_strlit("model");
    reveal_strlit("stepping");
    reveal_strlit("microcode");
    reveal_strlit("physical id");
    reveal_strlit("core id");
    assert("processor"@[1] == 'r');
    assert("model"@[0] == 'm' && "model"@[1] == 'o');
    assert("microcode"@[1] == 'i');
    assert("physical id"@[1] == 'h');
    assert("vendor_id"@[0] == 'v' && "stepping"@[0] == 's');
    assert("cpu family"@[1] == 'p' && "core id"@[1] == 'o' && "core id"@[0] == 'c' && "cpu family"@[0] == 'c');
}

/// A block tells of a CPU exactly if it has its number, vendor, family, model
/// and stepping; the CPU then has all that the block holds.
pub proof fn law_blocks_need_their_fields(cur: PartialCpu)
    ensures
        cur.finished() is Some <==> cur.processor is Some && cur.vendor is Some && cur.family is Some
            && cur.model is Some && cur.stepping is Some,
        cur.finished() matches Some(c) ==> {
            &&& Some(c.processor) == cur.processor
            &&& Some(c.vendor) == cur.vendor
            &&& Some(c.family) == cur.family
            &&& Some(c.model) == cur.model
            &&& Some(c.stepping) == cur.stepping
            &&& c.microcode == cur.microcode
            &&& c.physical_id == cur.physical_id
            &&& c.core_id == cur.core_id
        },
{
}

/// The CPUs of a list of lines, the last block with or without an empty line
/// behind it.
pub open spec fn cpus_in(all: Seq<Seq<char>>) -> Seq<CpuInfoCpu> {
    with_cpu(after_lines(all).0, after_lines(all).1)
}

proof fn lemma_blocks(a: Seq<Seq<char>>, blank: Seq<char>, b: Seq<Seq<char>>)
    requires
        trim_end_text(blank).len() == 0,
    ensures
        after_lines(a.push(blank) + b) == (cpus_in(a) + after_lines(b).0, after_lines(b).1),
    decreases b.len(),
{
    let all = a.push(blank) + b;
    if b.len() == 0 {
        assert(all =~= a.push(blank));
        assert(all.drop_last() =~= a);
        assert(cpus_in(a) + after_lines(b).0 =~= cpus_in(a));
    } else {
        lemma_blocks(a, blank, b.drop_last());
        assert(all.drop_last() =~= a.push(blank) + b.drop_last());
        assert(all.last() == b.last());
        let (cpus, cur) = after_lines(b.drop_last());
        assert(cpus_in(a) + with_cpu(cpus, cur) =~= with_cpu(cpus_in(a) + cpus, cur));
    }
}

/// Blocks that an empty line separates tell nothing of each other: the CPUs
/// are those of what comes before it and those of what comes after it, in
/// order. A line without a colon tells nothing, and any other sets the field
/// before the first colon to what is behind it.
pub proof fn law_blocks_are_independent(a: Seq<Seq<char>>, line: Seq<char>, b: Seq<Seq<char>>)
    ensures
        trim_end_text(line).len() == 0 ==> cpus_in(a.push(line) + b) == cpus_in(a) + cpus_in(b),
        trim_end_text(line).len() > 0 ==> {
            let cur = after_lines(a).1;
            let t = trim_end_text(line);
            &&& after_lines(a.push(line)).0 == after_lines(a).0
            &&& after_lines(a.push(line)).1 == match find_text(t, ":"@) {
                Some(i) => cur.with_field(trim_text(t.take(i)), trim_text(t.skip(i + 1))),
                None => cur,
            }
        },
        cpus_in(Seq::empty()) == Seq::<CpuInfoCpu>::empty(),
{
    if trim_end_text(line).len() == 0 {
        lemma_blocks(a, line, b);
        let (cpus, cur) = after_lines(b);
        assert(cpus_in(a) + with_cpu(cpus, cur) =~= with_cpu(cpus_in(a) + cpus, cur));
    }
    assert(a.push(line).drop_last() =~= a);
    assert(after_lines(a.push(line)) == after_line(after_lines(a).0, after_lines(a).1, line));
}

/// A text is understood exactly if it tells of a CPU, and then for all that it
/// tells of.
pub proof fn law_texts_list_their_cpus(text: Seq<char>)
    ensures
        cpuinfo_of(text) is Ok <==> cpus_in(lines_text(text)).len() > 0,
        cpuinfo_of(text) matches Ok(v) ==> v == cpus_in(lines_text(text)),
{
    assert(cpus_of(text) == cpus_in(lines_text(text)));
}

// --- firmware -----------------------------------------------------------------------

/// The path is a directory whose name tells AMD and not Intel.
pub open spec fn is_amd_dir(d: (Seq<char>, Option<usize>), name: Seq<char>) -> bool {
    d.1 is Some && contains_text(name, "amd"@) && !contains_text(name, "intel"@)
}

/// The path is any other directory.
pub open spec fn is_other_dir(d: (Seq<char>, Option<usize>), name: Seq<char>) -> bool {
    d.1 is Some && !is_amd_dir(d, name)
}

/// Directories are listed in order with the files in them, those whose name
/// tells AMD alone with AMD's and all others with Intel's; what is no directory
/// is not listed.
pub proof fn law_directories_go_to_their_vendor(
    v: Seq<(Seq<char>, Option<usize>)>,
    names: Seq<Seq<char>>,
    d: (Seq<char>, Option<usize>),
    name: Seq<char>,
)
    requires
        names.len() == v.len(),
    ensures
        ({
            let t = tree_of(v, names);
            let n = tree_of(v.push(d), names.push(name));
            &&& is_amd_dir(d, name) ==> {
                &&& n.amd_dirs == t.amd_dirs.push(d.0)
                &&& n.amd_files == t.amd_files + d.1->0
                &&& n.intel_dirs == t.intel_dirs
                &&& n.intel_files == t.intel_files
            }
            &&& is_other_dir(d, name) ==> {
                &&& n.intel_dirs == t.intel_dirs.push(d.0)
                &&& n.intel_files == t.intel_files + d.1->0
                &&& n.amd_dirs == t.amd_dirs
                &&& n.amd_files == t.amd_files
            }
            &&& d.1 is None ==> n == t
        }),
{
    assert(v.push(d).drop_last() =~= v);
    lemma_names_beyond(v, names, name);
}

proof fn lemma_names_beyond(v: Seq<(Seq<char>, Option<usize>)>, names: Seq<Seq<char>>, name: Seq<char>)
    requires
        names.len() >= v.len(),
    ensures
        tree_of(v, names.push(name)) == tree_of(v, names),
    decreases v.len(),
{
    if v.len() > 0 {
        lemma_names_beyond(v.drop_last(), names, name);
        assert(names.push(name)[v.len() - 1] == names[v.len() - 1]);
    }
}

/// The boot images of the running kernel come before those without a version,
/// and without a release only the latter are looked for.
pub proof fn law_versioned_images_come_first(release: Option<Seq<char>>)
    ensures
        ({
            let all = initrd_candidates(release);
            let plain = initrd_candidates(None);
            &&& release is None || trim_text(release->0).len() == 0 ==> all == plain
            &&& release is Some && trim_text(release->0).len() > 0 ==> {
                let rel = trim_text(release->0);
                &&& all.len() == plain.len() + 3
                &&& all[0] == "/boot/initrd.img-"@ + rel
                &&& all[1] == "/boot/initramfs-"@ + rel + ".img"@
                &&& all[2] == "/boot/initrd-"@ + rel
                &&& all.skip(3) == plain
            }
            &&& plain == seq![
                "/boot/initrd.img"@,
                "/boot/initramfs.img"@,
                "/boot/initrd"@,
                "/boot/initramfs-linux.img"@,
                "/boot/initramfs-linux-lts.img"@,
            ]
        }),
{
    if release is Some && trim_text(release->0).len() > 0 {
        assert(initrd_candidates(release).skip(3) =~= initrd_candidates(None));
    }
}

/// A system that the kernel describes has the CPUs of its list, each under the
/// name of the processor where that is not blank, and the firmware of the
/// default directories, of which those count that were found.
pub proof fn law_listed_systems_have_the_listed_cpus(
    infos: Seq<CpuInfoCpu>,
    r: ReadingsModel,
    brand: Option<Seq<char>>,
    virt: VirtualizationModel,
)
    ensures
        ({
            let s = proc_system(infos, r, brand, virt);
            let name = if brand is Some && trim_text(brand->0).len() > 0 {
                Some(trim_text(brand->0))
            } else {
                None
            };
            &&& s.cpus == proc_cpus(infos, r.cpu_files, name)
            &&& s.source == "proc"@
            &&& s.windows_microcode is None
            &&& s.virtualization_info == virt
            &&& r.signals.os == "linux"@ ==> s.firmware == default_tree(r.firmware_counts)
        }),
        default_listing(r.firmware_counts).len() == firmware_paths().len(),
        forall|i: int|
            0 <= i < firmware_paths().len() ==> {
                let d = #[trigger] default_listing(r.firmware_counts)[i];
                &&& d.0 == firmware_paths()[i]
                &&& i < r.firmware_counts.len() ==> d.1 == r.firmware_counts[i]
                &&& i >= r.firmware_counts.len() ==> d.1 is None
            },
{
}

/// The list is understood exactly if it could be read and tells of a CPU.
pub proof fn law_the_list_is_used_where_it_helps(r: ReadingsModel)
    ensures
        proc_infos(r) is Some <==> (r.cpuinfo matches Some(t) && cpuinfo_of(t) is Ok),
        proc_infos(r) matches Some(v) ==> (r.cpuinfo matches Some(t) && cpuinfo_of(t) == Ok::<_, LinuxFault>(v)),
{
}

/// A system that was described by hand has one CPU, online, of the identity
/// that was given, and nothing was observed of it.
pub proof fn law_manual_systems_have_one_cpu(id: CpuIdentity, os: Seq<char>)
    ensures
        ({
            let s = manual_system(id, os);
            &&& s.cpus.len() == 1
            &&& s.cpus[0].processor == 0
            &&& s.cpus[0].identity == id
            &&& s.cpus[0].online == CpuOnlineState::Online
            &&& s.cpus[0].revision.revision() is None
            &&& s.cpus[0].revision.source == RevisionSource::Manual
            &&& s.unique_identities == seq![id]
            &&& !s.mixed_signature && !s.mixed_revision && !s.has_offline_cpus
            &&& s.virtualization == VirtualizationKind::Unknown
            &&& s.windows_microcode is None
            &&& s.kernel_release is None
            &&& s.firmware.intel_dirs.len() == 0 && s.firmware.amd_dirs.len() == 0
            &&& s.source == "manual"@
            &&& s.os == os
        }),
{
}

/// A version is hexadecimal behind its prefix and decimal without one, and
/// white space around it means nothing.
pub proof fn law_versions_are_numbers(s: Seq<char>, digits: Seq<char>)
    ensures
        trim_text(s) == "0x"@ + digits || trim_text(s) == "0X"@ + digits ==> version_number(s) == read_u32(
            digits,
            16,
        ),
        trim_text(s).len() < 2 || trim_text(s)[0] != '0' || (trim_text(s)[1] != 'x' && trim_text(s)[1] != 'X')
            ==> version_number(s) == read_u32(trim_text(s), 10),
{
    let t = trim_text(s);
    reveal_strlit("0x");
    reveal_strlit("0X");
    if t == "0x"@ + digits {
        assert(t.subrange(0, 2) =~= "0x"@);
        assert(t.skip(2) =~= digits);
    }
    if t == "0X"@ + digits {
        assert(t.subrange(0, 2) =~= "0X"@);
        assert(t.skip(2) =~= digits);
    }
    if t.len() >= 2 {
        assert(t.subrange(0, 2)[0] == t[0] && t.subrange(0, 2)[1] == t[1]);
        assert("0x"@[0] == '0' && "0x"@[1] == 'x' && "0X"@[0] == '0' && "0X"@[1] == 'X');
    }
}

} // verus!
