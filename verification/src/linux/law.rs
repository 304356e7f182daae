//! What holds of every discovered system.

use vstd::prelude::*;
use crate::linux::cpuinfo::CpuInfoCpu;
use crate::linux::discover::{
    cpuid_cpus, has_kind, masked, mixed_signatures, proc_cpus, proc_revision, same_kind,
    same_signature, text_cpus, unique_of, with_mask, HostCpuModel, SystemModel, WindowsReadingModel,
};
use crate::model::cpu::{CpuIdentity, CpuSignature, PlatformMask, Vendor};

verus! {

/// The identity of a CPU carries the revision that was observed.
pub open spec fn revision_is_observed(c: HostCpuModel) -> bool {
    c.identity.current_revision == c.revision.revision()
}

/// However a system was discovered, the revision that policy sees of a CPU is
/// the one that was observed, and none where none was.
pub proof fn law_identities_carry_observed_revisions(
    infos: Seq<CpuInfoCpu>,
    files: Seq<(Option<Seq<char>>, Option<Seq<char>>)>,
    brand: Option<Seq<char>>,
    vendor: Vendor,
    signature: CpuSignature,
    windows: Option<WindowsReadingModel>,
    i: int,
)
    ensures
        0 <= i < proc_cpus(infos, files, brand).len() ==> revision_is_observed(
            proc_cpus(infos, files, brand)[i],
        ),
        0 <= i < text_cpus(infos).len() ==> revision_is_observed(text_cpus(infos)[i]),
        0 <= i < cpuid_cpus(vendor, signature, brand, windows).len() ==> revision_is_observed(
            cpuid_cpus(vendor, signature, brand, windows)[i],
        ),
{
}

/// The value with which a kernel says that the revision is hidden is never
/// taken for a revision.
pub proof fn law_sentinel_is_no_revision(value: Option<u32>, infos: Seq<CpuInfoCpu>, i: int)
    requires
        0 <= i < infos.len(),
    ensures
        proc_revision(value).revision() != Some(u32::MAX),
        text_cpus(infos)[i].identity.current_revision != Some(u32::MAX),
{
}

/// Every CPU is of a kind that is listed, and every listed identity is that of
/// a CPU.
pub proof fn law_unique_identities_cover(cpus: Seq<HostCpuModel>)
    ensures
        forall|i: int|
            0 <= i < cpus.len() ==> has_kind(unique_of(cpus), (#[trigger] cpus[i]).identity),
        forall|k: int|
            0 <= k < unique_of(cpus).len() ==> exists|i: int|
                0 <= i < cpus.len() && (#[trigger] cpus[i]).identity == #[trigger] unique_of(
                    cpus,
                )[k],
    decreases cpus.len(),
{
    if cpus.len() > 0 {
        let front = cpus.drop_last();
        law_unique_identities_cover(front);
        let old_list = unique_of(front);
        let list = unique_of(cpus);
        assert forall|i: int| 0 <= i < cpus.len() implies has_kind(
            list,
            (#[trigger] cpus[i]).identity,
        ) by {
            if i < front.len() {
                assert(front[i] == cpus[i]);
                let k = choose|k: int|
                    0 <= k < old_list.len() && same_kind(#[trigger] old_list[k], cpus[i].identity);
                assert(list[k] == old_list[k]);
            } else if !has_kind(old_list, cpus.last().identity) {
                assert(same_kind(list[old_list.len() as int], cpus[i].identity));
            }
        }
        assert forall|k: int| 0 <= k < list.len() implies exists|i: int|
            0 <= i < cpus.len() && (#[trigger] cpus[i]).identity == #[trigger] list[k] by {
            if k < old_list.len() {
                assert(list[k] == old_list[k]);
                let i = choose|i: int|
                    0 <= i < front.len() && (#[trigger] front[i]).identity == old_list[k];
                assert(cpus[i] == front[i]);
            } else {
                assert(cpus[cpus.len() - 1].identity == list[k]);
            }
        }
    }
}

/// No two listed identities are of the same kind.
pub proof fn law_unique_identities_are_distinct(cpus: Seq<HostCpuModel>, i: int, j: int)
    requires
        0 <= i < j < unique_of(cpus).len(),
    ensures
        !same_kind(unique_of(cpus)[i], unique_of(cpus)[j]),
    decreases cpus.len(),
{
    let front = cpus.drop_last();
    let old_list = unique_of(front);
    let list = unique_of(cpus);
    if j < old_list.len() {
        law_unique_identities_are_distinct(front, i, j);
    } else {
        assert(list[i] == old_list[i]);
        assert(list[j] == cpus.last().identity);
        assert(!has_kind(old_list, cpus.last().identity));
    }
}

/// A system with mixed signatures lists more than one identity.
pub proof fn law_mixed_systems_list_each_kind(cpus: Seq<HostCpuModel>)
    requires
        mixed_signatures(cpus),
    ensures
        unique_of(cpus).len() > 1,
{
    let list = unique_of(cpus);
    let (i, j) = choose|i: int, j: int|
        0 <= i < cpus.len() && 0 <= j < cpus.len() && !(#[trigger] same_signature(
            cpus[i],
            cpus[j],
        ));
    law_unique_identities_cover(cpus);
    assert(has_kind(list, cpus[i].identity));
    assert(has_kind(list, cpus[j].identity));
    let a = choose|k: int| 0 <= k < list.len() && same_kind(#[trigger] list[k], cpus[i].identity);
    let b = choose|k: int| 0 <= k < list.len() && same_kind(#[trigger] list[k], cpus[j].identity);
    assert(a != b);
}

/// Attaching a platform mask never replaces one, touches Intel CPUs only, and
/// does nothing the second time.
pub proof fn law_masks_are_only_added(s: SystemModel, mask: PlatformMask, other: PlatformMask)
    ensures
        with_mask(with_mask(s, mask), other) == with_mask(s, mask),
        forall|i: int|
            0 <= i < s.cpus.len() && ((#[trigger] s.cpus[i]).identity.vendor != Vendor::Intel
                || s.cpus[i].identity.platform_mask is Some) ==> with_mask(s, mask).cpus[i]
                == s.cpus[i],
        forall|i: int|
            0 <= i < s.cpus.len() && (#[trigger] s.cpus[i]).identity.vendor == Vendor::Intel
                ==> with_mask(s, mask).cpus[i].identity.platform_mask is Some,
{
    let once = with_mask(s, mask);
    let twice = with_mask(once, other);
    assert forall|id: CpuIdentity| masked(#[trigger] masked(id, mask), other) == masked(
        id,
        mask,
    ) by {}
    assert(twice.cpus =~= once.cpus) by {
        assert forall|i: int| 0 <= i < s.cpus.len() implies twice.cpus[i] == once.cpus[i] by {
            assert(once.cpus[i].identity == masked(s.cpus[i].identity, mask));
            assert(twice.cpus[i] =~= once.cpus[i]);
        }
    }
    assert(twice.unique_identities =~= once.unique_identities);
    assert forall|i: int|
        0 <= i < s.cpus.len() && ((#[trigger] s.cpus[i]).identity.vendor != Vendor::Intel
            || s.cpus[i].identity.platform_mask is Some) implies once.cpus[i] == s.cpus[i] by {
        assert(once.cpus[i] =~= s.cpus[i]);
    }
}

} // verus!
