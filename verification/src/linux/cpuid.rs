//! What the CPUID instruction reports of the processor this runs on.
//!
//! The answers depend on the machine, and under a hypervisor on what it
//! chooses to show, so nothing is claimed of them: the functions that draw
//! conclusions take a reading as an argument.

use vstd::prelude::*;
use crate::model::cpu::Vendor;

verus! {

/// The registers of one CPUID leaf.
#[derive(Debug, Clone, Copy)]
pub struct Leaf {
    /// Which leaf it is.
    pub number: u32,
    pub eax: u32,
    pub ebx: u32,
    pub ecx: u32,
    pub edx: u32,
}

/// A hypervisor product, or the vendor registers of one that is not known.
#[derive(Debug, Clone, Copy, PartialEq, Eq, Structural)]
pub enum HypervisorId {
    Xen,
    VMware,
    HyperV,
    Kvm,
    Qemu,
    Bhyve,
    Qnx,
    Acrn,
    Unknown(u32, u32, u32),
}

/// What the feature leaf says of the processor's version, field by field, and
/// whether it sets the "hypervisor present" bit.
#[derive(Debug, Clone, Copy)]
pub struct FeatureReading {
    pub base_family: u8,
    pub extended_family: u8,
    pub base_model: u8,
    pub extended_model: u8,
    pub stepping: u8,
    pub hypervisor: bool,
}

impl FeatureReading {
    /// The family: the extended part counts where the base part is at its end.
    pub open spec fn folded_family(self) -> u32 {
        if self.base_family < 0xf {
            self.base_family as u32
        } else {
            (self.base_family + self.extended_family) as u32
        }
    }

    /// The model: the extended part counts where the base family is at its end,
    /// and for Intel in family 6 too.
    pub open spec fn folded_model(self, vendor: Vendor) -> u32 {
        if self.base_family >= 0xf || (vendor == Vendor::Intel && self.base_family == 6) {
            (self.extended_model * 16 + self.base_model) as u32
        } else {
            self.base_model as u32
        }
    }

    /// The family with its extended part folded in.
    pub fn family(&self) -> (r: u32)
        ensures
            r == self.folded_family(),
    {
        if self.base_family < 0xf {
            self.base_family as u32
        } else {
            self.base_family as u32 + self.extended_family as u32
        }
    }

    /// The model with its extended part folded in.
    pub fn model(&self, vendor: Vendor) -> (r: u32)
        ensures
            r == self.folded_model(vendor),
    {
        if self.base_family >= 0xf || (vendor == Vendor::Intel && self.base_family == 6) {
            self.extended_model as u32 * 16 + self.base_model as u32
        } else {
            self.base_model as u32
        }
    }
}

/// `raw_cpuid::native_cpuid::cpuid_count` with sub-leaf 0: the four registers
/// after CPUID, with the number of the leaf that was asked for. The registers
/// depend on the machine; nothing is claimed of them.
#[verifier::external_body]
pub(crate) fn read_leaf(leaf: u32) -> (r: Leaf)
    ensures
        r.number == leaf,
{
    let v = raw_cpuid::native_cpuid::cpuid_count(leaf, 0);
    Leaf { number: leaf, eax: v.eax, ebx: v.ebx, ecx: v.ecx, edx: v.edx }
}

/// `raw_cpuid::CpuId::get_vendor_info`: the vendor text of leaf 0, if the leaf
/// is there. It depends on the machine; nothing is claimed of it.
#[verifier::external_body]
pub(crate) fn read_vendor() -> (r: Option<String>) {
    raw_cpuid::CpuId::new().get_vendor_info().map(|v| v.as_str().to_owned())
}

/// `raw_cpuid::CpuId::get_feature_info`: the fields of leaf 1 that give the
/// processor's version, and its hypervisor bit, if the leaf is there. The values
/// depend on the machine; all that is claimed is that every field but the
/// extended family has four bits.
#[verifier::external_body]
pub(crate) fn read_features() -> (r: Option<FeatureReading>)
    ensures
        r matches Some(f) ==> f.base_family <= 0xf && f.base_model <= 0xf && f.extended_model <= 0xf
            && f.stepping <= 0xf,
{
    raw_cpuid::CpuId::new().get_feature_info().map(
        |f|
            FeatureReading {
                base_family: f.base_family_id(),
                extended_family: f.extended_family_id(),
                base_model: f.base_model_id(),
                extended_model: f.extended_model_id(),
                stepping: f.stepping_id(),
                hypervisor: f.has_hypervisor(),
            },
    )
}

/// `raw_cpuid::CpuId::get_hypervisor_info` and `identify`: the product that the
/// hypervisor leaf names, if there is one. It depends on the machine; nothing
/// is claimed of it.
#[verifier::external_body]
pub(crate) fn read_hypervisor_id() -> (r: Option<HypervisorId>) {
    raw_cpuid::CpuId::new().get_hypervisor_info().map(|h| match h.identify() {
        raw_cpuid::Hypervisor::Xen => HypervisorId::Xen,
        raw_cpuid::Hypervisor::VMware => HypervisorId::VMware,
        raw_cpuid::Hypervisor::HyperV => HypervisorId::HyperV,
        raw_cpuid::Hypervisor::KVM => HypervisorId::Kvm,
        raw_cpuid::Hypervisor::QEMU => HypervisorId::Qemu,
        raw_cpuid::Hypervisor::Bhyve => HypervisorId::Bhyve,
        raw_cpuid::Hypervisor::QNX => HypervisorId::Qnx,
        raw_cpuid::Hypervisor::ACRN => HypervisorId::Acrn,
        raw_cpuid::Hypervisor::Unknown(b, c, d) => HypervisorId::Unknown(b, c, d),
    })
}

/// `raw_cpuid::CpuId::get_processor_brand_string`: the marketing name of the
/// processor, if its leaves are there. It depends on the machine; nothing is
/// claimed of it.
#[verifier::external_body]
pub(crate) fn read_brand() -> (r: Option<String>) {
    raw_cpuid::CpuId::new().get_processor_brand_string().map(|b| b.as_str().to_owned())
}

} // verus!
