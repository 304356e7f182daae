//! Vendor-neutral metadata of microcode patches.

use vstd::prelude::*;
use crate::model::cpu::{CpuIdentity, CpuSignature, PlatformMask, Vendor};
use crate::model::date::UcodeDate;
use crate::number::{dec, dec_text};

verus! {

/// What kind of payload a header describes.
///
/// Intel reuses the microcode header for In-Field Scan test images
/// (`hdrver == MC_HEADER_TYPE_IFS`). These must never be handed to the
/// microcode loader, so the distinction is part of the domain model.
#[derive(Debug, Clone, Copy, PartialEq, Eq, Structural)]
pub enum HeaderKind {
    Microcode,
    IntelIfsTestImage,
    Unknown(u32),
}

impl HeaderKind {
    pub open spec fn kind_text(self) -> Seq<char> {
        match self {
            HeaderKind::Microcode => "microcode"@,
            HeaderKind::IntelIfsTestImage => "IFS test image"@,
            HeaderKind::Unknown(v) => "unknown header type "@ + dec(v as nat),
        }
    }

    pub fn to_string(self) -> (r: String)
        ensures
            r@ == self.kind_text(),
    {
        match self {
            HeaderKind::Microcode => "microcode".to_owned(),
            HeaderKind::IntelIfsTestImage => "IFS test image".to_owned(),
            HeaderKind::Unknown(v) => {
                let mut m = "unknown header type ".to_owned();
                m.append(dec_text(v as u64).as_str());
                m
            },
        }
    }
}

/// One (signature, platform) pair a patch applies to.
#[derive(Debug, Clone, Copy, PartialEq, Eq, PartialOrd, Ord, Hash, Structural)]
pub struct ProcessorMatch {
    pub signature: CpuSignature,
    /// Intel platform mask. Always unrestricted for AMD.
    pub platform_mask: PlatformMask,
    /// AMD equivalence id (`processor_rev_id`). `None` for Intel.
    pub equivalence_id: Option<u16>,
    /// `true` for the signature carried in the primary header, `false` for
    /// entries that came from an Intel extended signature table.
    pub primary: bool,
}

impl ProcessorMatch {
    /// The pair covers the processor. An Intel processor whose platform is
    /// unknown is covered by nothing.
    pub open spec fn covers(self, cpu: CpuIdentity) -> bool {
        &&& self.signature == cpu.signature
        &&& match cpu.vendor {
            Vendor::Amd => true,
            Vendor::Intel => match cpu.platform_mask {
                Some(mask) => self.platform_mask.compatible(mask),
                None => false,
            },
        }
    }

    pub fn intel(signature: CpuSignature, platform_mask: PlatformMask, primary: bool) -> (r: Self)
        ensures
            r == (ProcessorMatch { signature, platform_mask, equivalence_id: None, primary }),
    {
        ProcessorMatch { signature, platform_mask, equivalence_id: None, primary }
    }

    pub fn amd(signature: CpuSignature, equivalence_id: u16) -> (r: Self)
        ensures
            r == (ProcessorMatch {
                signature,
                platform_mask: PlatformMask(0),
                equivalence_id: Some(equivalence_id),
                primary: true,
            }),
    {
        ProcessorMatch {
            signature,
            platform_mask: PlatformMask::any(),
            equivalence_id: Some(equivalence_id),
            primary: true,
        }
    }

    /// `intel_ucode_sigmatch()` generalised over vendors.
    pub fn applies_to(&self, cpu: &CpuIdentity) -> (r: bool)
        ensures
            r == self.covers(*cpu),
    {
        if self.signature != cpu.signature {
            return false;
        }
        match cpu.vendor {
            Vendor::Amd => true,
            Vendor::Intel => match cpu.platform_mask {
                Some(cpu_mask) => self.platform_mask.matches(cpu_mask),
                // Unknown platform ID: we refuse to claim a match. The policy
                // layer turns this into an explicit "ambiguous" state instead
                // of quietly loading a possibly wrong image.
                None => false,
            },
        }
    }
}

/// Whether a patch may be applied while the system is running.
#[derive(Debug, Clone, Copy, PartialEq, Eq, Structural)]
pub enum RuntimeUpdatePolicy {
    /// Intel published a non-zero Minimum Runtime Update Revision.
    RequiresBaseRevision(u32),
    /// The vendor gave no runtime-update indication.
    Unspecified,
}

/// Where a patch physically came from.
#[derive(Debug, PartialEq, Eq)]
pub struct PatchOrigin {
    /// Display path of the containing blob.
    pub source: String,
    /// Byte offset of the patch inside that blob.
    pub offset: u64,
    /// Byte length of the patch as stored.
    pub length: u32,
}

/// The contents of a [`PatchOrigin`].
#[verifier::ext_equal]
pub struct OriginModel {
    pub source: Seq<char>,
    pub offset: u64,
    pub length: u32,
}

impl View for PatchOrigin {
    type V = OriginModel;

    open spec fn view(&self) -> OriginModel {
        OriginModel { source: self.source@, offset: self.offset, length: self.length }
    }
}

impl Clone for PatchOrigin {
    fn clone(&self) -> (r: Self)
        ensures
            r@ == self@,
    {
        PatchOrigin { source: self.source.clone(), offset: self.offset, length: self.length }
    }
}

/// A stable identity for a patch: two patches with the same `PatchRef` are
/// interchangeable from the loader's point of view.
#[derive(Debug, Clone, Copy, PartialEq, Eq, PartialOrd, Ord, Hash, Structural)]
pub struct PatchRef {
    pub vendor: Vendor,
    pub signature: CpuSignature,
    pub platform_mask: PlatformMask,
    pub revision: u32,
}

/// Vendor-neutral metadata for one microcode patch.
#[derive(Debug, PartialEq, Eq)]
pub struct PatchMeta {
    pub vendor: Vendor,
    pub kind: HeaderKind,
    /// Intel: header `rev`. AMD: `patch_id`.
    pub revision: u32,
    pub date: Option<UcodeDate>,
    /// Total on-disk size of the patch as it must be serialised.
    pub total_size: u32,
    /// Payload size excluding headers/tables, when meaningful.
    pub data_size: u32,
    pub matches: Vec<ProcessorMatch>,
    pub runtime_update: RuntimeUpdatePolicy,
    /// AMD only, and always sourced from out-of-band metadata (the
    /// linux-firmware README), never from the container itself.
    pub min_base_revision: Option<u32>,
    pub origin: PatchOrigin,
    /// SHA-256 over the exact serialised bytes of this patch.
    pub sha256: Option<[u8; 32]>,
}

/// The contents of a [`PatchMeta`].
#[verifier::ext_equal]
pub struct PatchModel {
    pub vendor: Vendor,
    pub kind: HeaderKind,
    pub revision: u32,
    pub date: Option<UcodeDate>,
    pub total_size: u32,
    pub data_size: u32,
    pub matches: Seq<ProcessorMatch>,
    pub runtime_update: RuntimeUpdatePolicy,
    pub min_base_revision: Option<u32>,
    pub origin: OriginModel,
    pub sha256: Option<Seq<u8>>,
}

/// The bytes of a digest, if there is one.
pub open spec fn digest_view(d: Option<[u8; 32]>) -> Option<Seq<u8>> {
    match d {
        Some(a) => Some(a@),
        None => None,
    }
}

impl View for PatchMeta {
    type V = PatchModel;

    open spec fn view(&self) -> PatchModel {
        PatchModel {
            vendor: self.vendor,
            kind: self.kind,
            revision: self.revision,
            date: self.date,
            total_size: self.total_size,
            data_size: self.data_size,
            matches: self.matches@,
            runtime_update: self.runtime_update,
            min_base_revision: self.min_base_revision,
            origin: self.origin@,
            sha256: digest_view(self.sha256),
        }
    }
}

/// The contents of a list of patches.
pub open spec fn metas_view(v: Seq<PatchMeta>) -> Seq<PatchModel> {
    v.map_values(|p: PatchMeta| p@)
}

/// The contents of a list of borrowed patches.
pub open spec fn refs_view(v: Seq<&PatchMeta>) -> Seq<PatchModel> {
    v.map_values(|p: &PatchMeta| p@)
}

/// The first pair marked primary.
pub open spec fn first_primary(m: Seq<ProcessorMatch>) -> Option<ProcessorMatch>
    decreases m.len(),
{
    if m.len() == 0 {
        None
    } else if m[0].primary {
        Some(m[0])
    } else {
        first_primary(m.drop_first())
    }
}

/// The first pair marked primary, else the first pair.
pub open spec fn primary_of(m: Seq<ProcessorMatch>) -> Option<ProcessorMatch> {
    match first_primary(m) {
        Some(x) => Some(x),
        None => if m.len() > 0 {
            Some(m[0])
        } else {
            None
        },
    }
}

/// Some pair covers the processor.
pub open spec fn any_covers(m: Seq<ProcessorMatch>, cpu: CpuIdentity) -> bool {
    exists|i: int| 0 <= i < m.len() && (#[trigger] m[i]).covers(cpu)
}

/// Some pair has the signature.
pub open spec fn any_signature(m: Seq<ProcessorMatch>, signature: CpuSignature) -> bool {
    exists|i: int| 0 <= i < m.len() && (#[trigger] m[i]).signature == signature
}

impl PatchModel {
    pub open spec fn loadable(self) -> bool {
        self.kind == HeaderKind::Microcode
    }

    pub open spec fn applies(self, cpu: CpuIdentity) -> bool {
        self.vendor == cpu.vendor && any_covers(self.matches, cpu)
    }
}

/// Whether two optional digests are equal.
pub fn digest_eq(a: &Option<[u8; 32]>, b: &Option<[u8; 32]>) -> (r: bool)
    ensures
        r == (digest_view(*a) == digest_view(*b)),
{
    match (a, b) {
        (Some(x), Some(y)) => crate::bytes::bytes_eq(x.as_slice(), y.as_slice()),
        (None, None) => true,
        _ => false,
    }
}

/// Whether some pair has the signature.
pub fn has_signature(m: &[ProcessorMatch], signature: CpuSignature) -> (r: bool)
    ensures
        r == any_signature(m@, signature),
{
    let mut i: usize = 0;
    while i < m.len()
        invariant
            i <= m@.len(),
            forall|k: int| 0 <= k < i ==> (#[trigger] m@[k]).signature != signature,
        decreases m@.len() - i,
    {
        if m[i].signature == signature {
            assert(m@[i as int].signature == signature);
            return true;
        }
        i = i + 1;
    }
    false
}

impl Clone for PatchMeta {
    fn clone(&self) -> (r: Self)
        ensures
            r@ == self@,
    {
        PatchMeta {
            vendor: self.vendor,
            kind: self.kind,
            revision: self.revision,
            date: self.date,
            total_size: self.total_size,
            data_size: self.data_size,
            matches: vstd::slice::slice_to_vec(self.matches.as_slice()),
            runtime_update: self.runtime_update,
            min_base_revision: self.min_base_revision,
            origin: self.origin.clone(),
            sha256: self.sha256,
        }
    }
}

impl PatchMeta {
    /// True if this patch is safe to hand to the kernel loader at all.
    pub fn is_loadable(&self) -> (r: bool)
        ensures
            r == self@.loadable(),
    {
        self.kind == HeaderKind::Microcode
    }

    pub fn applies_to(&self, cpu: &CpuIdentity) -> (r: bool)
        ensures
            r == self@.applies(*cpu),
    {
        if self.vendor != cpu.vendor {
            return false;
        }
        let mut i: usize = 0;
        while i < self.matches.len()
            invariant
                i <= self.matches@.len(),
                self.vendor == cpu.vendor,
                forall|k: int| 0 <= k < i ==> !(#[trigger] self.matches@[k]).covers(*cpu),
            decreases self.matches@.len() - i,
        {
            if self.matches[i].applies_to(cpu) {
                return true;
            }
            i = i + 1;
        }
        false
    }

    pub fn primary_match(&self) -> (r: Option<&ProcessorMatch>)
        ensures
            match r {
                Some(m) => primary_of(self.matches@) == Some(*m),
                None => primary_of(self.matches@) is None,
            },
    {
        let mut i: usize = 0;
        assert(self.matches@.skip(0) =~= self.matches@);
        while i < self.matches.len()
            invariant
                i <= self.matches@.len(),
                first_primary(self.matches@) == first_primary(self.matches@.skip(i as int)),
            decreases self.matches@.len() - i,
        {
            if self.matches[i].primary {
                return Some(&self.matches[i]);
            }
            assert(self.matches@.skip(i as int).drop_first() =~= self.matches@.skip(i + 1));
            i = i + 1;
        }
        if self.matches.len() > 0 {
            Some(&self.matches[0])
        } else {
            None
        }
    }

    pub fn patch_ref(&self) -> (r: Option<PatchRef>)
        ensures
            r == match primary_of(self.matches@) {
                Some(m) => Some(
                    PatchRef {
                        vendor: self.vendor,
                        signature: m.signature,
                        platform_mask: m.platform_mask,
                        revision: self.revision,
                    },
                ),
                None => None,
            },
    {
        match self.primary_match() {
            Some(m) => Some(
                PatchRef {
                    vendor: self.vendor,
                    signature: m.signature,
                    platform_mask: m.platform_mask,
                    revision: self.revision,
                },
            ),
            None => None,
        }
    }

    /// Revision ordering.
    ///
    /// We compare **unsigned**, matching the Linux loader
    /// (`struct microcode_header_intel.rev` is `unsigned int` and the loader
    /// does an unsigned comparison). iucode-tool historically used a signed
    /// comparison; the difference only shows up for revisions with bit 31 set,
    /// which are flagged separately as a validation finding.
    pub fn is_newer_than(&self, other_revision: u32) -> (r: bool)
        ensures
            r == (self.revision > other_revision),
    {
        self.revision > other_revision
    }

    /// Whether a *runtime* (late) update to this patch is permitted given the
    /// currently loaded revision.
    pub fn runtime_update_allowed_from(&self, current: u32) -> (r: Option<bool>)
        ensures
            r == match self.runtime_update {
                RuntimeUpdatePolicy::RequiresBaseRevision(min) => if min != 0 {
                    Some(current >= min)
                } else {
                    None
                },
                RuntimeUpdatePolicy::Unspecified => None,
            },
    {
        match self.runtime_update {
            RuntimeUpdatePolicy::RequiresBaseRevision(min) => {
                if min != 0 {
                    Some(current >= min)
                } else {
                    None
                }
            },
            RuntimeUpdatePolicy::Unspecified => None,
        }
    }

    /// AMD: whether the loader will accept this patch given the running base.
    pub fn base_revision_satisfied(&self, current: u32) -> (r: Option<bool>)
        ensures
            r == match self.min_base_revision {
                Some(min) => Some(current >= min),
                None => None,
            },
    {
        match self.min_base_revision {
            Some(min) => Some(current >= min),
            None => None,
        }
    }
}

/// A patch that applies to a processor carries its signature.
pub proof fn law_applicable_patches_carry_the_signature(patch: PatchModel, cpu: CpuIdentity)
    requires
        patch.applies(cpu),
    ensures
        patch.vendor == cpu.vendor,
        any_signature(patch.matches, cpu.signature),
        cpu.vendor == Vendor::Intel ==> cpu.platform_mask is Some,
{
    let i = choose|i: int| 0 <= i < patch.matches.len() && (#[trigger] patch.matches[i]).covers(cpu);
    assert(patch.matches[i].signature == cpu.signature);
}

} // verus!
