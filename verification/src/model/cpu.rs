//! Processors, their signatures, and observations of their microcode.

use vstd::prelude::*;
use crate::number::{hex, hex_bytes, hex_bytes_text, hex_text};
use crate::text::str_eq;

verus! {

/// CPU vendor as relevant to microcode loading.
#[derive(Debug, Clone, Copy, PartialEq, Eq, PartialOrd, Ord, Hash, Structural)]
pub enum Vendor {
    Intel,
    Amd,
}

impl Vendor {
    /// Position in the canonical vendor order: Intel before AMD.
    pub open spec fn rank(self) -> int {
        match self {
            Vendor::Intel => 0,
            Vendor::Amd => 1,
        }
    }

    pub open spec fn cpuid_text(self) -> Seq<char> {
        match self {
            Vendor::Intel => "GenuineIntel"@,
            Vendor::Amd => "AuthenticAMD"@,
        }
    }

    pub open spec fn blob_text(self) -> Seq<char> {
        match self {
            Vendor::Intel => "GenuineIntel.bin"@,
            Vendor::Amd => "AuthenticAMD.bin"@,
        }
    }

    pub open spec fn path_text(self) -> Seq<char> {
        match self {
            Vendor::Intel => "kernel/x86/microcode/GenuineIntel.bin"@,
            Vendor::Amd => "kernel/x86/microcode/AuthenticAMD.bin"@,
        }
    }

    pub open spec fn name_text(self) -> Seq<char> {
        match self {
            Vendor::Intel => "Intel"@,
            Vendor::Amd => "AMD"@,
        }
    }

    /// The vendor that a CPUID vendor string names.
    pub open spec fn of_cpuid_text(s: Seq<char>) -> Option<Vendor> {
        if s == "GenuineIntel"@ {
            Some(Vendor::Intel)
        } else if s == "AuthenticAMD"@ || s == "HygonGenuine"@ {
            Some(Vendor::Amd)
        } else {
            None
        }
    }

    /// CPUID vendor string as reported by `CPUID.0:EBX,EDX,ECX`.
    pub fn cpuid_string(self) -> (r: &'static str)
        ensures
            r@ == self.cpuid_text(),
    {
        match self {
            Vendor::Intel => "GenuineIntel",
            Vendor::Amd => "AuthenticAMD",
        }
    }

    /// Canonical file name used by the Linux early loader inside the CPIO.
    pub fn early_blob_name(self) -> (r: &'static str)
        ensures
            r@ == self.blob_text(),
    {
        match self {
            Vendor::Intel => "GenuineIntel.bin",
            Vendor::Amd => "AuthenticAMD.bin",
        }
    }

    /// Canonical CPIO path expected by `arch/x86/kernel/cpu/microcode`.
    pub fn early_cpio_path(self) -> (r: &'static str)
        ensures
            r@ == self.path_text(),
    {
        match self {
            Vendor::Intel => "kernel/x86/microcode/GenuineIntel.bin",
            Vendor::Amd => "kernel/x86/microcode/AuthenticAMD.bin",
        }
    }

    pub fn from_cpuid_string(s: &str) -> (r: Option<Self>)
        ensures
            r == Vendor::of_cpuid_text(s@),
    {
        if str_eq(s, "GenuineIntel") {
            Some(Vendor::Intel)
        } else if str_eq(s, "AuthenticAMD") || str_eq(s, "HygonGenuine") {
            Some(Vendor::Amd)
        } else {
            None
        }
    }

    pub fn to_string(self) -> (r: String)
        ensures
            r@ == self.name_text(),
    {
        match self {
            Vendor::Intel => "Intel".to_owned(),
            Vendor::Amd => "AMD".to_owned(),
        }
    }
}

/// Raw `CPUID.1:EAX` value ("processor signature").
#[derive(Debug, Clone, Copy, PartialEq, Eq, PartialOrd, Ord, Hash, Structural)]
pub struct CpuSignature(pub u32);

impl CpuSignature {
    /// `EAX[11:8]`.
    pub open spec fn base_family_field(self) -> u32 {
        (self.0 >> 8) & 0xf
    }

    /// `EAX[27:20]`.
    pub open spec fn extended_family_field(self) -> u32 {
        (self.0 >> 20) & 0xff
    }

    /// `EAX[7:4]`.
    pub open spec fn base_model_field(self) -> u32 {
        (self.0 >> 4) & 0xf
    }

    /// `EAX[19:16]`.
    pub open spec fn extended_model_field(self) -> u32 {
        (self.0 >> 16) & 0xf
    }

    /// `EAX[3:0]`.
    pub open spec fn stepping_field(self) -> u32 {
        self.0 & 0xf
    }

    /// The extended family counts only when the base family is full.
    pub open spec fn display_family(self) -> u32 {
        if self.base_family_field() == 0xf {
            (0xf + self.extended_family_field()) as u32
        } else {
            self.base_family_field()
        }
    }

    /// AMD always folds in the extended model; Intel only for families 6 and 15.
    pub open spec fn display_model(self, vendor: Vendor) -> u32 {
        if vendor == Vendor::Amd || self.base_family_field() == 6 || self.base_family_field()
            == 0xf {
            (self.extended_model_field() << 4) | self.base_model_field()
        } else {
            self.base_model_field()
        }
    }

    /// The signature value that encodes a family, model and stepping.
    pub open spec fn encode(vendor: Vendor, family: u32, model: u32, stepping: u32) -> u32 {
        let base_family: u32 = if family >= 0xf {
            0xf
        } else {
            family
        };
        let ext_family: u32 = if family >= 0xf {
            (family - 0xf) as u32
        } else {
            0
        };
        let ext_model: u32 = if vendor == Vendor::Intel && base_family != 6 && base_family != 0xf {
            0
        } else {
            (model >> 4) & 0xf
        };
        ((ext_family & 0xff) << 20) | ((ext_model & 0xf) << 16) | ((base_family & 0xf) << 8) | ((
        model & 0xf) << 4) | (stepping & 0xf)
    }

    /// `0x` and eight hexadecimal digits.
    pub open spec fn signature_text(self) -> Seq<char> {
        "0x"@ + hex(self.0 as nat, 8)
    }

    pub open spec fn firmware_text(self) -> Seq<char> {
        hex(self.display_family() as nat, 2) + "-"@ + hex(
            self.display_model(Vendor::Intel) as nat,
            2,
        ) + "-"@ + hex(self.stepping_field() as nat, 2)
    }

    pub fn raw(self) -> (r: u32)
        ensures
            r == self.0,
    {
        self.0
    }

    /// Base family field, `EAX[11:8]`.
    pub fn base_family(self) -> (r: u32)
        ensures
            r == self.base_family_field(),
            r <= 0xf,
    {
        let v: u32 = self.0;
        assert((v >> 8) & 0xf <= 0xf) by (bit_vector);
        (v >> 8) & 0xf
    }

    /// Extended family field, `EAX[27:20]`.
    pub fn extended_family(self) -> (r: u32)
        ensures
            r == self.extended_family_field(),
            r <= 0xff,
    {
        let v: u32 = self.0;
        assert((v >> 20) & 0xff <= 0xff) by (bit_vector);
        (v >> 20) & 0xff
    }

    /// Effective (display) family, per both Intel SDM and AMD APM.
    pub fn family(self) -> (r: u32)
        ensures
            r == self.display_family(),
    {
        let base: u32 = self.base_family();
        if base == 0xf {
            base + self.extended_family()
        } else {
            base
        }
    }

    /// Effective (display) model.
    ///
    /// Intel only folds in the extended model for families 0x6 and 0xf, while
    /// AMD always does.
    pub fn model_for(self, vendor: Vendor) -> (r: u32)
        ensures
            r == self.display_model(vendor),
    {
        let base_model: u32 = (self.0 >> 4) & 0xf;
        let ext_model: u32 = (self.0 >> 16) & 0xf;
        match vendor {
            Vendor::Intel => {
                let base_family: u32 = self.base_family();
                if base_family == 0x6 || base_family == 0xf {
                    (ext_model << 4) | base_model
                } else {
                    base_model
                }
            },
            Vendor::Amd => (ext_model << 4) | base_model,
        }
    }

    pub fn stepping(self) -> (r: u32)
        ensures
            r == self.stepping_field(),
    {
        self.0 & 0xf
    }

    /// Processor type field, `EAX[13:12]`.
    pub fn processor_type(self) -> (r: u32)
        ensures
            r == (self.0 >> 12) & 0x3,
    {
        (self.0 >> 12) & 0x3
    }

    /// Rebuild a signature from family/model/stepping. Used when the only
    /// source of truth is `/proc/cpuinfo` (which reports decoded values).
    pub fn from_fms(vendor: Vendor, family: u32, model: u32, stepping: u32) -> (r: Self)
        ensures
            r.0 == CpuSignature::encode(vendor, family, model, stepping),
    {
        let base_family: u32 = if family >= 0xf {
            0xf
        } else {
            family
        };
        let ext_family: u32 = if family >= 0xf {
            family - 0xf
        } else {
            0
        };
        let base_model: u32 = model & 0xf;
        let ext_model: u32 = if vendor == Vendor::Intel && base_family != 0x6 && base_family
            != 0xf {
            0
        } else {
            (model >> 4) & 0xf
        };
        CpuSignature(
            ((ext_family & 0xff) << 20) | ((ext_model & 0xf) << 16) | ((base_family & 0xf) << 8) | (
            base_model << 4) | (stepping & 0xf),
        )
    }

    /// `06-8c-01`-style file name used by `/lib/firmware/intel-ucode`.
    pub fn intel_firmware_name(self) -> (r: String)
        ensures
            r@ == self.firmware_text(),
    {
        let mut out = hex_text(self.family() as u64, 2);
        out.append("-");
        out.append(hex_text(self.model_for(Vendor::Intel) as u64, 2).as_str());
        out.append("-");
        out.append(hex_text(self.stepping() as u64, 2).as_str());
        out
    }

    pub fn to_string(self) -> (r: String)
        ensures
            r@ == self.signature_text(),
    {
        let mut out = "0x".to_owned();
        out.append(hex_text(self.0 as u64, 8).as_str());
        out
    }
}

/// Every family, model and stepping that a signature can carry is read back
/// from the signature built of them. On Intel parts outside families 6 and
/// from 15 on, the model has only four bits.
pub proof fn law_fms_round_trip(vendor: Vendor, family: u32, model: u32, stepping: u32)
    requires
        family <= 0xf + 0xff,
        model <= 0xff,
        stepping <= 0xf,
        vendor == Vendor::Intel && family != 6 && family < 0xf ==> model <= 0xf,
    ensures
        CpuSignature(CpuSignature::encode(vendor, family, model, stepping)).display_family()
            == family,
        CpuSignature(CpuSignature::encode(vendor, family, model, stepping)).display_model(vendor)
            == model,
        CpuSignature(CpuSignature::encode(vendor, family, model, stepping)).stepping_field()
            == stepping,
{
    let bf: u32 = if family >= 0xf {
        0xf
    } else {
        family
    };
    let ef: u32 = if family >= 0xf {
        (family - 0xf) as u32
    } else {
        0
    };
    let em: u32 = if vendor == Vendor::Intel && bf != 6 && bf != 0xf {
        0
    } else {
        (model >> 4) & 0xf
    };
    let v = CpuSignature::encode(vendor, family, model, stepping);
    assert(v == ((ef & 0xff) << 20) | ((em & 0xf) << 16) | ((bf & 0xf) << 8) | ((model & 0xf) << 4)
        | (stepping & 0xf));
    assert((model >> 4) & 0xf <= 0xf) by (bit_vector);
    assert((v >> 8) & 0xf == bf && (v >> 20) & 0xff == ef && (v >> 16) & 0xf == em && (v >> 4) & 0xf
        == model & 0xf && v & 0xf == stepping) by (bit_vector)
        requires
            v == ((ef & 0xff) << 20) | ((em & 0xf) << 16) | ((bf & 0xf) << 8) | ((model & 0xf) << 4)
                | (stepping & 0xf),
            bf <= 0xf,
            ef <= 0xff,
            em <= 0xf,
            stepping <= 0xf,
    ;
    assert(model <= 0xff ==> (((model >> 4) & 0xf) << 4) | (model & 0xf) == model) by (bit_vector);
    assert(model <= 0xf ==> (model & 0xf) == model) by (bit_vector);
}

/// Intel platform-flags bitmask (`pf`). One bit per platform ID.
///
/// For a CPU this is `1 << IA32_PLATFORM_ID[52:50]`; for a microcode entry it
/// is a mask of every platform the entry applies to.
#[derive(Debug, Clone, Copy, PartialEq, Eq, PartialOrd, Ord, Hash, Structural)]
pub struct PlatformMask(pub u32);

impl Default for PlatformMask {
    fn default() -> (r: Self)
        ensures
            r.0 == 0,
    {
        PlatformMask(0)
    }
}

impl PlatformMask {
    /// The unrestricted mask.
    pub fn any() -> (r: Self)
        ensures
            r.0 == 0,
    {
        PlatformMask(0)
    }

    /// The two masks share a platform, or both are unrestricted.
    pub open spec fn compatible(self, cpu: PlatformMask) -> bool {
        (self.0 & cpu.0) != 0 || (self.0 == 0 && cpu.0 == 0)
    }

    /// `0x` and at least two hexadecimal digits.
    pub open spec fn mask_text(self) -> Seq<char> {
        "0x"@ + hex(self.0 as nat, 2)
    }

    pub fn raw(self) -> (r: u32)
        ensures
            r == self.0,
    {
        self.0
    }

    pub fn from_platform_id(id: u32) -> (r: Self)
        ensures
            r.0 == 1u32 << (id & 0x7),
    {
        assert(id & 0x7 < 32) by (bit_vector);
        PlatformMask(1u32 << (id & 0x7))
    }

    /// Exactly the semantics of `intel_ucode_sigmatch()`'s platform half:
    /// intersecting bits, or the "unrestricted" 0/0 case.
    pub fn matches(self, cpu: PlatformMask) -> (r: bool)
        ensures
            r == self.compatible(cpu),
    {
        (self.0 & cpu.0) != 0 || (self.0 == 0 && cpu.0 == 0)
    }

    /// Lowest set platform ID, if any. Useful for display.
    pub fn first_platform_id(self) -> (r: Option<u32>)
        ensures
            r is None <==> self.0 == 0,
            r matches Some(k) ==> {
                &&& k < 32
                &&& (self.0 >> k) & 1 == 1
                &&& forall|j: u32| j < k ==> #[trigger] (self.0 >> j) & 1 == 0
            },
    {
        if self.0 == 0 {
            None
        } else {
            proof {
                vstd::std_specs::bits::axiom_u32_trailing_zeros(self.0);
            }
            Some(self.0.trailing_zeros())
        }
    }

    pub fn to_string(self) -> (r: String)
        ensures
            r@ == self.mask_text(),
    {
        let mut out = "0x".to_owned();
        out.append(hex_text(self.0 as u64, 2).as_str());
        out
    }
}

/// Where an active microcode revision observation came from.
#[derive(Debug, Clone, Copy, PartialEq, Eq, Structural)]
pub enum RevisionSource {
    ProcCpuinfo,
    LinuxSysfs,
    WindowsRegistry,
    Manual,
    Unavailable,
}

/// Scope of a hardware or operating-system observation.
#[derive(Debug, Clone, Copy, PartialEq, Eq, Structural)]
pub enum ObservationScope {
    System,
    ProcessorPackage,
    Core,
    LogicalProcessor,
    VirtualCpu,
    Unknown,
}

/// Confidence and authority level of an observation.
#[derive(Debug, Clone, Copy, PartialEq, Eq, Structural)]
pub enum ObservationConfidence {
    Authoritative,
    Reported,
    Inferred,
    Virtualized,
    Unverified,
}

/// Self-describing raw bytes retained alongside a decoded observation.
#[derive(Debug, PartialEq, Eq)]
pub struct RawObservation {
    pub encoding: String,
    pub hex: String,
    pub bytes: Vec<u8>,
}

/// The contents of a [`RawObservation`].
#[verifier::ext_equal]
pub struct RawModel {
    pub encoding: Seq<char>,
    pub hex: Seq<char>,
    pub bytes: Seq<u8>,
}

impl View for RawObservation {
    type V = RawModel;

    open spec fn view(&self) -> RawModel {
        RawModel { encoding: self.encoding@, hex: self.hex@, bytes: self.bytes@ }
    }
}

impl RawModel {
    pub open spec fn of(bytes: Seq<u8>) -> RawModel {
        RawModel {
            encoding: if bytes.len() == 4 {
                "little_endian_u32"@
            } else if bytes.len() == 8 {
                "little_endian_u32_at_offset_4"@
            } else {
                "raw_bytes"@
            },
            hex: hex_bytes(bytes),
            bytes,
        }
    }
}

impl Clone for RawObservation {
    fn clone(&self) -> (r: Self)
        ensures
            r@ == self@,
    {
        RawObservation {
            encoding: self.encoding.clone(),
            hex: self.hex.clone(),
            bytes: vstd::slice::slice_to_vec(self.bytes.as_slice()),
        }
    }
}

impl RawObservation {
    pub fn from_bytes(bytes: Vec<u8>) -> (r: Self)
        ensures
            r@ == RawModel::of(bytes@),
    {
        let encoding = if bytes.len() == 4 {
            "little_endian_u32"
        } else if bytes.len() == 8 {
            "little_endian_u32_at_offset_4"
        } else {
            "raw_bytes"
        };
        let hex = hex_bytes_text(bytes.as_slice());
        RawObservation { encoding: encoding.to_owned(), hex, bytes }
    }
}

/// A normalized active-microcode observation.  Unlike an `Option<u32>`, this
/// preserves why a revision cannot be used for update policy.
#[derive(Debug, PartialEq, Eq)]
#[allow(inconsistent_fields)]
pub enum RevisionObservation {
    Known {
        revision: u32,
        source: RevisionSource,
        scope: ObservationScope,
        confidence: ObservationConfidence,
        raw: Option<RawObservation>,
    },
    Unavailable {
        source: RevisionSource,
        scope: ObservationScope,
        confidence: ObservationConfidence,
        reason: String,
    },
    Unsupported {
        source: RevisionSource,
        scope: ObservationScope,
        confidence: ObservationConfidence,
        reason: String,
    },
    Invalid {
        source: RevisionSource,
        scope: ObservationScope,
        confidence: ObservationConfidence,
        raw: RawObservation,
        reason: String,
    },
}

/// What kind of observation was made, with what only that kind carries.
#[verifier::ext_equal]
#[allow(inconsistent_fields)]
pub enum ObservedModel {
    Known { revision: u32, raw: Option<RawModel> },
    Unavailable { reason: Seq<char> },
    Unsupported { reason: Seq<char> },
    Invalid { raw: RawModel, reason: Seq<char> },
}

/// The contents of a [`RevisionObservation`].
#[verifier::ext_equal]
pub struct ObservationModel {
    pub observed: ObservedModel,
    pub source: RevisionSource,
    pub scope: ObservationScope,
    pub confidence: ObservationConfidence,
}

impl View for RevisionObservation {
    type V = ObservationModel;

    open spec fn view(&self) -> ObservationModel {
        match *self {
            RevisionObservation::Known { revision, source, scope, confidence, raw } => {
                ObservationModel {
                    observed: ObservedModel::Known {
                        revision,
                        raw: match raw {
                            Some(x) => Some(x@),
                            None => None,
                        },
                    },
                    source,
                    scope,
                    confidence,
                }
            },
            RevisionObservation::Unavailable { source, scope, confidence, reason } => {
                ObservationModel {
                    observed: ObservedModel::Unavailable { reason: reason@ },
                    source,
                    scope,
                    confidence,
                }
            },
            RevisionObservation::Unsupported { source, scope, confidence, reason } => {
                ObservationModel {
                    observed: ObservedModel::Unsupported { reason: reason@ },
                    source,
                    scope,
                    confidence,
                }
            },
            RevisionObservation::Invalid { source, scope, confidence, raw, reason } => {
                ObservationModel {
                    observed: ObservedModel::Invalid { raw: raw@, reason: reason@ },
                    source,
                    scope,
                    confidence,
                }
            },
        }
    }
}

/// The scope and confidence that a source has by itself.
pub open spec fn default_scope(source: RevisionSource) -> ObservationScope {
    match source {
        RevisionSource::LinuxSysfs => ObservationScope::LogicalProcessor,
        RevisionSource::ProcCpuinfo => ObservationScope::LogicalProcessor,
        RevisionSource::WindowsRegistry => ObservationScope::LogicalProcessor,
        RevisionSource::Manual => ObservationScope::Unknown,
        RevisionSource::Unavailable => ObservationScope::Unknown,
    }
}

pub open spec fn default_confidence(source: RevisionSource) -> ObservationConfidence {
    match source {
        RevisionSource::LinuxSysfs => ObservationConfidence::Authoritative,
        RevisionSource::ProcCpuinfo => ObservationConfidence::Reported,
        RevisionSource::WindowsRegistry => ObservationConfidence::Reported,
        RevisionSource::Manual => ObservationConfidence::Unverified,
        RevisionSource::Unavailable => ObservationConfidence::Unverified,
    }
}

impl ObservationModel {
    /// An observation with the scope and confidence of its source.
    pub open spec fn of(source: RevisionSource, observed: ObservedModel) -> ObservationModel {
        ObservationModel {
            observed,
            source,
            scope: default_scope(source),
            confidence: default_confidence(source),
        }
    }

    pub open spec fn revision(self) -> Option<u32> {
        match self.observed {
            ObservedModel::Known { revision, .. } => Some(revision),
            _ => None,
        }
    }
}

impl Clone for RevisionObservation {
    fn clone(&self) -> (r: Self)
        ensures
            r@ == self@,
    {
        match self {
            RevisionObservation::Known { revision, source, scope, confidence, raw } => {
                let raw2 = match raw {
                    Some(x) => Some(x.clone()),
                    None => None,
                };
                RevisionObservation::Known {
                    revision: *revision,
                    source: *source,
                    scope: *scope,
                    confidence: *confidence,
                    raw: raw2,
                }
            },
            RevisionObservation::Unavailable { source, scope, confidence, reason } => {
                RevisionObservation::Unavailable {
                    source: *source,
                    scope: *scope,
                    confidence: *confidence,
                    reason: reason.clone(),
                }
            },
            RevisionObservation::Unsupported { source, scope, confidence, reason } => {
                RevisionObservation::Unsupported {
                    source: *source,
                    scope: *scope,
                    confidence: *confidence,
                    reason: reason.clone(),
                }
            },
            RevisionObservation::Invalid { source, scope, confidence, raw, reason } => {
                RevisionObservation::Invalid {
                    source: *source,
                    scope: *scope,
                    confidence: *confidence,
                    raw: raw.clone(),
                    reason: reason.clone(),
                }
            },
        }
    }
}

impl RevisionObservation {
    fn defaults(source: RevisionSource) -> (r: (ObservationScope, ObservationConfidence))
        ensures
            r.0 == default_scope(source),
            r.1 == default_confidence(source),
    {
        match source {
            RevisionSource::LinuxSysfs => (
                ObservationScope::LogicalProcessor,
                ObservationConfidence::Authoritative,
            ),
            RevisionSource::ProcCpuinfo | RevisionSource::WindowsRegistry => (
                ObservationScope::LogicalProcessor,
                ObservationConfidence::Reported,
            ),
            RevisionSource::Manual => {
                (ObservationScope::Unknown, ObservationConfidence::Unverified)
            },
            RevisionSource::Unavailable => {
                (ObservationScope::Unknown, ObservationConfidence::Unverified)
            },
        }
    }

    pub fn known(revision: u32, source: RevisionSource) -> (r: Self)
        ensures
            r@ == ObservationModel::of(source, ObservedModel::Known { revision, raw: None }),
    {
        let (scope, confidence) = Self::defaults(source);
        RevisionObservation::Known { revision, source, scope, confidence, raw: None }
    }

    pub fn known_raw(revision: u32, source: RevisionSource, raw_value: Vec<u8>) -> (r: Self)
        ensures
            r@ == ObservationModel::of(
                source,
                ObservedModel::Known { revision, raw: Some(RawModel::of(raw_value@)) },
            ),
    {
        let (scope, confidence) = Self::defaults(source);
        RevisionObservation::Known {
            revision,
            source,
            scope,
            confidence,
            raw: Some(RawObservation::from_bytes(raw_value)),
        }
    }

    pub fn unavailable(source: RevisionSource, reason: &str) -> (r: Self)
        ensures
            r@ == ObservationModel::of(source, ObservedModel::Unavailable { reason: reason@ }),
    {
        let (scope, confidence) = Self::defaults(source);
        RevisionObservation::Unavailable { source, scope, confidence, reason: reason.to_owned() }
    }

    pub fn unsupported(source: RevisionSource, reason: &str) -> (r: Self)
        ensures
            r@ == ObservationModel::of(source, ObservedModel::Unsupported { reason: reason@ }),
    {
        let (scope, confidence) = Self::defaults(source);
        RevisionObservation::Unsupported { source, scope, confidence, reason: reason.to_owned() }
    }

    pub fn invalid(source: RevisionSource, raw_value: Vec<u8>, reason: &str) -> (r: Self)
        ensures
            r@ == ObservationModel::of(
                source,
                ObservedModel::Invalid { raw: RawModel::of(raw_value@), reason: reason@ },
            ),
    {
        let (scope, confidence) = Self::defaults(source);
        RevisionObservation::Invalid {
            source,
            scope,
            confidence,
            raw: RawObservation::from_bytes(raw_value),
            reason: reason.to_owned(),
        }
    }

    pub fn with_scope_confidence(
        self,
        scope: ObservationScope,
        confidence: ObservationConfidence,
    ) -> (r: Self)
        ensures
            r@ == (ObservationModel { scope, confidence, ..self@ }),
    {
        match self {
            RevisionObservation::Known { revision, source, raw, .. } => {
                RevisionObservation::Known { revision, source, scope, confidence, raw }
            },
            RevisionObservation::Unavailable { source, reason, .. } => {
                RevisionObservation::Unavailable { source, scope, confidence, reason }
            },
            RevisionObservation::Unsupported { source, reason, .. } => {
                RevisionObservation::Unsupported { source, scope, confidence, reason }
            },
            RevisionObservation::Invalid { source, raw, reason, .. } => {
                RevisionObservation::Invalid { source, scope, confidence, raw, reason }
            },
        }
    }

    pub fn known_revision(&self) -> (r: Option<u32>)
        ensures
            r == self@.revision(),
    {
        match self {
            RevisionObservation::Known { revision, .. } => Some(*revision),
            _ => None,
        }
    }

    pub fn source(&self) -> (r: RevisionSource)
        ensures
            r == self@.source,
    {
        match self {
            RevisionObservation::Known { source, .. } => *source,
            RevisionObservation::Unavailable { source, .. } => *source,
            RevisionObservation::Unsupported { source, .. } => *source,
            RevisionObservation::Invalid { source, .. } => *source,
        }
    }

    pub fn scope(&self) -> (r: ObservationScope)
        ensures
            r == self@.scope,
    {
        match self {
            RevisionObservation::Known { scope, .. } => *scope,
            RevisionObservation::Unavailable { scope, .. } => *scope,
            RevisionObservation::Unsupported { scope, .. } => *scope,
            RevisionObservation::Invalid { scope, .. } => *scope,
        }
    }

    pub fn confidence(&self) -> (r: ObservationConfidence)
        ensures
            r == self@.confidence,
    {
        match self {
            RevisionObservation::Known { confidence, .. } => *confidence,
            RevisionObservation::Unavailable { confidence, .. } => *confidence,
            RevisionObservation::Unsupported { confidence, .. } => *confidence,
            RevisionObservation::Invalid { confidence, .. } => *confidence,
        }
    }
}

/// Everything we know about one logical CPU, from the microcode point of view.
#[derive(Debug, Clone, Copy, PartialEq, Eq, Structural)]
pub struct CpuIdentity {
    pub vendor: Vendor,
    pub signature: CpuSignature,
    /// Intel only. `None` means "could not be determined".
    pub platform_mask: Option<PlatformMask>,
    /// Currently running microcode revision, if readable.
    pub current_revision: Option<u32>,
}

impl CpuIdentity {
    pub fn new(vendor: Vendor, signature: CpuSignature) -> (r: Self)
        ensures
            r == (CpuIdentity { vendor, signature, platform_mask: None, current_revision: None }),
    {
        CpuIdentity { vendor, signature, platform_mask: None, current_revision: None }
    }

    pub fn with_platform_mask(self, mask: PlatformMask) -> (r: Self)
        ensures
            r == (CpuIdentity { platform_mask: Some(mask), ..self }),
    {
        CpuIdentity { platform_mask: Some(mask), ..self }
    }

    pub fn with_revision(self, rev: u32) -> (r: Self)
        ensures
            r == (CpuIdentity { current_revision: Some(rev), ..self }),
    {
        CpuIdentity { current_revision: Some(rev), ..self }
    }

    pub fn family(&self) -> (r: u32)
        ensures
            r == self.signature.display_family(),
    {
        self.signature.family()
    }

    pub fn model(&self) -> (r: u32)
        ensures
            r == self.signature.display_model(self.vendor),
    {
        self.signature.model_for(self.vendor)
    }

    pub fn stepping(&self) -> (r: u32)
        ensures
            r == self.signature.stepping_field(),
    {
        self.signature.stepping()
    }

    /// Effective platform mask for matching. When the platform ID is unknown
    /// we deliberately do *not* guess: callers get `None` and must decide
    /// whether to widen the match or report an ambiguity.
    pub fn effective_platform_mask(&self) -> (r: Option<PlatformMask>)
        ensures
            r == match self.vendor {
                Vendor::Intel => self.platform_mask,
                Vendor::Amd => Some(PlatformMask(0)),
            },
    {
        match self.vendor {
            Vendor::Intel => self.platform_mask,
            Vendor::Amd => Some(PlatformMask::any()),
        }
    }
}

} // verus!
