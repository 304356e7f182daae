//! Virtualization detection that distinguishes real *guests* from bare metal
//! and from type-1 hypervisor *hosts* (notably Hyper-V root on Windows).
//!
//! ## Why a naive "hypervisor CPUID bit" check is wrong
//!
//! `CPUID.1:ECX[31]` ("hypervisor present") is set on many **physical**
//! machines that run a type-1 hypervisor under the OS:
//!
//! - Windows with Hyper-V / WSL2 / VBS / Core Isolation / Credential Guard
//! - Xen dom0 / similar hosts
//!
//! Treating that bit alone as "this is a VM" misclassifies ordinary laptops
//! (including AMD Ryzen systems under Windows) as guests whose microcode is
//! "host-managed".
//!
//! We therefore:
//! 1. Prefer explicit guest DMI product names when available (Linux sysfs).
//! 2. When a hypervisor is present, identify the vendor (leaf `0x40000000`)
//!    and, for Hyper-V, the CreatePartitions privilege (root vs guest).
//! 3. Never treat the bare hypervisor bit as sufficient proof of a guest.

use vstd::prelude::*;
use crate::catalog::manifest::opt_text;
use crate::linux::cpuid::{read_features, read_hypervisor_id, read_leaf, HypervisorId, Leaf};
use crate::number::{around_dec, dec, dec_text};
use crate::text::{
    chars_of, contains_text, debug_string, debug_text, lower_text, str_contains, str_eq, string_of,
    to_lower, trim, trim_text,
};

verus! {

/// Detected virtualization / container environment.
#[derive(Debug, Clone, Copy, PartialEq, Eq, Structural)]
pub enum ExecutionEnvironment {
    /// Native operating system with no detected hypervisor layer.
    Native,
    /// Windows / Hyper-V parent partition, with physical-device access.
    HypervisorRoot,
    /// Confident guest under a hypervisor; microcode is typically host-managed.
    VirtualMachineGuest,
    Container,
    Unknown,
}

/// The name that policy code uses for the environment.
pub type VirtualizationKind = ExecutionEnvironment;

/// The layer that is expected to control active microcode for this process.
#[derive(Debug, Clone, Copy, PartialEq, Eq, Structural)]
pub enum MicrocodeAuthority {
    OperatingSystem,
    FirmwareAndOperatingSystem,
    HypervisorHost,
    FirmwareOnly,
    Unknown,
}

/// Detailed result of virtualization probing (for diagnostics / JSON status).
#[derive(Debug)]
pub struct VirtualizationInfo {
    pub kind: VirtualizationKind,
    pub authority: MicrocodeAuthority,
    /// Short human-readable reason for the decision.
    pub reason: String,
    /// Hypervisor identity (e.g. `HyperV`, `KVM`, `VMware`), if present.
    pub hypervisor_vendor: Option<String>,
    /// True when CPUID.1:ECX\[31\] is set.
    pub hypervisor_bit: bool,
    /// True when we believe this process runs in a Hyper-V *root* partition.
    pub hyperv_root: bool,
}

/// The contents of a [`VirtualizationInfo`].
#[verifier::ext_equal]
pub struct VirtualizationModel {
    pub kind: VirtualizationKind,
    pub authority: MicrocodeAuthority,
    pub reason: Seq<char>,
    pub hypervisor_vendor: Option<Seq<char>>,
    pub hypervisor_bit: bool,
    pub hyperv_root: bool,
}

impl View for VirtualizationInfo {
    type V = VirtualizationModel;

    open spec fn view(&self) -> VirtualizationModel {
        VirtualizationModel {
            kind: self.kind,
            authority: self.authority,
            reason: self.reason@,
            hypervisor_vendor: opt_text(self.hypervisor_vendor),
            hypervisor_bit: self.hypervisor_bit,
            hyperv_root: self.hyperv_root,
        }
    }
}

impl Clone for VirtualizationInfo {
    fn clone(&self) -> (r: Self)
        ensures
            r@ == self@,
    {
        VirtualizationInfo {
            kind: self.kind,
            authority: self.authority,
            reason: self.reason.clone(),
            hypervisor_vendor: self.hypervisor_vendor.clone(),
            hypervisor_bit: self.hypervisor_bit,
            hyperv_root: self.hyperv_root,
        }
    }
}

impl Default for VirtualizationInfo {
    fn default() -> (r: Self)
        ensures
            r@ == (VirtualizationModel {
                kind: VirtualizationKind::Unknown,
                authority: MicrocodeAuthority::Unknown,
                reason: "not probed"@,
                hypervisor_vendor: None,
                hypervisor_bit: false,
                hyperv_root: false,
            }),
    {
        VirtualizationInfo {
            kind: VirtualizationKind::Unknown,
            authority: MicrocodeAuthority::Unknown,
            reason: "not probed".to_owned(),
            hypervisor_vendor: None,
            hypervisor_bit: false,
            hyperv_root: false,
        }
    }
}

/// What the operating system shows of the environment: the contents of files
/// (none where a file could not be read) and of environment variables.
#[derive(Debug)]
pub struct HostSignals {
    /// The operating system, as `std::env::consts::OS` names it.
    pub os: String,
    /// `/.dockerenv` exists.
    pub dockerenv: bool,
    /// `/proc/1/cgroup`.
    pub cgroup: Option<String>,
    /// The variable `container`.
    pub container: Option<String>,
    /// `/proc/sys/kernel/osrelease`.
    pub osrelease: Option<String>,
    /// `/proc/version`.
    pub version: Option<String>,
    /// `WSL_INTEROP` or `WSL_DISTRO_NAME` is set.
    pub wsl_env: bool,
    /// `/sys/class/dmi/id/product_name`.
    pub product_name: Option<String>,
    /// `/sys/class/dmi/id/sys_vendor`.
    pub sys_vendor: Option<String>,
    /// `/sys/class/dmi/id/board_name`.
    pub board_name: Option<String>,
}

/// The contents of [`HostSignals`].
#[verifier::ext_equal]
pub struct SignalsModel {
    pub os: Seq<char>,
    pub dockerenv: bool,
    pub cgroup: Option<Seq<char>>,
    pub container: Option<Seq<char>>,
    pub osrelease: Option<Seq<char>>,
    pub version: Option<Seq<char>>,
    pub wsl_env: bool,
    pub product_name: Option<Seq<char>>,
    pub sys_vendor: Option<Seq<char>>,
    pub board_name: Option<Seq<char>>,
}

impl View for HostSignals {
    type V = SignalsModel;

    open spec fn view(&self) -> SignalsModel {
        SignalsModel {
            os: self.os@,
            dockerenv: self.dockerenv,
            cgroup: opt_text(self.cgroup),
            container: opt_text(self.container),
            osrelease: opt_text(self.osrelease),
            version: opt_text(self.version),
            wsl_env: self.wsl_env,
            product_name: opt_text(self.product_name),
            sys_vendor: opt_text(self.sys_vendor),
            board_name: opt_text(self.board_name),
        }
    }
}

/// What CPUID shows of a hypervisor.
#[derive(Debug, Clone, Copy)]
pub struct HypervisorReading {
    /// The "hypervisor present" bit.
    pub bit: bool,
    /// The product that the hypervisor leaf names.
    pub identity: Option<HypervisorId>,
    /// The hypervisor leaf, whose `EAX` is the highest leaf of its kind. It
    /// means nothing without the bit.
    pub top: Leaf,
    /// The Hyper-V feature leaf, whose `EBX` holds the partition privileges. It
    /// means nothing where it is above the highest leaf.
    pub partitions: Leaf,
}

/// What follows from a [`HypervisorReading`].
#[derive(Debug)]
pub struct HvProbe {
    pub bit: bool,
    pub vendor_label: Option<String>,
    pub hyperv_root: bool,
    pub is_guest_vendor: bool,
}

/// The contents of an [`HvProbe`].
#[verifier::ext_equal]
pub struct ProbeModel {
    pub bit: bool,
    pub vendor_label: Option<Seq<char>>,
    pub hyperv_root: bool,
    pub is_guest_vendor: bool,
}

impl View for HvProbe {
    type V = ProbeModel;

    open spec fn view(&self) -> ProbeModel {
        ProbeModel {
            bit: self.bit,
            vendor_label: opt_text(self.vendor_label),
            hyperv_root: self.hyperv_root,
            is_guest_vendor: self.is_guest_vendor,
        }
    }
}

// --- what the signals mean ----------------------------------------------------------

/// A text, or the empty one in its place.
pub open spec fn or_empty(s: Option<Seq<char>>) -> Seq<char> {
    match s {
        Some(x) => x,
        None => Seq::empty(),
    }
}

/// The control groups of the first process are those of a container runtime.
pub open spec fn container_cgroup(c: Seq<char>) -> bool {
    ||| contains_text(c, "docker"@)
    ||| contains_text(c, "/lxc/"@)
    ||| contains_text(c, "kubepods"@)
    ||| contains_text(c, "containerd"@)
}

pub open spec fn in_container(s: SignalsModel) -> bool {
    ||| s.dockerenv
    ||| s.cgroup matches Some(c) && container_cgroup(lower_text(c))
    ||| s.container matches Some(v) && v.len() > 0
}

/// Why the kernel's release and version, or the environment, show a WSL guest.
pub open spec fn wsl_reason(osrelease: Seq<char>, version: Seq<char>, env_marker: bool) -> Option<
    Seq<char>,
> {
    let release = lower_text(osrelease);
    if contains_text(release, "microsoft-standard-wsl"@) {
        Some(
            "WSL2 guest detected from the Microsoft WSL kernel; microcode is managed by the Windows/Hyper-V host"@,
        )
    } else if contains_text(release, "microsoft"@) || contains_text(
        lower_text(version),
        "microsoft"@,
    ) {
        Some(
            "WSL guest detected from the Microsoft Linux kernel; microcode is managed by the Windows host"@,
        )
    } else if env_marker {
        Some(
            "WSL guest detected from WSL environment markers; microcode is managed by the Windows host"@,
        )
    } else {
        None
    }
}

pub open spec fn wsl_signal(s: SignalsModel) -> Option<Seq<char>> {
    if s.os != "linux"@ {
        None
    } else {
        wsl_reason(
            lower_text(trim_text(or_empty(s.osrelease))),
            lower_text(trim_text(or_empty(s.version))),
            s.wsl_env,
        )
    }
}

/// A DMI field: its file without white space at the ends; `None` stands for
/// nothing.
pub open spec fn dmi_text(contents: Option<Seq<char>>) -> Seq<char> {
    let t = trim_text(or_empty(contents));
    if t == "None"@ {
        Seq::empty()
    } else {
        t
    }
}

/// A product or board name, in lower case, that only guests have.
pub open spec fn guest_product(s: Seq<char>) -> bool {
    ||| contains_text(s, "virtual machine"@)
    ||| contains_text(s, "virtualbox"@)
    ||| contains_text(s, "vbox"@)
    ||| contains_text(s, "vmware"@)
    ||| contains_text(s, "kvm"@)
    ||| contains_text(s, "bochs"@)
    ||| contains_text(s, "openstack"@)
    ||| contains_text(s, "google compute engine"@)
    ||| contains_text(s, "amazon ec2"@)
    ||| contains_text(s, "standard pc (i440fx"@)
    ||| contains_text(s, "standard pc (q35"@)
    ||| contains_text(s, "q35 +"@)
    ||| contains_text(s, "parallels virtual platform"@)
    ||| contains_text(s, "hvm domu"@)
}

/// The hypervisor that a system vendor, in lower case, is known for.
pub open spec fn guest_vendor(s: Seq<char>) -> Option<Seq<char>> {
    if contains_text(s, "qemu"@) {
        Some("QEMU"@)
    } else if contains_text(s, "innotek"@) {
        Some("VirtualBox (innotek)"@)
    } else if contains_text(s, "vmware"@) {
        Some("VMware"@)
    } else if contains_text(s, "xen"@) {
        Some("Xen"@)
    } else if contains_text(s, "parallels"@) {
        Some("Parallels"@)
    } else if contains_text(s, "bochs"@) {
        Some("Bochs"@)
    } else if contains_text(s, "nutanix"@) {
        Some("Nutanix"@)
    } else {
        None
    }
}

/// Why the DMI fields show a guest. A vendor of "Microsoft Corporation" alone
/// shows nothing: physical devices carry it too.
pub open spec fn dmi_signal(s: SignalsModel) -> Option<Seq<char>> {
    let product = dmi_text(s.product_name);
    let vendor = dmi_text(s.sys_vendor);
    let board = dmi_text(s.board_name);
    if guest_product(lower_text(product)) || guest_product(lower_text(board)) {
        Some(
            "DMI product/board indicates guest ("@ + debug_text(product) + " / "@ + debug_text(
                board,
            ) + ")"@,
        )
    } else {
        match guest_vendor(lower_text(vendor)) {
            Some(label) => Some(
                "DMI sys_vendor indicates "@ + label + " ("@ + debug_text(vendor) + ")"@,
            ),
            None => None,
        }
    }
}

impl HypervisorId {
    pub open spec fn label_text(self) -> Seq<char> {
        match self {
            HypervisorId::Xen => "Xen"@,
            HypervisorId::VMware => "VMware"@,
            HypervisorId::HyperV => "HyperV"@,
            HypervisorId::Kvm => "KVM"@,
            HypervisorId::Qemu => "QEMU"@,
            HypervisorId::Bhyve => "Bhyve"@,
            HypervisorId::Qnx => "QNX"@,
            HypervisorId::Acrn => "ACRN"@,
            HypervisorId::Unknown(b, c, d) => "Unknown("@ + dec(b as nat) + ", "@ + dec(c as nat)
                + ", "@ + dec(d as nat) + ")"@,
        }
    }

    /// The product runs guests, and nothing else under its own name.
    pub open spec fn runs_guests(self) -> bool {
        !(self is HyperV || self is Unknown)
    }
}

/// The number of the leaf at which a hypervisor's leaves start.
pub const HYPERVISOR_LEAF: u32 = 0x4000_0000;

/// The number of the Hyper-V feature leaf.
pub const HYPERV_FEATURES_LEAF: u32 = 0x4000_0003;

/// The reading holds the leaves that it is to hold: the hypervisor leaf and the
/// Hyper-V feature leaf. Without the bit no product is asked for.
pub open spec fn readable(r: HypervisorReading) -> bool {
    &&& r.top.number == HYPERVISOR_LEAF
    &&& r.partitions.number == HYPERV_FEATURES_LEAF
    &&& !r.bit ==> r.identity is None
}

/// The CreatePartitions privilege, which only a root partition has. Where the
/// feature leaf is missing, Windows is taken to be the root: that is the common
/// case on physical machines.
pub open spec fn creates_partitions(r: HypervisorReading, windows: bool) -> bool {
    if r.top.eax < HYPERV_FEATURES_LEAF {
        windows
    } else {
        r.partitions.ebx & 1 != 0
    }
}

pub open spec fn probe_of(r: HypervisorReading, windows: bool) -> ProbeModel {
    if !r.bit {
        ProbeModel { bit: false, vendor_label: None, hyperv_root: false, is_guest_vendor: false }
    } else {
        ProbeModel {
            bit: true,
            vendor_label: match r.identity {
                Some(id) => Some(id.label_text()),
                None => None,
            },
            hyperv_root: r.identity == Some(HypervisorId::HyperV) && creates_partitions(r, windows),
            is_guest_vendor: r.identity matches Some(id) && id.runs_guests(),
        }
    }
}

pub open spec fn guest_info(reason: Seq<char>, hv: ProbeModel, root: bool) -> VirtualizationModel {
    VirtualizationModel {
        kind: VirtualizationKind::VirtualMachineGuest,
        authority: MicrocodeAuthority::HypervisorHost,
        reason,
        hypervisor_vendor: hv.vendor_label,
        hypervisor_bit: hv.bit,
        hyperv_root: root,
    }
}

pub open spec fn vendor_or(hv: ProbeModel, otherwise: Seq<char>) -> Seq<char> {
    match hv.vendor_label {
        Some(v) => v,
        None => otherwise,
    }
}

pub open spec fn container_info() -> VirtualizationModel {
    VirtualizationModel {
        kind: VirtualizationKind::Container,
        authority: MicrocodeAuthority::Unknown,
        reason: "container markers present (/.dockerenv, cgroup, or $container)"@,
        hypervisor_vendor: None,
        hypervisor_bit: false,
        hyperv_root: false,
    }
}

/// What the signals and the hypervisor probe show together. Guest markers of
/// the operating system come before what CPUID says.
pub open spec fn virtualization_of(s: SignalsModel, hv: ProbeModel) -> VirtualizationModel {
    if in_container(s) {
        container_info()
    } else if wsl_signal(s) is Some {
        guest_info(wsl_signal(s)->0, hv, false)
    } else if dmi_signal(s) is Some {
        guest_info(dmi_signal(s)->0, hv, hv.hyperv_root)
    } else if !hv.bit {
        VirtualizationModel {
            kind: VirtualizationKind::Native,
            authority: MicrocodeAuthority::FirmwareAndOperatingSystem,
            reason: "no guest DMI markers and no hypervisor present bit"@,
            hypervisor_vendor: None,
            hypervisor_bit: false,
            hyperv_root: false,
        }
    } else if hv.hyperv_root {
        VirtualizationModel {
            kind: VirtualizationKind::HypervisorRoot,
            authority: MicrocodeAuthority::FirmwareAndOperatingSystem,
            reason:
                "Hyper-V root partition (type-1 host on physical hardware; common with Windows VBS/WSL2/Hyper-V enabled)"@,
            hypervisor_vendor: hv.vendor_label,
            hypervisor_bit: true,
            hyperv_root: true,
        }
    } else if hv.is_guest_vendor {
        VirtualizationModel {
            hypervisor_bit: true,
            ..guest_info(
                "guest hypervisor identity "@ + debug_text(vendor_or(hv, "unknown"@)),
                hv,
                false,
            )
        }
    } else {
        VirtualizationModel {
            kind: VirtualizationKind::Unknown,
            authority: MicrocodeAuthority::Unknown,
            reason: "hypervisor present ("@ + debug_text(vendor_or(hv, "no vendor id"@))
                + ") but partition role is not known"@,
            hypervisor_vendor: hv.vendor_label,
            hypervisor_bit: true,
            hyperv_root: false,
        }
    }
}

// --- deciding -----------------------------------------------------------------------

fn lowered(s: &str) -> (r: String)
    ensures
        r@ == lower_text(s@),
{
    let chars = chars_of(s);
    let low = to_lower(chars.as_slice());
    string_of(low.as_slice())
}

/// The text without white space at the ends, or the empty one.
fn trimmed(contents: &Option<String>) -> (r: String)
    ensures
        r@ == trim_text(or_empty(opt_text(*contents))),
{
    match contents {
        Some(s) => {
            let chars = chars_of(s.as_str());
            string_of(trim(chars.as_slice()))
        },
        None => {
            let r = String::new();
            assert(r@ =~= trim_text(Seq::empty()));
            r
        },
    }
}

fn is_container(s: &HostSignals) -> (r: bool)
    ensures
        r == in_container(s@),
{
    if s.dockerenv {
        return true;
    }
    if let Some(cgroup) = &s.cgroup {
        let c = lowered(cgroup.as_str());
        if str_contains(c.as_str(), "docker") || str_contains(c.as_str(), "/lxc/") || str_contains(
            c.as_str(),
            "kubepods",
        ) || str_contains(c.as_str(), "containerd") {
            return true;
        }
    }
    if let Some(value) = &s.container {
        let chars = chars_of(value.as_str());
        if chars.len() > 0 {
            return true;
        }
    }
    false
}

/// Detect WSL from Linux-kernel markers, which are authoritative inside a WSL
/// distribution and do not depend on DMI being virtualized correctly.
fn wsl_guest_signal(s: &HostSignals) -> (r: Option<String>)
    ensures
        opt_text(r) == wsl_signal(s@),
{
    if !str_eq(s.os.as_str(), "linux") {
        return None;
    }
    let osrelease = lowered(trimmed(&s.osrelease).as_str());
    let version = lowered(trimmed(&s.version).as_str());
    wsl_guest_reason(osrelease.as_str(), version.as_str(), s.wsl_env)
}

/// Why a kernel's release and version, or the environment, show a WSL guest.
pub fn wsl_guest_reason(osrelease: &str, version: &str, env_marker: bool) -> (r: Option<String>)
    ensures
        opt_text(r) == wsl_reason(osrelease@, version@, env_marker),
{
    let release = lowered(osrelease);
    let kernel_version = lowered(version);
    if str_contains(release.as_str(), "microsoft-standard-wsl") {
        return Some(
            "WSL2 guest detected from the Microsoft WSL kernel; microcode is managed by the Windows/Hyper-V host".to_owned(),
        );
    }
    if str_contains(release.as_str(), "microsoft") || str_contains(
        kernel_version.as_str(),
        "microsoft",
    ) {
        return Some(
            "WSL guest detected from the Microsoft Linux kernel; microcode is managed by the Windows host".to_owned(),
        );
    }
    if env_marker {
        return Some(
            "WSL guest detected from WSL environment markers; microcode is managed by the Windows host".to_owned(),
        );
    }
    None
}

fn read_dmi(contents: &Option<String>) -> (r: String)
    ensures
        r@ == dmi_text(opt_text(*contents)),
{
    let t = trimmed(contents);
    if str_eq(t.as_str(), "None") {
        let r = String::new();
        assert(r@ =~= Seq::empty());
        return r;
    }
    t
}

fn is_guest_product(s: &str) -> (r: bool)
    ensures
        r == guest_product(s@),
{
    str_contains(s, "virtual machine") || str_contains(s, "virtualbox") || str_contains(s, "vbox")
        || str_contains(s, "vmware") || str_contains(s, "kvm") || str_contains(s, "bochs")
        || str_contains(s, "openstack") || str_contains(s, "google compute engine")
        || str_contains(s, "amazon ec2") || str_contains(s, "standard pc (i440fx") || str_contains(
        s,
        "standard pc (q35",
    ) || str_contains(s, "q35 +") || str_contains(s, "parallels virtual platform")
        || str_contains(s, "hvm domu")
}

fn guest_vendor_label(s: &str) -> (r: Option<&'static str>)
    ensures
        match r {
            Some(label) => guest_vendor(s@) == Some(label@),
            None => guest_vendor(s@) is None,
        },
{
    if str_contains(s, "qemu") {
        Some("QEMU")
    } else if str_contains(s, "innotek") {
        Some("VirtualBox (innotek)")
    } else if str_contains(s, "vmware") {
        Some("VMware")
    } else if str_contains(s, "xen") {
        Some("Xen")
    } else if str_contains(s, "parallels") {
        Some("Parallels")
    } else if str_contains(s, "bochs") {
        Some("Bochs")
    } else if str_contains(s, "nutanix") {
        Some("Nutanix")
    } else {
        None
    }
}

/// Returns `Some(reason)` only for *strong* guest DMI signals.
///
/// Deliberately does **not** treat `sys_vendor == "Microsoft Corporation"` alone
/// as a VM - that string appears on physical Surface devices and is useless
/// under Hyper-V root.
pub fn dmi_guest_signal(s: &HostSignals) -> (r: Option<String>)
    ensures
        opt_text(r) == dmi_signal(s@),
{
    let product = read_dmi(&s.product_name);
    let vendor = read_dmi(&s.sys_vendor);
    let board = read_dmi(&s.board_name);
    if is_guest_product(lowered(product.as_str()).as_str()) || is_guest_product(
        lowered(board.as_str()).as_str(),
    ) {
        let mut m = "DMI product/board indicates guest (".to_owned();
        m.append(debug_string(product.as_str()).as_str());
        m.append(" / ");
        m.append(debug_string(board.as_str()).as_str());
        m.append(")");
        return Some(m);
    }
    match guest_vendor_label(lowered(vendor.as_str()).as_str()) {
        Some(label) => {
            let mut m = "DMI sys_vendor indicates ".to_owned();
            m.append(label);
            m.append(" (");
            m.append(debug_string(vendor.as_str()).as_str());
            m.append(")");
            Some(m)
        },
        None => None,
    }
}

impl HypervisorId {
    /// The name of the product.
    pub fn label(self) -> (r: String)
        ensures
            r@ == self.label_text(),
    {
        match self {
            HypervisorId::Xen => "Xen".to_owned(),
            HypervisorId::VMware => "VMware".to_owned(),
            HypervisorId::HyperV => "HyperV".to_owned(),
            HypervisorId::Kvm => "KVM".to_owned(),
            HypervisorId::Qemu => "QEMU".to_owned(),
            HypervisorId::Bhyve => "Bhyve".to_owned(),
            HypervisorId::Qnx => "QNX".to_owned(),
            HypervisorId::Acrn => "ACRN".to_owned(),
            HypervisorId::Unknown(b, c, d) => {
                let mut m = around_dec("Unknown(", b as u64, ", ");
                m.append(dec_text(c as u64).as_str());
                m.append(", ");
                m.append(dec_text(d as u64).as_str());
                m.append(")");
                m
            },
        }
    }
}

/// Hyper-V feature leaf `0x40000003`: EBX bit 0 = CreatePartitions (root only).
fn hyperv_create_partitions(reading: &HypervisorReading, windows: bool) -> (r: bool)
    ensures
        r == creates_partitions(*reading, windows),
{
    if reading.top.eax < HYPERV_FEATURES_LEAF {
        // Incomplete hypervisor leaves. On Windows this still almost always
        // means root/VBS; treat as root so we don't false-positive as guest.
        return windows;
    }
    (reading.partitions.ebx & 1) != 0
}

/// What follows from what CPUID shows of a hypervisor.
pub fn hypervisor_probe(reading: &HypervisorReading, windows: bool) -> (r: HvProbe)
    ensures
        r@ == probe_of(*reading, windows),
{
    if !reading.bit {
        return HvProbe {
            bit: false,
            vendor_label: None,
            hyperv_root: false,
            is_guest_vendor: false,
        };
    }
    let vendor_label = match reading.identity {
        Some(id) => Some(id.label()),
        None => None,
    };
    let (hyperv_root, is_guest_vendor) = match reading.identity {
        // Without the privilege it could be a guest or an incomplete leaf. A
        // real guest almost always has a telling DMI product name, which is
        // looked at first, so no guest is claimed here.
        Some(HypervisorId::HyperV) => (hyperv_create_partitions(reading, windows), false),
        Some(HypervisorId::Unknown(_, _, _)) => (false, false),
        Some(_) => (false, true),
        None => (false, false),
    };
    HvProbe { bit: true, vendor_label, hyperv_root, is_guest_vendor }
}

/// Asks CPUID about a hypervisor.
fn read_hypervisor() -> (r: HypervisorReading)
    ensures
        readable(r),
{
    let bit = match read_features() {
        Some(f) => f.hypervisor,
        None => false,
    };
    let identity = if bit {
        read_hypervisor_id()
    } else {
        None
    };
    let top = read_leaf(HYPERVISOR_LEAF);
    let partitions = read_leaf(HYPERV_FEATURES_LEAF);
    HypervisorReading { bit, identity, top, partitions }
}

/// What the signals and a hypervisor probe show together.
pub fn classify_virtualization(s: &HostSignals, hv: HvProbe) -> (r: VirtualizationInfo)
    ensures
        r@ == virtualization_of(s@, hv@),
{
    if is_container(s) {
        return VirtualizationInfo {
            kind: VirtualizationKind::Container,
            authority: MicrocodeAuthority::Unknown,
            reason: "container markers present (/.dockerenv, cgroup, or $container)".to_owned(),
            hypervisor_vendor: None,
            hypervisor_bit: false,
            hyperv_root: false,
        };
    }
    // WSL2 deliberately exposes the physical CPU's Hyper-V CPUID signature,
    // but normally exposes neither the Hyper-V guest DMI product name nor the
    // root-partition CreatePartitions privilege.  It is therefore a known
    // false negative for a DMI + CPUID-only probe.  The Microsoft kernel
    // marker is an explicit guest signal, so handle it before the generic
    // hypervisor logic.
    if let Some(reason) = wsl_guest_signal(s) {
        return VirtualizationInfo {
            kind: VirtualizationKind::VirtualMachineGuest,
            authority: MicrocodeAuthority::HypervisorHost,
            reason,
            hypervisor_vendor: hv.vendor_label,
            hypervisor_bit: hv.bit,
            hyperv_root: false,
        };
    }
    // Strong DMI guest product name always wins.
    if let Some(reason) = dmi_guest_signal(s) {
        return VirtualizationInfo {
            kind: VirtualizationKind::VirtualMachineGuest,
            authority: MicrocodeAuthority::HypervisorHost,
            reason,
            hypervisor_vendor: hv.vendor_label,
            hypervisor_bit: hv.bit,
            hyperv_root: hv.hyperv_root,
        };
    }
    if !hv.bit {
        return VirtualizationInfo {
            kind: VirtualizationKind::Native,
            authority: MicrocodeAuthority::FirmwareAndOperatingSystem,
            reason: "no guest DMI markers and no hypervisor present bit".to_owned(),
            hypervisor_vendor: None,
            hypervisor_bit: false,
            hyperv_root: false,
        };
    }
    // Hypervisor present - classify carefully.
    if hv.hyperv_root {
        return VirtualizationInfo {
            kind: VirtualizationKind::HypervisorRoot,
            authority: MicrocodeAuthority::FirmwareAndOperatingSystem,
            reason:
                "Hyper-V root partition (type-1 host on physical hardware; common with Windows VBS/WSL2/Hyper-V enabled)".to_owned(),
            hypervisor_vendor: hv.vendor_label,
            hypervisor_bit: true,
            hyperv_root: true,
        };
    }
    if hv.is_guest_vendor {
        let name = match &hv.vendor_label {
            Some(v) => debug_string(v.as_str()),
            None => debug_string("unknown"),
        };
        let mut reason = "guest hypervisor identity ".to_owned();
        reason.append(name.as_str());
        return VirtualizationInfo {
            kind: VirtualizationKind::VirtualMachineGuest,
            authority: MicrocodeAuthority::HypervisorHost,
            reason,
            hypervisor_vendor: hv.vendor_label,
            hypervisor_bit: true,
            hyperv_root: false,
        };
    }
    // A hypervisor is definitely present but this process is neither a known
    // guest nor a root partition. Do not relabel that uncertainty as native.
    let name = match &hv.vendor_label {
        Some(v) => debug_string(v.as_str()),
        None => debug_string("no vendor id"),
    };
    let mut reason = "hypervisor present (".to_owned();
    reason.append(name.as_str());
    reason.append(") but partition role is not known");
    VirtualizationInfo {
        kind: VirtualizationKind::Unknown,
        authority: MicrocodeAuthority::Unknown,
        reason,
        hypervisor_vendor: hv.vendor_label,
        hypervisor_bit: true,
        hyperv_root: false,
    }
}

/// The result is one that some reading of CPUID gives with these signals.
pub open spec fn detectable(s: SignalsModel, v: VirtualizationModel) -> bool {
    let windows = s.os == "windows"@;
    exists|reading: HypervisorReading|
        readable(reading) && v == virtualization_of(s, #[trigger] probe_of(reading, windows))
}

/// Best-effort virtualization detection. Never fails hard.
pub fn detect_virtualization(s: &HostSignals) -> (r: VirtualizationKind)
    ensures
        exists|v: VirtualizationModel| #[trigger] detectable(s@, v) && r == v.kind,
        in_container(s@) ==> r == VirtualizationKind::Container,
{
    let info = detect_virtualization_info(s);
    assert(detectable(s@, info@));
    info.kind
}

/// Full diagnostic probe used by discovery and status.
pub fn detect_virtualization_info(s: &HostSignals) -> (r: VirtualizationInfo)
    ensures
        detectable(s@, r@),
        in_container(s@) ==> r@ == container_info(),
{
    let reading = read_hypervisor();
    let windows = str_eq(s.os.as_str(), "windows");
    let hv = hypervisor_probe(&reading, windows);
    assert(hv@ == probe_of(reading, s@.os == "windows"@));
    classify_virtualization(s, hv)
}

// --- laws ---------------------------------------------------------------------------

/// Each environment has its own evidence. Only an explicit marker or a product
/// that runs guests makes a guest; the bare hypervisor bit never does, and a
/// hypervisor in an unknown role is neither a guest nor native.
pub proof fn law_evidence_decides(s: SignalsModel, reading: HypervisorReading, windows: bool)
    ensures
        ({
            let hv = probe_of(reading, windows);
            let kind = virtualization_of(s, hv).kind;
            let marked = wsl_signal(s) is Some || dmi_signal(s) is Some;
            let root = reading.bit && reading.identity == Some(HypervisorId::HyperV)
                && creates_partitions(reading, windows);
            let product = reading.bit && reading.identity is Some
                && (reading.identity->0).runs_guests();
            &&& kind is Container <==> in_container(s)
            &&& kind is VirtualMachineGuest <==> !in_container(s) && (marked || product)
            &&& kind is HypervisorRoot <==> !in_container(s) && !marked && root
            &&& kind is Native <==> !in_container(s) && !marked && !reading.bit
            &&& kind is Unknown <==> !in_container(s) && !marked && reading.bit && !root && !product
        }),
{
}

/// A decision always comes with a reason.
pub proof fn law_decisions_have_a_reason(s: SignalsModel, hv: ProbeModel)
    ensures
        virtualization_of(s, hv).reason.len() > 0,
{
    reveal_strlit("container markers present (/.dockerenv, cgroup, or $container)");
    reveal_strlit(
        "WSL2 guest detected from the Microsoft WSL kernel; microcode is managed by the Windows/Hyper-V host",
    );
    reveal_strlit(
        "WSL guest detected from the Microsoft Linux kernel; microcode is managed by the Windows host",
    );
    reveal_strlit(
        "WSL guest detected from WSL environment markers; microcode is managed by the Windows host",
    );
    reveal_strlit("DMI product/board indicates guest (");
    reveal_strlit("DMI sys_vendor indicates ");
    reveal_strlit("no guest DMI markers and no hypervisor present bit");
    reveal_strlit(
        "Hyper-V root partition (type-1 host on physical hardware; common with Windows VBS/WSL2/Hyper-V enabled)",
    );
    reveal_strlit("guest hypervisor identity ");
    reveal_strlit("hypervisor present (");
}

} // verus!
