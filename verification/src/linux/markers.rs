//! Laws of the markers that tell environments apart.

use vstd::prelude::*;
use crate::linux::cpuid::HypervisorId;
use crate::linux::virt::{
    container_cgroup, creates_partitions, dmi_signal, dmi_text, guest_product, guest_vendor, in_container,
    probe_of, virtualization_of, wsl_reason, wsl_signal, HypervisorReading, MicrocodeAuthority, ProbeModel,
    SignalsModel, VirtualizationKind,
};
use crate::number::dec;
use crate::text::{contains_text, debug_text, lower_text, trim_text};

verus! {

/// One of the markers occurs in the text, whatever its case.
pub open spec fn is_marked(text: Seq<char>, markers: Seq<Seq<char>>) -> bool {
    exists|i: int| 0 <= i < markers.len() && contains_text(lower_text(text), #[trigger] markers[i])
}

/// A text without white space at its ends; none is the empty one.
pub open spec fn clean(contents: Option<Seq<char>>) -> Seq<char> {
    match contents {
        Some(t) => trim_text(t),
        None => trim_text(Seq::empty()),
    }
}

/// What container runtimes leave in the control groups.
pub open spec fn container_markers() -> Seq<Seq<char>> {
    seq!["docker"@, "/lxc/"@, "kubepods"@, "containerd"@]
}

/// Names that only guests have.
pub open spec fn product_markers() -> Seq<Seq<char>> {
    seq![
        "virtual machine"@,
        "virtualbox"@,
        "vbox"@,
        "vmware"@,
        "kvm"@,
        "bochs"@,
        "openstack"@,
        "google compute engine"@,
        "amazon ec2"@,
        "standard pc (i440fx"@,
        "standard pc (q35"@,
        "q35 +"@,
        "parallels virtual platform"@,
        "hvm domu"@,
    ]
}

/// Vendors that make guests only.
pub open spec fn vendor_markers() -> Seq<Seq<char>> {
    seq!["qemu"@, "innotek"@, "vmware"@, "xen"@, "parallels"@, "bochs"@, "nutanix"@]
}

/// A container shows by its marker file, by its control groups, or by its
/// variable, and by nothing else.
pub proof fn law_container_markers(s: SignalsModel)
    ensures
        in_container(s) <==> s.dockerenv || (s.cgroup matches Some(c) && is_marked(c, container_markers())) || (
        s.container matches Some(v) && v.len() > 0),
{
    let m = container_markers();
    if let Some(c) = s.cgroup {
        let low = lower_text(c);
        if container_cgroup(low) {
            assert(contains_text(low, m[0]) || contains_text(low, m[1]) || contains_text(low, m[2])
                || contains_text(low, m[3]));
        }
    }
}

/// The kernel of a WSL guest names Microsoft, or its variables are there.
pub proof fn law_wsl_markers(release: Seq<char>, version: Seq<char>, env: bool, s: SignalsModel)
    ensures
        wsl_reason(release, version, env) is Some <==> env || contains_text(
            lower_text(release),
            "microsoft-standard-wsl"@,
        ) || contains_text(lower_text(release), "microsoft"@) || contains_text(
            lower_text(version),
            "microsoft"@,
        ),
        s.os != "linux"@ ==> wsl_signal(s) is None,
        s.os == "linux"@ ==> wsl_signal(s) == wsl_reason(
            lower_text(clean(s.osrelease)),
            lower_text(clean(s.version)),
            s.wsl_env,
        ),
{
}

proof fn lemma_product(text: Seq<char>)
    ensures
        guest_product(lower_text(text)) <==> is_marked(text, product_markers()),
{
    let low = lower_text(text);
    let m = product_markers();
    if guest_product(low) {
        assert(contains_text(low, m[0]) || contains_text(low, m[1]) || contains_text(low, m[2])
            || contains_text(low, m[3]) || contains_text(low, m[4]) || contains_text(low, m[5])
            || contains_text(low, m[6]) || contains_text(low, m[7]) || contains_text(low, m[8])
            || contains_text(low, m[9]) || contains_text(low, m[10]) || contains_text(low, m[11])
            || contains_text(low, m[12]) || contains_text(low, m[13]));
    }
}

proof fn lemma_vendor(text: Seq<char>)
    ensures
        guest_vendor(lower_text(text)) is Some <==> is_marked(text, vendor_markers()),
{
    let low = lower_text(text);
    let m = vendor_markers();
    if guest_vendor(low) is Some {
        assert(contains_text(low, m[0]) || contains_text(low, m[1]) || contains_text(low, m[2])
            || contains_text(low, m[3]) || contains_text(low, m[4]) || contains_text(low, m[5])
            || contains_text(low, m[6]));
    }
}

/// A DMI field as it counts: without white space at its ends, and nothing
/// where it says `None`.
pub open spec fn dmi_field(contents: Option<Seq<char>>) -> Seq<char> {
    if clean(contents) == "None"@ {
        Seq::empty()
    } else {
        clean(contents)
    }
}

/// DMI shows a guest by the name of the product or of the board, or by the
/// vendor, and by nothing else.
pub proof fn law_dmi_markers(s: SignalsModel)
    ensures
        dmi_signal(s) is Some <==> is_marked(dmi_field(s.product_name), product_markers()) || is_marked(
            dmi_field(s.board_name),
            product_markers(),
        ) || is_marked(dmi_field(s.sys_vendor), vendor_markers()),
{
    lemma_product(dmi_field(s.product_name));
    lemma_product(dmi_field(s.board_name));
    lemma_vendor(dmi_field(s.sys_vendor));
    assert(dmi_text(s.product_name) == dmi_field(s.product_name));
    assert(dmi_text(s.board_name) == dmi_field(s.board_name));
    assert(dmi_text(s.sys_vendor) == dmi_field(s.sys_vendor));
}

/// A probe shows what CPUID says of the hypervisor: nothing without the bit;
/// a root partition only of Hyper-V, by its privilege, or where the leaf for it
/// is missing by running Windows; and of all other products that are known that
/// they run guests.
pub proof fn law_probes_show_the_hypervisor(r: HypervisorReading, windows: bool)
    ensures
        ({
            let p = probe_of(r, windows);
            &&& p.bit == r.bit
            &&& p.vendor_label is Some <==> r.bit && r.identity is Some
            &&& p.hyperv_root <==> r.bit && r.identity == Some(HypervisorId::HyperV) && (if r.top.eax
                < 0x4000_0003 {
                windows
            } else {
                r.partitions.ebx & 1 == 1
            })
            &&& p.is_guest_vendor <==> r.bit && (r.identity == Some(HypervisorId::Xen) || r.identity == Some(
                HypervisorId::VMware,
            ) || r.identity == Some(HypervisorId::Kvm) || r.identity == Some(HypervisorId::Qemu) || r.identity
                == Some(HypervisorId::Bhyve) || r.identity == Some(HypervisorId::Qnx) || r.identity == Some(
                HypervisorId::Acrn,
            ))
        }),
{
    let ebx = r.partitions.ebx;
    assert(ebx & 1 == 0 || ebx & 1 == 1) by (bit_vector);
    assert(creates_partitions(r, windows) <==> if r.top.eax < 0x4000_0003 {
        windows
    } else {
        ebx & 1 == 1
    });
}

/// The host controls the microcode of a guest, the firmware and the operating
/// system that of a physical machine, with or without a hypervisor below, and
/// where the role is not known neither is known to. What CPUID says of the
/// hypervisor is passed on, but for containers.
pub proof fn law_the_authority_fits_the_environment(s: SignalsModel, hv: ProbeModel)
    requires
        !hv.bit ==> hv.vendor_label is None && !hv.hyperv_root && !hv.is_guest_vendor,
    ensures
        ({
            let v = virtualization_of(s, hv);
            &&& v.authority == MicrocodeAuthority::HypervisorHost <==> v.kind
                == VirtualizationKind::VirtualMachineGuest
            &&& v.authority == MicrocodeAuthority::FirmwareAndOperatingSystem <==> v.kind
                == VirtualizationKind::Native || v.kind == VirtualizationKind::HypervisorRoot
            &&& v.authority == MicrocodeAuthority::Unknown <==> v.kind == VirtualizationKind::Container || v.kind
                == VirtualizationKind::Unknown
            &&& v.kind != VirtualizationKind::Container ==> v.hypervisor_bit == hv.bit && v.hypervisor_vendor
                == hv.vendor_label
            &&& v.kind == VirtualizationKind::HypervisorRoot ==> v.hyperv_root
            &&& v.hyperv_root ==> hv.hyperv_root && wsl_signal(s) is None
        }),
{
}

/// What the vendors are called, in the order of their markers.
pub open spec fn vendor_names() -> Seq<Seq<char>> {
    seq!["QEMU"@, "VirtualBox (innotek)"@, "VMware"@, "Xen"@, "Parallels"@, "Bochs"@, "Nutanix"@]
}

/// The first marker in a vendor's name says what the vendor is called.
pub proof fn law_the_first_marker_names_the_vendor(text: Seq<char>, k: int)
    requires
        0 <= k < vendor_markers().len(),
        contains_text(lower_text(text), vendor_markers()[k]),
        forall|j: int| 0 <= j < k ==> !contains_text(lower_text(text), #[trigger] vendor_markers()[j]),
    ensures
        guest_vendor(lower_text(text)) == Some(vendor_names()[k]),
{
    let m = vendor_markers();
    let low = lower_text(text);
    assert(k > 0 ==> !contains_text(low, m[0]));
    assert(k > 1 ==> !contains_text(low, m[1]));
    assert(k > 2 ==> !contains_text(low, m[2]));
    assert(k > 3 ==> !contains_text(low, m[3]));
    assert(k > 4 ==> !contains_text(low, m[4]));
    assert(k > 5 ==> !contains_text(low, m[5]));
}

/// The reason says what was seen: the markers of a container, the kernel or the
/// variables of WSL, the names that DMI gives, or what CPUID says of the
/// hypervisor.
pub proof fn law_reasons_name_the_evidence(s: SignalsModel, hv: ProbeModel)
    ensures
        ({
            let reason = virtualization_of(s, hv).reason;
            let product = dmi_field(s.product_name);
            let board = dmi_field(s.board_name);
            let vendor = dmi_field(s.sys_vendor);
            let wsl = wsl_signal(s) is Some;
            let named = is_marked(product, product_markers()) || is_marked(board, product_markers());
            let made = is_marked(vendor, vendor_markers());
            &&& in_container(s) ==> reason
                == "container markers present (/.dockerenv, cgroup, or $container)"@
            &&& !in_container(s) && wsl ==> Some(reason) == wsl_signal(s)
            &&& !in_container(s) && !wsl && named ==> reason == "DMI product/board indicates guest ("@
                + debug_text(product) + " / "@ + debug_text(board) + ")"@
            &&& !in_container(s) && !wsl && !named && made ==> (guest_vendor(lower_text(vendor)) matches Some(
                label,
            ) && reason == "DMI sys_vendor indicates "@ + label + " ("@ + debug_text(vendor) + ")"@)
            &&& !in_container(s) && !wsl && !named && !made ==> {
                let unnamed = hv.vendor_label is None;
                &&& !hv.bit ==> reason == "no guest DMI markers and no hypervisor present bit"@
                &&& hv.bit && hv.hyperv_root ==> reason
                    == "Hyper-V root partition (type-1 host on physical hardware; common with Windows VBS/WSL2/Hyper-V enabled)"@
                &&& hv.bit && !hv.hyperv_root && hv.is_guest_vendor && !unnamed ==> reason
                    == "guest hypervisor identity "@ + debug_text(hv.vendor_label->0)
                &&& hv.bit && !hv.hyperv_root && !hv.is_guest_vendor && !unnamed ==> reason
                    == "hypervisor present ("@ + debug_text(hv.vendor_label->0)
                    + ") but partition role is not known"@
                &&& hv.bit && !hv.hyperv_root && !hv.is_guest_vendor && unnamed ==> reason
                    == "hypervisor present ("@ + debug_text("no vendor id"@)
                    + ") but partition role is not known"@
            }
        }),
{
    lemma_product(dmi_field(s.product_name));
    lemma_product(dmi_field(s.board_name));
    lemma_vendor(dmi_field(s.sys_vendor));
    assert(dmi_text(s.product_name) == dmi_field(s.product_name));
    assert(dmi_text(s.board_name) == dmi_field(s.board_name));
    assert(dmi_text(s.sys_vendor) == dmi_field(s.sys_vendor));
}

/// WSL is told apart by its kernel before its variables, and the second version
/// of it before the first.
pub proof fn law_wsl_kernels_are_told_apart(release: Seq<char>, version: Seq<char>, env: bool)
    ensures
        ({
            let reason = wsl_reason(release, version, env);
            let second = contains_text(lower_text(release), "microsoft-standard-wsl"@);
            let first = contains_text(lower_text(release), "microsoft"@) || contains_text(
                lower_text(version),
                "microsoft"@,
            );
            &&& second ==> reason == Some(
                "WSL2 guest detected from the Microsoft WSL kernel; microcode is managed by the Windows/Hyper-V host"@,
            )
            &&& !second && first ==> reason == Some(
                "WSL guest detected from the Microsoft Linux kernel; microcode is managed by the Windows host"@,
            )
            &&& !second && !first && env ==> reason == Some(
                "WSL guest detected from WSL environment markers; microcode is managed by the Windows host"@,
            )
        }),
{
}

/// A hypervisor that is known is called by its name, and another one by the
/// three words that it answers with.
pub proof fn law_hypervisors_are_named(r: HypervisorReading, windows: bool)
    requires
        r.bit,
    ensures
        ({
            let label = probe_of(r, windows).vendor_label;
            &&& r.identity == Some(HypervisorId::Xen) ==> label == Some("Xen"@)
            &&& r.identity == Some(HypervisorId::VMware) ==> label == Some("VMware"@)
            &&& r.identity == Some(HypervisorId::HyperV) ==> label == Some("HyperV"@)
            &&& r.identity == Some(HypervisorId::Kvm) ==> label == Some("KVM"@)
            &&& r.identity == Some(HypervisorId::Qemu) ==> label == Some("QEMU"@)
            &&& r.identity == Some(HypervisorId::Bhyve) ==> label == Some("Bhyve"@)
            &&& r.identity == Some(HypervisorId::Qnx) ==> label == Some("QNX"@)
            &&& r.identity == Some(HypervisorId::Acrn) ==> label == Some("ACRN"@)
            &&& r.identity matches Some(HypervisorId::Unknown(b, c, d)) ==> label == Some(
                "Unknown("@ + dec(b as nat) + ", "@ + dec(c as nat) + ", "@ + dec(d as nat) + ")"@,
            )
        }),
{
}

} // verus!
