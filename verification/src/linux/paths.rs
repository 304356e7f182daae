//! Where firmware and boot images are kept.

use vstd::prelude::*;
use crate::linux::sysfs::opt_str;
use crate::text::{chars_of, is_joined, path_join, string_of, strings, trim, trim_text};

verus! {

/// The firmware directories, in the order in which they are looked at.
pub open spec fn firmware_paths() -> Seq<Seq<char>> {
    seq![
        "/lib/firmware/intel-ucode"@,
        "/lib/firmware/amd-ucode"@,
        "/usr/lib/firmware/intel-ucode"@,
        "/usr/lib/firmware/amd-ucode"@,
        "/usr/share/misc/intel-microcode"@,
    ]
}

/// The boot images that carry no kernel version in their name.
pub open spec fn plain_initrds() -> Seq<Seq<char>> {
    seq![
        "/boot/initrd.img"@,
        "/boot/initramfs.img"@,
        "/boot/initrd"@,
        "/boot/initramfs-linux.img"@,
        "/boot/initramfs-linux-lts.img"@,
    ]
}

/// The boot images of a kernel release, before those without a version.
pub open spec fn initrd_candidates(release: Option<Seq<char>>) -> Seq<Seq<char>> {
    match release {
        Some(text) => {
            let rel = trim_text(text);
            if rel.len() == 0 {
                plain_initrds()
            } else {
                seq![
                    "/boot/initrd.img-"@ + rel,
                    "/boot/initramfs-"@ + rel + ".img"@,
                    "/boot/initrd-"@ + rel,
                ] + plain_initrds()
            }
        },
        None => plain_initrds(),
    }
}

fn pushed(v: &mut Vec<String>, s: &str)
    ensures
        strings(final(v)@) == strings(old(v)@).push(s@),
{
    let ghost before = v@;
    let text = s.to_owned();
    v.push(text);
    assert(strings(v@) =~= strings(before).push(s@));
}

/// Canonical firmware directories used by the Linux microcode loaders.
pub fn default_firmware_paths() -> (r: Vec<String>)
    ensures
        strings(r@) == firmware_paths(),
{
    let mut out: Vec<String> = Vec::new();
    assert(strings(out@) =~= Seq::empty());
    pushed(&mut out, "/lib/firmware/intel-ucode");
    pushed(&mut out, "/lib/firmware/amd-ucode");
    pushed(&mut out, "/usr/lib/firmware/intel-ucode");
    pushed(&mut out, "/usr/lib/firmware/amd-ucode");
    pushed(&mut out, "/usr/share/misc/intel-microcode");
    assert(strings(out@) =~= firmware_paths());
    out
}

/// Common locations for the currently installed initrd/initramfs image, given
/// the contents of `/proc/sys/kernel/osrelease` where it can be read.
pub fn default_initrd_candidates(release: Option<&str>) -> (r: Vec<String>)
    ensures
        strings(r@) == initrd_candidates(opt_str(release)),
{
    let mut out: Vec<String> = Vec::new();
    assert(strings(out@) =~= Seq::empty());
    // Kernel-versioned names when uname is available.
    if let Some(text) = release {
        let chars = chars_of(text);
        let rel = trim(chars.as_slice());
        if rel.len() > 0 {
            let rel = string_of(rel);
            let mut a = "/boot/initrd.img-".to_owned();
            a.append(rel.as_str());
            let mut b = "/boot/initramfs-".to_owned();
            b.append(rel.as_str());
            b.append(".img");
            let mut c = "/boot/initrd-".to_owned();
            c.append(rel.as_str());
            pushed(&mut out, a.as_str());
            pushed(&mut out, b.as_str());
            pushed(&mut out, c.as_str());
        }
    }
    pushed(&mut out, "/boot/initrd.img");
    pushed(&mut out, "/boot/initramfs.img");
    pushed(&mut out, "/boot/initrd");
    pushed(&mut out, "/boot/initramfs-linux.img");
    pushed(&mut out, "/boot/initramfs-linux-lts.img");
    assert(strings(out@) =~= initrd_candidates(opt_str(release)));
    out
}

/// Standard early-loader blob path for a vendor under a firmware root, joined as
/// the system joins paths.
pub fn firmware_blob_for_vendor(root: &str, vendor_dir: &str, file: &str) -> (r: String)
    ensures
        exists|dir: Seq<char>|
            #[trigger] is_joined(dir, root@, vendor_dir@) && is_joined(r@, dir, file@),
{
    let dir = path_join(root, vendor_dir);
    assert(is_joined(dir@, root@, vendor_dir@));
    path_join(dir.as_str(), file)
}

} // verus!
