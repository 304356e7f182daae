//! What the files of `/sys/devices/system/cpu` say.

use vstd::prelude::*;
use crate::linux::error::{LinuxError, LinuxFault};
use crate::number::{around_dec, dec, parse_u32, read_u32, NumberError};
use crate::text::{chars_eq, chars_of, has_prefix, starts_with, trim, trim_text};

verus! {

/// Online / offline state of one logical CPU.
#[derive(Debug, Clone, Copy, PartialEq, Eq, Structural)]
pub enum CpuOnlineState {
    Online,
    Offline,
    Unknown,
}

/// The view of a text that may be missing.
pub open spec fn opt_str(s: Option<&str>) -> Option<Seq<char>> {
    match s {
        Some(x) => Some(x@),
        None => None,
    }
}

/// The number that a text holds between white space: hexadecimal after `0x` or
/// `0X`, decimal otherwise.
pub open spec fn version_number(s: Seq<char>) -> Result<nat, NumberError> {
    let t = trim_text(s);
    if starts_with(t, "0x"@) || starts_with(t, "0X"@) {
        read_u32(t.skip(2), 16)
    } else {
        read_u32(t, 10)
    }
}

/// The revision that a version file reports; one that could not be read
/// reports none.
pub open spec fn version_of(contents: Option<Seq<char>>) -> Result<Option<u32>, LinuxFault> {
    match contents {
        None => Ok(None),
        Some(text) => match version_number(text) {
            Ok(v) => Ok(Some(v as u32)),
            Err(e) => Err(
                LinuxFault::Parse { what: "microcode version"@, reason: e.message() },
            ),
        },
    }
}

/// What an `online` file says of its CPU. The first CPU often has no such file
/// and is always online.
pub open spec fn online_of(cpu: u32, contents: Option<Seq<char>>) -> CpuOnlineState {
    match contents {
        Some(text) => if trim_text(text) == "1"@ {
            CpuOnlineState::Online
        } else if trim_text(text) == "0"@ {
            CpuOnlineState::Offline
        } else {
            CpuOnlineState::Unknown
        },
        None => if cpu == 0 {
            CpuOnlineState::Online
        } else {
            CpuOnlineState::Unknown
        },
    }
}

/// Reads a number between white space, in hexadecimal after `0x` or `0X`.
pub fn parse_version(text: &[char]) -> (r: Result<u32, NumberError>)
    ensures
        match r {
            Ok(v) => version_number(text@) == Ok::<nat, NumberError>(v as nat),
            Err(e) => version_number(text@) == Err::<nat, NumberError>(e),
        },
{
    let s = trim(text);
    let lower = chars_of("0x");
    let upper = chars_of("0X");
    if has_prefix(s, lower.as_slice()) || has_prefix(s, upper.as_slice()) {
        proof {
            reveal_strlit("0x");
            reveal_strlit("0X");
        }
        let rest = vstd::slice::slice_subrange(s, 2, s.len());
        assert(rest@ =~= s@.skip(2));
        parse_u32(rest, 16)
    } else {
        parse_u32(s, 10)
    }
}

/// Where the kernel reports the loaded microcode revision of a CPU.
pub fn microcode_version_path(cpu: u32) -> (r: String)
    ensures
        r@ == "/sys/devices/system/cpu/cpu"@ + dec(cpu as nat) + "/microcode/version"@,
{
    around_dec("/sys/devices/system/cpu/cpu", cpu as u64, "/microcode/version")
}

/// Where the kernel reports whether a CPU is online.
pub fn online_path(cpu: u32) -> (r: String)
    ensures
        r@ == "/sys/devices/system/cpu/cpu"@ + dec(cpu as nat) + "/online"@,
{
    around_dec("/sys/devices/system/cpu/cpu", cpu as u64, "/online")
}

/// The currently loaded microcode revision, from the contents of the version
/// file. A file that is missing or unreadable gives no revision.
pub fn read_microcode_version(contents: Option<&str>) -> (r: Result<Option<u32>, LinuxError>)
    ensures
        match r {
            Ok(v) => version_of(opt_str(contents)) == Ok::<_, LinuxFault>(v),
            Err(e) => version_of(opt_str(contents)) == Err::<Option<u32>, _>(e@),
        },
{
    match contents {
        None => Ok(None),
        Some(text) => {
            let chars = chars_of(text);
            match parse_version(chars.as_slice()) {
                Ok(v) => Ok(Some(v)),
                Err(e) => Err(
                    LinuxError::Parse { what: "microcode version", reason: e.to_string() },
                ),
            }
        },
    }
}

/// Whether a logical CPU is online, from the contents of its `online` file.
pub fn cpu_online_state(cpu: u32, contents: Option<&str>) -> (r: CpuOnlineState)
    ensures
        r == online_of(cpu, opt_str(contents)),
{
    match contents {
        Some(text) => {
            let chars = chars_of(text);
            let s = trim(chars.as_slice());
            let one = chars_of("1");
            let zero = chars_of("0");
            if chars_eq(s, one.as_slice()) {
                CpuOnlineState::Online
            } else if chars_eq(s, zero.as_slice()) {
                CpuOnlineState::Offline
            } else {
                CpuOnlineState::Unknown
            }
        },
        None => if cpu == 0 {
            CpuOnlineState::Online
        } else {
            CpuOnlineState::Unknown
        },
    }
}

/// Best-effort Intel platform-id bit, if the system exposes it.
///
/// Reading it takes a privileged MSR access, which is out of scope here, and a
/// value is never invented: the answer is always `None`. Callers that know the
/// platform mask supply it themselves.
pub fn read_platform_id_hint(_cpu: u32) -> (r: Option<u32>)
    ensures
        r is None,
{
    None
}

} // verus!
