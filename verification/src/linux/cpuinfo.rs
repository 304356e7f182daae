//! `/proc/cpuinfo`.

use vstd::prelude::*;
use crate::linux::error::{LinuxError, LinuxFault};
use crate::linux::sysfs::{parse_version, version_number};
use crate::model::cpu::{CpuIdentity, CpuSignature, Vendor};
use crate::number::{parse_u32, read_u32, NumberError};
use crate::text::{
    chars_of, find, find_text, lines, lines_text, string_of, str_eq, texts, trim, trim_end,
    trim_end_text, trim_text,
};

verus! {

/// One logical CPU as reported by `/proc/cpuinfo`.
#[derive(Debug, Clone, Copy, PartialEq, Eq, Structural)]
pub struct CpuInfoCpu {
    pub processor: u32,
    pub vendor: Vendor,
    pub family: u32,
    pub model: u32,
    pub stepping: u32,
    pub microcode: Option<u32>,
    pub physical_id: Option<u32>,
    pub core_id: Option<u32>,
}

impl CpuInfoCpu {
    pub open spec fn signature_of(self) -> CpuSignature {
        CpuSignature(CpuSignature::encode(self.vendor, self.family, self.model, self.stepping))
    }

    pub open spec fn identity(self) -> CpuIdentity {
        CpuIdentity {
            vendor: self.vendor,
            signature: self.signature_of(),
            platform_mask: None,
            current_revision: self.microcode,
        }
    }

    pub fn signature(&self) -> (r: CpuSignature)
        ensures
            r == self.signature_of(),
    {
        CpuSignature::from_fms(self.vendor, self.family, self.model, self.stepping)
    }

    pub fn to_identity(&self) -> (r: CpuIdentity)
        ensures
            r == self.identity(),
    {
        let id = CpuIdentity::new(self.vendor, self.signature());
        match self.microcode {
            Some(rev) => id.with_revision(rev),
            None => id,
        }
    }
}

// --- what the text says -------------------------------------------------------------

/// The fields of a processor block seen so far.
#[derive(Debug, Clone, Copy)]
pub struct PartialCpu {
    pub processor: Option<u32>,
    pub vendor: Option<Vendor>,
    pub family: Option<u32>,
    pub model: Option<u32>,
    pub stepping: Option<u32>,
    pub microcode: Option<u32>,
    pub physical_id: Option<u32>,
    pub core_id: Option<u32>,
}

impl PartialCpu {
    pub open spec fn empty() -> PartialCpu {
        PartialCpu {
            processor: None,
            vendor: None,
            family: None,
            model: None,
            stepping: None,
            microcode: None,
            physical_id: None,
            core_id: None,
        }
    }

    /// The CPU that the fields describe, once the mandatory ones are there.
    pub open spec fn finished(self) -> Option<CpuInfoCpu> {
        match (self.processor, self.vendor, self.family, self.model, self.stepping) {
            (Some(processor), Some(vendor), Some(family), Some(model), Some(stepping)) => Some(
                CpuInfoCpu {
                    processor,
                    vendor,
                    family,
                    model,
                    stepping,
                    microcode: self.microcode,
                    physical_id: self.physical_id,
                    core_id: self.core_id,
                },
            ),
            _ => None,
        }
    }

    /// The fields after a line with the given key and value. A value that is
    /// no number clears its field.
    pub open spec fn with_field(self, key: Seq<char>, value: Seq<char>) -> PartialCpu {
        if key == "processor"@ {
            PartialCpu { processor: number(read_u32(value, 10)), ..self }
        } else if key == "vendor_id"@ {
            PartialCpu { vendor: Vendor::of_cpuid_text(value), ..self }
        } else if key == "cpu family"@ {
            PartialCpu { family: number(read_u32(value, 10)), ..self }
        } else if key == "model"@ {
            PartialCpu { model: number(read_u32(value, 10)), ..self }
        } else if key == "stepping"@ {
            PartialCpu { stepping: number(read_u32(value, 10)), ..self }
        } else if key == "microcode"@ {
            PartialCpu { microcode: number(version_number(value)), ..self }
        } else if key == "physical id"@ {
            PartialCpu { physical_id: number(read_u32(value, 10)), ..self }
        } else if key == "core id"@ {
            PartialCpu { core_id: number(read_u32(value, 10)), ..self }
        } else {
            self
        }
    }
}

/// A number that was read, if it was.
pub open spec fn number(n: Result<nat, NumberError>) -> Option<u32> {
    match n {
        Ok(v) => Some(v as u32),
        Err(_) => None,
    }
}

pub open spec fn with_cpu(cpus: Seq<CpuInfoCpu>, cur: PartialCpu) -> Seq<CpuInfoCpu> {
    match cur.finished() {
        Some(cpu) => cpus.push(cpu),
        None => cpus,
    }
}

/// The finished CPUs and the current block after one more line. An empty line
/// ends a block; a line without a colon says nothing.
pub open spec fn after_line(cpus: Seq<CpuInfoCpu>, cur: PartialCpu, raw: Seq<char>) -> (
    Seq<CpuInfoCpu>,
    PartialCpu,
) {
    let line = trim_end_text(raw);
    if line.len() == 0 {
        (with_cpu(cpus, cur), PartialCpu::empty())
    } else {
        match find_text(line, ":"@) {
            None => (cpus, cur),
            Some(i) => (
                cpus,
                cur.with_field(trim_text(line.take(i)), trim_text(line.skip(i + 1))),
            ),
        }
    }
}

pub open spec fn after_lines(all: Seq<Seq<char>>) -> (Seq<CpuInfoCpu>, PartialCpu)
    decreases all.len(),
{
    if all.len() == 0 {
        (Seq::empty(), PartialCpu::empty())
    } else {
        let (cpus, cur) = after_lines(all.drop_last());
        after_line(cpus, cur, all.last())
    }
}

/// The CPUs that a text lists.
pub open spec fn cpus_of(text: Seq<char>) -> Seq<CpuInfoCpu> {
    let (cpus, cur) = after_lines(lines_text(text));
    with_cpu(cpus, cur)
}

pub open spec fn no_blocks() -> LinuxFault {
    LinuxFault::Parse { what: "cpuinfo"@, reason: "no processor blocks found"@ }
}

pub open spec fn cpuinfo_of(text: Seq<char>) -> Result<Seq<CpuInfoCpu>, LinuxFault> {
    if cpus_of(text).len() == 0 {
        Err(no_blocks())
    } else {
        Ok(cpus_of(text))
    }
}

// --- reading it ---------------------------------------------------------------------

fn parsed(n: Result<u32, NumberError>) -> (r: Option<u32>)
    ensures
        r == match n {
            Ok(v) => Some(v),
            Err(_) => None,
        },
{
    match n {
        Ok(v) => Some(v),
        Err(_) => None,
    }
}

impl PartialCpu {
    fn new() -> (r: Self)
        ensures
            r == PartialCpu::empty(),
    {
        PartialCpu {
            processor: None,
            vendor: None,
            family: None,
            model: None,
            stepping: None,
            microcode: None,
            physical_id: None,
            core_id: None,
        }
    }

    fn finish(&self) -> (r: Option<CpuInfoCpu>)
        ensures
            r == self.finished(),
    {
        match (self.processor, self.vendor, self.family, self.model, self.stepping) {
            (Some(processor), Some(vendor), Some(family), Some(model), Some(stepping)) => Some(
                CpuInfoCpu {
                    processor,
                    vendor,
                    family,
                    model,
                    stepping,
                    microcode: self.microcode,
                    physical_id: self.physical_id,
                    core_id: self.core_id,
                },
            ),
            _ => None,
        }
    }

    fn set(self, key: &str, value: &[char]) -> (r: Self)
        ensures
            r == self.with_field(key@, value@),
    {
        if str_eq(key, "processor") {
            PartialCpu { processor: parsed(parse_u32(value, 10)), ..self }
        } else if str_eq(key, "vendor_id") {
            PartialCpu {
                vendor: Vendor::from_cpuid_string(string_of(value).as_str()),
                ..self
            }
        } else if str_eq(key, "cpu family") {
            PartialCpu { family: parsed(parse_u32(value, 10)), ..self }
        } else if str_eq(key, "model") {
            PartialCpu { model: parsed(parse_u32(value, 10)), ..self }
        } else if str_eq(key, "stepping") {
            PartialCpu { stepping: parsed(parse_u32(value, 10)), ..self }
        } else if str_eq(key, "microcode") {
            PartialCpu { microcode: parsed(parse_version(value)), ..self }
        } else if str_eq(key, "physical id") {
            PartialCpu { physical_id: parsed(parse_u32(value, 10)), ..self }
        } else if str_eq(key, "core id") {
            PartialCpu { core_id: parsed(parse_u32(value, 10)), ..self }
        } else {
            self
        }
    }
}

/// Parse `/proc/cpuinfo` text.
pub fn parse_cpuinfo(text: &str) -> (r: Result<Vec<CpuInfoCpu>, LinuxError>)
    ensures
        match r {
            Ok(v) => cpuinfo_of(text@) == Ok::<_, LinuxFault>(v@),
            Err(e) => cpuinfo_of(text@) == Err::<Seq<CpuInfoCpu>, _>(e@),
        },
{
    let chars = chars_of(text);
    let all = lines(chars.as_slice());
    let colon = chars_of(":");
    let mut cpus: Vec<CpuInfoCpu> = Vec::new();
    let mut cur = PartialCpu::new();
    let ghost seqs = texts(all@);
    let mut i: usize = 0;
    while i < all.len()
        invariant
            i <= all@.len(),
            seqs == texts(all@),
            colon@ == ":"@,
            after_lines(seqs.take(i as int)) == (cpus@, cur),
        decreases all@.len() - i,
    {
        assert(seqs.take(i + 1).drop_last() =~= seqs.take(i as int));
        assert(seqs.take(i + 1).last() == all@[i as int]@);
        let line = trim_end(all[i].as_slice());
        if line.len() == 0 {
            if let Some(cpu) = cur.finish() {
                cpus.push(cpu);
            }
            cur = PartialCpu::new();
        } else if let Some(at) = find(line, colon.as_slice()) {
            proof {
                reveal_strlit(":");
            }
            let key = vstd::slice::slice_subrange(line, 0, at);
            let value = vstd::slice::slice_subrange(line, at + 1, line.len());
            assert(key@ =~= line@.take(at as int));
            assert(value@ =~= line@.skip(at + 1));
            cur = cur.set(string_of(trim(key)).as_str(), trim(value));
        }
        i = i + 1;
    }
    assert(seqs.take(i as int) =~= seqs);
    if let Some(cpu) = cur.finish() {
        cpus.push(cpu);
    }
    if cpus.len() == 0 {
        return Err(
            LinuxError::Parse {
                what: "cpuinfo",
                reason: "no processor blocks found".to_owned(),
            },
        );
    }
    Ok(cpus)
}

} // verus!
