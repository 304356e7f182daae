//! The header of an Intel microcode update and its extended signature table.

use vstd::prelude::*;
use crate::bytes::{
    four_at, get_le32, law_le32_round_trip, le32, le32_bytes, lemma_le32_part, u32_from_le, u32_to_le,
};
use crate::intel::error::{IntelError, IntelFault};
use crate::model::cpu::{CpuSignature, PlatformMask};

verus! {

pub const HEADER_SIZE: usize = 48;

pub const EXTENDED_TABLE_HEADER_SIZE: usize = 20;

pub const EXTENDED_SIGNATURE_SIZE: usize = 12;

/// Smallest object that could hold a production microcode update.
pub const MIN_UPDATE_SIZE: usize = 1024;

pub const DEFAULT_DATA_SIZE: u32 = 2000;

pub const DEFAULT_TOTAL_SIZE: u32 = 2048;

pub const HEADER_TYPE_MICROCODE: u32 = 1;

pub const HEADER_TYPE_IFS: u32 = 2;

pub const LOADER_REVISION: u32 = 1;

/// Raw on-disk Intel microcode header: twelve little-endian dwords. Use
/// [`IntelHeader`] for anything but serialisation.
#[derive(Debug, Clone, Copy)]
pub struct RawHeader {
    pub hdrver: [u8; 4],
    pub rev: [u8; 4],
    pub date: [u8; 4],
    pub sig: [u8; 4],
    pub cksum: [u8; 4],
    pub ldrver: [u8; 4],
    pub pf: [u8; 4],
    pub datasize: [u8; 4],
    pub totalsize: [u8; 4],
    pub metasize: [u8; 4],
    pub min_req_ver: [u8; 4],
    pub reserved: [u8; 4],
}

impl RawHeader {
    /// The bytes in the order of the file.
    pub open spec fn bytes(self) -> Seq<u8> {
        self.hdrver@ + self.rev@ + self.date@ + self.sig@ + self.cksum@ + self.ldrver@ + self.pf@
            + self.datasize@ + self.totalsize@ + self.metasize@ + self.min_req_ver@ + self.reserved@
    }

    /// Copies the header out of the first bytes of a slice.
    pub fn read_from_prefix(bytes: &[u8]) -> (r: Option<Self>)
        ensures
            match r {
                Some(raw) => bytes@.len() >= HEADER_SIZE && raw.bytes() == bytes@.take(48),
                None => bytes@.len() < HEADER_SIZE,
            },
    {
        if bytes.len() < HEADER_SIZE {
            return None;
        }
        let raw = RawHeader {
            hdrver: four_at(bytes, 0),
            rev: four_at(bytes, 4),
            date: four_at(bytes, 8),
            sig: four_at(bytes, 12),
            cksum: four_at(bytes, 16),
            ldrver: four_at(bytes, 20),
            pf: four_at(bytes, 24),
            datasize: four_at(bytes, 28),
            totalsize: four_at(bytes, 32),
            metasize: four_at(bytes, 36),
            min_req_ver: four_at(bytes, 40),
            reserved: four_at(bytes, 44),
        };
        assert(raw.bytes() =~= bytes@.take(48));
        Some(raw)
    }
}

/// Decoded, bounds-checked view of an Intel microcode header.
#[derive(Debug, Clone, Copy, PartialEq, Eq, Structural)]
pub struct IntelHeader {
    pub header_type: u32,
    pub revision: u32,
    pub date_raw: u32,
    pub signature: CpuSignature,
    pub checksum: u32,
    pub loader_revision: u32,
    pub platform_mask: PlatformMask,
    /// Declared value, i.e. before the "0 means default" substitution.
    pub declared_data_size: u32,
    pub declared_total_size: u32,
    pub metadata_size: u32,
    /// Intel "Minimum Runtime Update Revision"; 0 means unspecified.
    pub min_required_revision: u32,
    pub reserved: u32,
}

impl IntelHeader {
    /// The header at offset `off`.
    pub open spec fn at(b: Seq<u8>, off: int) -> IntelHeader {
        IntelHeader {
            header_type: le32(b, off),
            revision: le32(b, off + 4),
            date_raw: le32(b, off + 8),
            signature: CpuSignature(le32(b, off + 12)),
            checksum: le32(b, off + 16),
            loader_revision: le32(b, off + 20),
            platform_mask: PlatformMask(le32(b, off + 24)),
            declared_data_size: le32(b, off + 28),
            declared_total_size: le32(b, off + 32),
            metadata_size: le32(b, off + 36),
            min_required_revision: le32(b, off + 40),
            reserved: le32(b, off + 44),
        }
    }

    /// The header in the order of the file.
    pub open spec fn encode(self) -> Seq<u8> {
        le32_bytes(self.header_type) + le32_bytes(self.revision) + le32_bytes(self.date_raw)
            + le32_bytes(self.signature.0) + le32_bytes(self.checksum) + le32_bytes(
            self.loader_revision,
        ) + le32_bytes(self.platform_mask.0) + le32_bytes(self.declared_data_size) + le32_bytes(
            self.declared_total_size,
        ) + le32_bytes(self.metadata_size) + le32_bytes(self.min_required_revision) + le32_bytes(
            self.reserved,
        )
    }

    /// Payload size; zero stands for the default.
    pub open spec fn data(self) -> u32 {
        if self.declared_data_size == 0 {
            DEFAULT_DATA_SIZE
        } else {
            self.declared_data_size
        }
    }

    /// Size of the whole update; zero stands for the default.
    pub open spec fn total(self) -> u32 {
        if self.declared_total_size == 0 {
            DEFAULT_TOTAL_SIZE
        } else {
            self.declared_total_size
        }
    }

    /// Where the extended signature table starts, if its header fits.
    pub open spec fn table_offset(self) -> Option<u32> {
        if HEADER_SIZE + self.data() + EXTENDED_TABLE_HEADER_SIZE <= self.total() {
            Some((HEADER_SIZE + self.data()) as u32)
        } else {
            None
        }
    }

    pub fn parse(bytes: &[u8]) -> (r: Result<Self, IntelError>)
        ensures
            match r {
                Ok(h) => bytes@.len() >= HEADER_SIZE && h == IntelHeader::at(bytes@, 0),
                Err(e) => bytes@.len() < HEADER_SIZE && e@ == (IntelFault::Truncated {
                    offset: 0,
                    need: HEADER_SIZE as int,
                    have: bytes@.len() as int,
                }),
            },
    {
        match RawHeader::read_from_prefix(bytes) {
            Some(raw) => {
                let h = IntelHeader::from_raw(&raw);
                proof {
                    lemma_header_prefix(bytes@);
                }
                Ok(h)
            },
            None => Err(
                IntelError::Truncated { offset: 0, need: HEADER_SIZE, have: bytes.len() },
            ),
        }
    }

    pub fn from_raw(raw: &RawHeader) -> (r: Self)
        ensures
            r == IntelHeader::at(raw.bytes(), 0),
    {
        proof {
            lemma_raw_fields(*raw);
        }
        IntelHeader {
            header_type: u32_from_le(raw.hdrver),
            revision: u32_from_le(raw.rev),
            date_raw: u32_from_le(raw.date),
            signature: CpuSignature(u32_from_le(raw.sig)),
            checksum: u32_from_le(raw.cksum),
            loader_revision: u32_from_le(raw.ldrver),
            platform_mask: PlatformMask(u32_from_le(raw.pf)),
            declared_data_size: u32_from_le(raw.datasize),
            declared_total_size: u32_from_le(raw.totalsize),
            metadata_size: u32_from_le(raw.metasize),
            min_required_revision: u32_from_le(raw.min_req_ver),
            reserved: u32_from_le(raw.reserved),
        }
    }

    pub fn to_raw(self) -> (r: RawHeader)
        ensures
            r.bytes() == self.encode(),
    {
        RawHeader {
            hdrver: u32_to_le(self.header_type),
            rev: u32_to_le(self.revision),
            date: u32_to_le(self.date_raw),
            sig: u32_to_le(self.signature.0),
            cksum: u32_to_le(self.checksum),
            ldrver: u32_to_le(self.loader_revision),
            pf: u32_to_le(self.platform_mask.0),
            datasize: u32_to_le(self.declared_data_size),
            totalsize: u32_to_le(self.declared_total_size),
            metasize: u32_to_le(self.metadata_size),
            min_req_ver: u32_to_le(self.min_required_revision),
            reserved: u32_to_le(self.reserved),
        }
    }

    /// Effective payload size, applying the documented default.
    pub fn data_size(&self) -> (r: u32)
        ensures
            r == self.data(),
    {
        if self.declared_data_size == 0 {
            DEFAULT_DATA_SIZE
        } else {
            self.declared_data_size
        }
    }

    /// Effective total size, applying the documented default.
    pub fn total_size(&self) -> (r: u32)
        ensures
            r == self.total(),
    {
        if self.declared_total_size == 0 {
            DEFAULT_TOTAL_SIZE
        } else {
            self.declared_total_size
        }
    }

    /// Byte offset of the extended signature table, if the sizes leave room
    /// for one.
    pub fn extended_table_offset(&self) -> (r: Option<u32>)
        ensures
            r == self.table_offset(),
    {
        let end_of_data = match (HEADER_SIZE as u32).checked_add(self.data_size()) {
            Some(end) => end,
            None => {
                return None;
            },
        };
        let total = self.total_size();
        if total > end_of_data && total - end_of_data >= EXTENDED_TABLE_HEADER_SIZE as u32 {
            Some(end_of_data)
        } else {
            None
        }
    }

    pub fn is_microcode(&self) -> (r: bool)
        ensures
            r == (self.header_type == HEADER_TYPE_MICROCODE),
    {
        self.header_type == HEADER_TYPE_MICROCODE
    }

    pub fn is_ifs_image(&self) -> (r: bool)
        ensures
            r == (self.header_type == HEADER_TYPE_IFS),
    {
        self.header_type == HEADER_TYPE_IFS
    }
}

/// The header of a slice is the header of its first bytes.
proof fn lemma_header_prefix(b: Seq<u8>)
    requires
        b.len() >= 48,
    ensures
        IntelHeader::at(b.take(48), 0) == IntelHeader::at(b, 0),
{
    lemma_le32_part(b, 0, 48);
}

/// The header at an offset is the header of what stands there.
pub proof fn lemma_header_skip(b: Seq<u8>, off: int, end: int)
    requires
        0 <= off,
        off + 48 <= end <= b.len(),
    ensures
        IntelHeader::at(b.subrange(off, end), 0) == IntelHeader::at(b, off),
{
    lemma_le32_part(b, off, end);
}

proof fn lemma_raw_fields(raw: RawHeader)
    ensures
        IntelHeader::at(raw.bytes(), 0) == (IntelHeader {
            header_type: le32(raw.hdrver@, 0),
            revision: le32(raw.rev@, 0),
            date_raw: le32(raw.date@, 0),
            signature: CpuSignature(le32(raw.sig@, 0)),
            checksum: le32(raw.cksum@, 0),
            loader_revision: le32(raw.ldrver@, 0),
            platform_mask: PlatformMask(le32(raw.pf@, 0)),
            declared_data_size: le32(raw.datasize@, 0),
            declared_total_size: le32(raw.totalsize@, 0),
            metadata_size: le32(raw.metasize@, 0),
            min_required_revision: le32(raw.min_req_ver@, 0),
            reserved: le32(raw.reserved@, 0),
        }),
{
    reveal(le32);
}

/// A header reads back from its encoding, whatever follows it.
pub proof fn law_header_round_trip(h: IntelHeader, rest: Seq<u8>)
    ensures
        h.encode().len() == HEADER_SIZE,
        IntelHeader::at(h.encode() + rest, 0) == h,
{
    let b = h.encode() + rest;
    assert(b.subrange(0, 4) =~= le32_bytes(h.header_type));
    assert(b.subrange(4, 8) =~= le32_bytes(h.revision));
    assert(b.subrange(8, 12) =~= le32_bytes(h.date_raw));
    assert(b.subrange(12, 16) =~= le32_bytes(h.signature.0));
    assert(b.subrange(16, 20) =~= le32_bytes(h.checksum));
    assert(b.subrange(20, 24) =~= le32_bytes(h.loader_revision));
    assert(b.subrange(24, 28) =~= le32_bytes(h.platform_mask.0));
    assert(b.subrange(28, 32) =~= le32_bytes(h.declared_data_size));
    assert(b.subrange(32, 36) =~= le32_bytes(h.declared_total_size));
    assert(b.subrange(36, 40) =~= le32_bytes(h.metadata_size));
    assert(b.subrange(40, 44) =~= le32_bytes(h.min_required_revision));
    assert(b.subrange(44, 48) =~= le32_bytes(h.reserved));
    law_le32_round_trip(h.header_type, b, 0);
    law_le32_round_trip(h.revision, b, 4);
    law_le32_round_trip(h.date_raw, b, 8);
    law_le32_round_trip(h.signature.0, b, 12);
    law_le32_round_trip(h.checksum, b, 16);
    law_le32_round_trip(h.loader_revision, b, 20);
    law_le32_round_trip(h.platform_mask.0, b, 24);
    law_le32_round_trip(h.declared_data_size, b, 28);
    law_le32_round_trip(h.declared_total_size, b, 32);
    law_le32_round_trip(h.metadata_size, b, 36);
    law_le32_round_trip(h.min_required_revision, b, 40);
    law_le32_round_trip(h.reserved, b, 44);
}

/// One raw `(sig, pf, cksum)` triple from the extended signature table.
#[derive(Debug, Clone, Copy)]
pub struct RawExtendedSignature {
    pub sig: [u8; 4],
    pub pf: [u8; 4],
    pub cksum: [u8; 4],
}

impl RawExtendedSignature {
    /// The bytes in the order of the file.
    pub open spec fn bytes(self) -> Seq<u8> {
        self.sig@ + self.pf@ + self.cksum@
    }

    /// Copies the triple out of the first bytes of a slice.
    pub fn read_from_prefix(bytes: &[u8]) -> (r: Option<Self>)
        ensures
            match r {
                Some(raw) => bytes@.len() >= EXTENDED_SIGNATURE_SIZE && raw.bytes() == bytes@.take(12),
                None => bytes@.len() < EXTENDED_SIGNATURE_SIZE,
            },
    {
        if bytes.len() < EXTENDED_SIGNATURE_SIZE {
            return None;
        }
        let raw = RawExtendedSignature {
            sig: four_at(bytes, 0),
            pf: four_at(bytes, 4),
            cksum: four_at(bytes, 8),
        };
        assert(raw.bytes() =~= bytes@.take(12));
        Some(raw)
    }
}

/// One decoded `(sig, pf, cksum)` triple.
#[derive(Debug, Clone, Copy, PartialEq, Eq, Structural)]
pub struct IntelExtendedSignature {
    pub signature: CpuSignature,
    pub platform_mask: PlatformMask,
    pub checksum: u32,
}

impl IntelExtendedSignature {
    /// The triple at offset `off`.
    pub open spec fn at(b: Seq<u8>, off: int) -> IntelExtendedSignature {
        IntelExtendedSignature {
            signature: CpuSignature(le32(b, off)),
            platform_mask: PlatformMask(le32(b, off + 4)),
            checksum: le32(b, off + 8),
        }
    }

    /// The triple in the order of the file.
    pub open spec fn encode(self) -> Seq<u8> {
        le32_bytes(self.signature.0) + le32_bytes(self.platform_mask.0) + le32_bytes(self.checksum)
    }

    pub fn from_raw(raw: &RawExtendedSignature) -> (r: Self)
        ensures
            r == IntelExtendedSignature::at(raw.bytes(), 0),
    {
        proof {
            reveal(le32);
        }
        IntelExtendedSignature {
            signature: CpuSignature(u32_from_le(raw.sig)),
            platform_mask: PlatformMask(u32_from_le(raw.pf)),
            checksum: u32_from_le(raw.cksum),
        }
    }

    pub fn to_raw(self) -> (r: RawExtendedSignature)
        ensures
            r.bytes() == self.encode(),
    {
        RawExtendedSignature {
            sig: u32_to_le(self.signature.0),
            pf: u32_to_le(self.platform_mask.0),
            cksum: u32_to_le(self.checksum),
        }
    }
}

/// An extended signature reads back from its encoding.
pub proof fn law_extended_signature_round_trip(e: IntelExtendedSignature)
    ensures
        e.encode().len() == EXTENDED_SIGNATURE_SIZE,
        IntelExtendedSignature::at(e.encode(), 0) == e,
{
    let b = e.encode();
    assert(b.subrange(0, 4) =~= le32_bytes(e.signature.0));
    assert(b.subrange(4, 8) =~= le32_bytes(e.platform_mask.0));
    assert(b.subrange(8, 12) =~= le32_bytes(e.checksum));
    law_le32_round_trip(e.signature.0, b, 0);
    law_le32_round_trip(e.platform_mask.0, b, 4);
    law_le32_round_trip(e.checksum, b, 8);
}

/// Header of the extended signature table: `count`, `checksum`, 12 reserved.
#[derive(Debug, Clone, Copy)]
pub struct RawExtendedTableHeader {
    pub count: [u8; 4],
    pub checksum: [u8; 4],
    pub reserved: [u8; 12],
}

impl RawExtendedTableHeader {
    /// The bytes in the order of the file.
    pub open spec fn bytes(self) -> Seq<u8> {
        self.count@ + self.checksum@ + self.reserved@
    }

    /// Copies the header out of the first bytes of a slice.
    pub fn read_from_prefix(b: &[u8]) -> (r: Option<Self>)
        ensures
            match r {
                Some(raw) => b@.len() >= EXTENDED_TABLE_HEADER_SIZE && raw.bytes() == b@.take(20),
                None => b@.len() < EXTENDED_TABLE_HEADER_SIZE,
            },
    {
        if b.len() < EXTENDED_TABLE_HEADER_SIZE {
            return None;
        }
        let raw = RawExtendedTableHeader {
            count: four_at(b, 0),
            checksum: four_at(b, 4),
            reserved: [b[8], b[9], b[10], b[11], b[12], b[13], b[14], b[15], b[16], b[17], b[18], b[19]],
        };
        assert(raw.bytes() =~= b@.take(20));
        Some(raw)
    }

    /// The number of signatures that the table declares.
    pub fn declared_count(&self) -> (r: u32)
        ensures
            r == le32(self.bytes(), 0),
    {
        proof {
            reveal(le32);
        }
        u32_from_le(self.count)
    }
}

/// The sum of the first `n` dwords.
pub open spec fn dword_total(b: Seq<u8>, n: nat) -> nat
    decreases n,
{
    if n == 0 {
        0
    } else {
        dword_total(b, (n - 1) as nat) + le32(b, 4 * (n - 1)) as nat
    }
}

/// The sum of all whole dwords, modulo the range of a dword.
pub open spec fn dword_sum_of(b: Seq<u8>) -> u32 {
    (dword_total(b, b.len() / 4) % 0x1_0000_0000) as u32
}

/// Wrapping dword sum, the primitive behind every Intel checksum.
pub fn dword_sum(bytes: &[u8]) -> (r: u32)
    ensures
        r == dword_sum_of(bytes@),
{
    let len: usize = bytes.len();
    let n: usize = len / 4;
    let mut sum: u32 = 0;
    let mut i: usize = 0;
    while i < n
        invariant
            len == bytes@.len(),
            n == len / 4,
            i <= n,
            sum == dword_total(bytes@, i as nat) % 0x1_0000_0000,
        decreases n - i,
    {
        let v = get_le32(bytes, 4 * i);
        sum = sum.wrapping_add(v);
        i = i + 1;
    }
    sum
}

} // verus!
