//! On-disk records of AMD containers.

use vstd::prelude::*;
use crate::amd::error::{AmdError, AmdFault};
use crate::bytes::{
    four_at, le16, le32, lemma_le16_part, lemma_le32_part, two_at, u16_from_le, u32_from_le,
};
use crate::model::cpu::CpuSignature;

verus! {

/// `"DMA\0"` read as a little-endian u32.
pub const UCODE_MAGIC: u32 = 0x0041_4d44;

pub const SECTION_TYPE_EQUIV_TABLE: u32 = 0;

pub const SECTION_TYPE_PATCH: u32 = 1;

pub const CONTAINER_HEADER_SIZE: usize = 12;

pub const SECTION_HEADER_SIZE: usize = 8;

pub const EQUIV_ENTRY_SIZE: usize = 16;

pub const PATCH_HEADER_SIZE: usize = 64;

/// The four bytes `"DMA\0"`.
pub open spec fn magic() -> Seq<u8> {
    seq![0x44u8, 0x4du8, 0x41u8, 0u8]
}

pub const UCODE_MAGIC_BYTES: [u8; 4] = [0x44, 0x4d, 0x41, 0];

/// `struct equiv_cpu_entry` from `arch/x86/kernel/cpu/microcode/amd.c`.
#[derive(Debug, Clone, Copy)]
pub struct RawEquivEntry {
    pub installed_cpu: [u8; 4],
    pub fixed_errata_mask: [u8; 4],
    pub fixed_errata_compare: [u8; 4],
    pub equiv_cpu: [u8; 2],
    pub reserved: [u8; 2],
}

impl RawEquivEntry {
    /// The bytes in the order of the file.
    pub open spec fn bytes(self) -> Seq<u8> {
        self.installed_cpu@ + self.fixed_errata_mask@ + self.fixed_errata_compare@ + self.equiv_cpu@
            + self.reserved@
    }

    /// Copies the record out of the first bytes of a slice.
    pub fn read_from_prefix(bytes: &[u8]) -> (r: Option<Self>)
        ensures
            match r {
                Some(raw) => bytes@.len() >= EQUIV_ENTRY_SIZE && raw.bytes() == bytes@.take(16),
                None => bytes@.len() < EQUIV_ENTRY_SIZE,
            },
    {
        if bytes.len() < EQUIV_ENTRY_SIZE {
            return None;
        }
        let raw = RawEquivEntry {
            installed_cpu: four_at(bytes, 0),
            fixed_errata_mask: four_at(bytes, 4),
            fixed_errata_compare: four_at(bytes, 8),
            equiv_cpu: two_at(bytes, 12),
            reserved: two_at(bytes, 14),
        };
        assert(raw.bytes() =~= bytes@.take(16));
        Some(raw)
    }
}

/// `struct microcode_header_amd`.
#[derive(Debug, Clone, Copy)]
pub struct RawPatchHeader {
    pub data_code: [u8; 4],
    pub patch_id: [u8; 4],
    pub mc_patch_data_id: [u8; 2],
    pub mc_patch_data_len: u8,
    pub init_flag: u8,
    pub mc_patch_data_checksum: [u8; 4],
    pub nb_dev_id: [u8; 4],
    pub sb_dev_id: [u8; 4],
    pub processor_rev_id: [u8; 2],
    pub nb_rev_id: u8,
    pub sb_rev_id: u8,
    pub bios_api_rev: u8,
    pub reserved1: [u8; 3],
    pub match_reg: [[u8; 4]; 8],
}

impl RawPatchHeader {
    /// The bytes in the order of the file.
    pub open spec fn bytes(self) -> Seq<u8> {
        self.data_code@ + self.patch_id@ + self.mc_patch_data_id@ + seq![
            self.mc_patch_data_len,
            self.init_flag,
        ] + self.mc_patch_data_checksum@ + self.nb_dev_id@ + self.sb_dev_id@ + self.processor_rev_id@
            + seq![self.nb_rev_id, self.sb_rev_id, self.bios_api_rev] + self.reserved1@
            + self.match_reg@[0]@ + self.match_reg@[1]@ + self.match_reg@[2]@ + self.match_reg@[3]@
            + self.match_reg@[4]@ + self.match_reg@[5]@ + self.match_reg@[6]@ + self.match_reg@[7]@
    }

    /// Copies the record out of the first bytes of a slice.
    pub fn read_from_prefix(b: &[u8]) -> (r: Option<Self>)
        ensures
            match r {
                Some(raw) => b@.len() >= PATCH_HEADER_SIZE && raw.bytes() == b@.take(64),
                None => b@.len() < PATCH_HEADER_SIZE,
            },
    {
        if b.len() < PATCH_HEADER_SIZE {
            return None;
        }
        let raw = RawPatchHeader {
            data_code: four_at(b, 0),
            patch_id: four_at(b, 4),
            mc_patch_data_id: two_at(b, 8),
            mc_patch_data_len: b[10],
            init_flag: b[11],
            mc_patch_data_checksum: four_at(b, 12),
            nb_dev_id: four_at(b, 16),
            sb_dev_id: four_at(b, 20),
            processor_rev_id: two_at(b, 24),
            nb_rev_id: b[26],
            sb_rev_id: b[27],
            bios_api_rev: b[28],
            reserved1: [b[29], b[30], b[31]],
            match_reg: [
                four_at(b, 32),
                four_at(b, 36),
                four_at(b, 40),
                four_at(b, 44),
                four_at(b, 48),
                four_at(b, 52),
                four_at(b, 56),
                four_at(b, 60),
            ],
        };
        assert(raw.bytes() =~= b@.take(64));
        Some(raw)
    }
}

#[derive(Debug, Clone, Copy, PartialEq, Eq)]
pub struct AmdPatchHeader {
    /// Packed BCD date, same layout as Intel: `0xMMDDYYYY`.
    pub date_raw: u32,
    pub patch_id: u32,
    pub data_id: u16,
    pub data_len: u8,
    pub init_flag: u8,
    pub data_checksum: u32,
    pub nb_dev_id: u32,
    pub sb_dev_id: u32,
    /// Equivalence id; must be present in the container's equivalence table.
    pub processor_rev_id: u16,
    pub nb_rev_id: u8,
    pub sb_rev_id: u8,
    pub bios_api_rev: u8,
    pub reserved: [u8; 3],
    pub match_reg: [u32; 8],
}

/// The contents of an [`AmdPatchHeader`].
#[verifier::ext_equal]
pub struct PatchHeaderModel {
    pub date_raw: u32,
    pub patch_id: u32,
    pub data_id: u16,
    pub data_len: u8,
    pub init_flag: u8,
    pub data_checksum: u32,
    pub nb_dev_id: u32,
    pub sb_dev_id: u32,
    pub processor_rev_id: u16,
    pub nb_rev_id: u8,
    pub sb_rev_id: u8,
    pub bios_api_rev: u8,
    pub reserved: Seq<u8>,
    pub match_reg: Seq<u32>,
}

impl View for AmdPatchHeader {
    type V = PatchHeaderModel;

    open spec fn view(&self) -> PatchHeaderModel {
        PatchHeaderModel {
            date_raw: self.date_raw,
            patch_id: self.patch_id,
            data_id: self.data_id,
            data_len: self.data_len,
            init_flag: self.init_flag,
            data_checksum: self.data_checksum,
            nb_dev_id: self.nb_dev_id,
            sb_dev_id: self.sb_dev_id,
            processor_rev_id: self.processor_rev_id,
            nb_rev_id: self.nb_rev_id,
            sb_rev_id: self.sb_rev_id,
            bios_api_rev: self.bios_api_rev,
            reserved: self.reserved@,
            match_reg: self.match_reg@,
        }
    }
}

impl PatchHeaderModel {
    /// The header at offset `off`.
    pub open spec fn at(b: Seq<u8>, off: int) -> PatchHeaderModel {
        PatchHeaderModel {
            date_raw: le32(b, off),
            patch_id: le32(b, off + 4),
            data_id: le16(b, off + 8),
            data_len: b[off + 10],
            init_flag: b[off + 11],
            data_checksum: le32(b, off + 12),
            nb_dev_id: le32(b, off + 16),
            sb_dev_id: le32(b, off + 20),
            processor_rev_id: le16(b, off + 24),
            nb_rev_id: b[off + 26],
            sb_rev_id: b[off + 27],
            bios_api_rev: b[off + 28],
            reserved: seq![b[off + 29], b[off + 30], b[off + 31]],
            match_reg: Seq::new(8, |i: int| le32(b, off + 32 + 4 * i)),
        }
    }
}

/// The header at an offset is the header of what stands there.
pub proof fn lemma_patch_header_part(b: Seq<u8>, start: int, end: int)
    requires
        0 <= start,
        start + 64 <= end <= b.len(),
    ensures
        PatchHeaderModel::at(b.subrange(start, end), 0) == PatchHeaderModel::at(b, start),
{
    let s = b.subrange(start, end);
    lemma_le32_part(b, start, end);
    lemma_le16_part(b, start, end);
    let x = PatchHeaderModel::at(s, 0);
    let y = PatchHeaderModel::at(b, start);
    assert forall|i: int| 0 <= i < 8 implies #[trigger] x.match_reg[i] == y.match_reg[i] by {
        assert(le32(s, 32 + 4 * i) == le32(b, start + (32 + 4 * i)));
    }
    assert(x.match_reg =~= y.match_reg);
    assert(x.reserved =~= y.reserved);
}

proof fn lemma_raw_patch_header(raw: RawPatchHeader)
    ensures
        PatchHeaderModel::at(raw.bytes(), 0) =~= (PatchHeaderModel {
            date_raw: le32(raw.data_code@, 0),
            patch_id: le32(raw.patch_id@, 0),
            data_id: le16(raw.mc_patch_data_id@, 0),
            data_len: raw.mc_patch_data_len,
            init_flag: raw.init_flag,
            data_checksum: le32(raw.mc_patch_data_checksum@, 0),
            nb_dev_id: le32(raw.nb_dev_id@, 0),
            sb_dev_id: le32(raw.sb_dev_id@, 0),
            processor_rev_id: le16(raw.processor_rev_id@, 0),
            nb_rev_id: raw.nb_rev_id,
            sb_rev_id: raw.sb_rev_id,
            bios_api_rev: raw.bios_api_rev,
            reserved: raw.reserved1@,
            match_reg: Seq::new(8, |i: int| le32(raw.match_reg@[i]@, 0)),
        }),
{
    reveal(le32);
    reveal(le16);
    let x = PatchHeaderModel::at(raw.bytes(), 0);
    assert(x.reserved =~= raw.reserved1@);
    let b = raw.bytes();
    assert(le32(b, 32) == le32(raw.match_reg@[0]@, 0));
    assert(le32(b, 36) == le32(raw.match_reg@[1]@, 0));
    assert(le32(b, 40) == le32(raw.match_reg@[2]@, 0));
    assert(le32(b, 44) == le32(raw.match_reg@[3]@, 0));
    assert(le32(b, 48) == le32(raw.match_reg@[4]@, 0));
    assert(le32(b, 52) == le32(raw.match_reg@[5]@, 0));
    assert(le32(b, 56) == le32(raw.match_reg@[6]@, 0));
    assert(le32(b, 60) == le32(raw.match_reg@[7]@, 0));
    let m = Seq::new(8, |i: int| le32(raw.match_reg@[i]@, 0));
    assert forall|i: int| 0 <= i < 8 implies #[trigger] x.match_reg[i] == m[i] by {
        assert(i == 0 || i == 1 || i == 2 || i == 3 || i == 4 || i == 5 || i == 6 || i == 7);
    }
    assert(x.match_reg =~= m);
}

impl AmdPatchHeader {
    pub fn parse(bytes: &[u8]) -> (r: Result<Self, AmdError>)
        ensures
            match r {
                Ok(h) => bytes@.len() >= PATCH_HEADER_SIZE && h@ == PatchHeaderModel::at(bytes@, 0),
                Err(e) => bytes@.len() < PATCH_HEADER_SIZE && e@ == (AmdFault::Truncated {
                    offset: 0,
                    need: PATCH_HEADER_SIZE as int,
                    have: bytes@.len() as int,
                }),
            },
    {
        match RawPatchHeader::read_from_prefix(bytes) {
            Some(raw) => {
                let h = AmdPatchHeader::from_raw(&raw);
                proof {
                    lemma_patch_header_part(bytes@, 0, 64);
                    assert(bytes@.take(64) =~= bytes@.subrange(0, 64));
                }
                Ok(h)
            },
            None => Err(
                AmdError::Truncated { offset: 0, need: PATCH_HEADER_SIZE, have: bytes.len() },
            ),
        }
    }

    pub fn from_raw(raw: &RawPatchHeader) -> (r: Self)
        ensures
            r@ == PatchHeaderModel::at(raw.bytes(), 0),
    {
        let match_reg: [u32; 8] = [
            u32_from_le(raw.match_reg[0]),
            u32_from_le(raw.match_reg[1]),
            u32_from_le(raw.match_reg[2]),
            u32_from_le(raw.match_reg[3]),
            u32_from_le(raw.match_reg[4]),
            u32_from_le(raw.match_reg[5]),
            u32_from_le(raw.match_reg[6]),
            u32_from_le(raw.match_reg[7]),
        ];
        proof {
            lemma_raw_patch_header(*raw);
            let m = Seq::new(8, |i: int| le32(raw.match_reg@[i]@, 0));
            assert forall|i: int| 0 <= i < 8 implies #[trigger] match_reg@[i] == m[i] by {
                assert(i == 0 || i == 1 || i == 2 || i == 3 || i == 4 || i == 5 || i == 6 || i == 7);
            }
            assert(match_reg@ =~= m);
        }
        AmdPatchHeader {
            date_raw: u32_from_le(raw.data_code),
            patch_id: u32_from_le(raw.patch_id),
            data_id: u16_from_le(raw.mc_patch_data_id),
            data_len: raw.mc_patch_data_len,
            init_flag: raw.init_flag,
            data_checksum: u32_from_le(raw.mc_patch_data_checksum),
            nb_dev_id: u32_from_le(raw.nb_dev_id),
            sb_dev_id: u32_from_le(raw.sb_dev_id),
            processor_rev_id: u16_from_le(raw.processor_rev_id),
            nb_rev_id: raw.nb_rev_id,
            sb_rev_id: raw.sb_rev_id,
            bios_api_rev: raw.bios_api_rev,
            reserved: raw.reserved1,
            match_reg,
        }
    }

    /// AMD encodes the target family in the top byte of the patch id for
    /// modern parts (`0x0aa00215` is for family 0x19). This is a display aid
    /// only; authoritative matching always goes through the equivalence table.
    pub fn implied_family_nibble(&self) -> (r: u8)
        ensures
            r == self.patch_id / 0x100_0000,
    {
        let id = self.patch_id;
        assert((id >> 24) & 0xff == id / 0x100_0000 && (id >> 24) & 0xff <= 0xff) by (bit_vector);
        ((id >> 24) & 0xff) as u8
    }
}

#[derive(Debug, Clone, Copy, PartialEq, Eq, Structural)]
pub struct EquivalenceEntryView {
    pub installed_cpu: CpuSignature,
    pub fixed_errata_mask: u32,
    pub fixed_errata_compare: u32,
    pub equiv_id: u16,
    pub reserved: u16,
}

} // verus!
