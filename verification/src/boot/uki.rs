//! UKI (Unified Kernel Image) inspection via PE/COFF sections.
//!
//! Per UAPI.5, microcode lives in a `.ucode` section. We only *read* it:
//! mutating a signed UKI would break Secure Boot signatures.

use object::{Object, ObjectSection};

use vstd::prelude::*;
use crate::archive::reader::{
    cpio_view, scan_early_cpio, scan_of, CpioModel, EarlyCpioScan, ScanModel,
};
use crate::boot::error::{BootError, BootFault};
use crate::boot::initrd::{are_members, inspect_options, inspection_options, join_members};
use crate::bytes::{bytes_at, get_le16, get_le32, has_bytes_at, le16, le32};
use crate::catalog::collection::{normalised, Catalog, CatalogModel};
use crate::catalog::ingest::{ingest_bytes, ingested};
use crate::catalog::manifest::opt_text;
use crate::digest::{sha256_of, sha256_text};
use crate::model::limits::Limits;
use crate::number::hex_bytes;
use crate::text::{is_joined, path_join, str_eq, strings};

verus! {

#[derive(Debug)]
pub struct UkiSectionInfo {
    pub name: String,
    pub size: u64,
    pub sha256: Option<String>,
}

/// The contents of a [`UkiSectionInfo`].
#[verifier::ext_equal]
pub struct SectionModel {
    pub name: Seq<char>,
    pub size: u64,
    pub sha256: Option<Seq<char>>,
}

impl View for UkiSectionInfo {
    type V = SectionModel;

    open spec fn view(&self) -> SectionModel {
        SectionModel { name: self.name@, size: self.size, sha256: opt_text(self.sha256) }
    }
}

pub open spec fn infos_view(v: Seq<UkiSectionInfo>) -> Seq<SectionModel> {
    v.map_values(|s: UkiSectionInfo| s@)
}

#[derive(Debug)]
pub struct UkiInspection {
    pub path: String,
    pub file_size: u64,
    pub is_pe: bool,
    pub sections: Vec<UkiSectionInfo>,
    pub has_ucode_section: bool,
    pub ucode_size: Option<u64>,
    pub ucode_sha256: Option<String>,
    /// True when the PE has a non-empty certificate table (Authenticode).
    pub has_authenticode: bool,
    pub patch_count: usize,
    pub catalog: Catalog,
    pub findings: Vec<String>,
}

/// The contents of a [`UkiInspection`].
#[verifier::ext_equal]
pub struct UkiModel {
    pub path: Seq<char>,
    pub file_size: u64,
    pub is_pe: bool,
    pub sections: Seq<SectionModel>,
    pub has_ucode_section: bool,
    pub ucode_size: Option<u64>,
    pub ucode_sha256: Option<Seq<char>>,
    pub has_authenticode: bool,
    pub patch_count: nat,
    pub catalog: CatalogModel,
    pub findings: Seq<Seq<char>>,
}

impl View for UkiInspection {
    type V = UkiModel;

    open spec fn view(&self) -> UkiModel {
        UkiModel {
            path: self.path@,
            file_size: self.file_size,
            is_pe: self.is_pe,
            sections: infos_view(self.sections@),
            has_ucode_section: self.has_ucode_section,
            ucode_size: self.ucode_size,
            ucode_sha256: opt_text(self.ucode_sha256),
            has_authenticode: self.has_authenticode,
            patch_count: self.patch_count as nat,
            catalog: self.catalog@,
            findings: strings(self.findings@),
        }
    }
}

// --- the object file ----------------------------------------------------------------

/// A section of an object file: its name where it has a readable one, its
/// size, and its bytes where they can be read.
pub type ObjectPart = (Option<String>, u64, Option<Vec<u8>>);

/// The contents of an [`ObjectPart`].
pub type PartModel = (Option<Seq<char>>, u64, Option<Seq<u8>>);

pub open spec fn part_view(p: ObjectPart) -> PartModel {
    (
        opt_text(p.0),
        p.1,
        match p.2 {
            Some(d) => Some(d@),
            None => None,
        },
    )
}

pub open spec fn parts_view(v: Seq<ObjectPart>) -> Seq<PartModel> {
    v.map_values(|p: ObjectPart| part_view(p))
}

/// The sections of the object file that the bytes are, or the reason for
/// which they are none.
pub uninterp spec fn object_sections(b: Seq<u8>) -> Result<
    Seq<(Option<Seq<char>>, u64, Option<Seq<u8>>)>,
    Seq<char>,
>;

/// `object::File::parse` on the bytes, and of each of its `sections` in order
/// the `name`, the `size` and the `data`; a name or data that `object` reports
/// an error for is none. The contract claims that all of this is determined by
/// the bytes; what the sections of given bytes are is left unsaid.
#[verifier::external_body]
pub(crate) fn read_sections(bytes: &[u8]) -> (r: Result<Vec<ObjectPart>, String>)
    ensures
        match r {
            Ok(v) => object_sections(bytes@) == Ok::<_, Seq<char>>(parts_view(v@)),
            Err(e) => object_sections(bytes@) == Err::<Seq<PartModel>, _>(e@),
        },
{
    let file = object::File::parse(bytes).map_err(|e| e.to_string())?;
    Ok(
        file.sections().map(
            |s|
                (
                    s.name().ok().map(|n| n.to_owned()),
                    s.size(),
                    s.data().ok().map(|d| d.to_vec()),
                ),
        ).collect(),
    )
}

// --- what is found ------------------------------------------------------------------

/// The certificate table of a PE image has an address and a size.
pub open spec fn certificate_table(b: Seq<u8>) -> bool {
    let pe = le32(b, 0x3c) as int;
    let opt = pe + 24;
    let kind = le16(b, opt);
    let table = opt + if kind == 0x10b {
        96int
    } else {
        112int
    } + 32;
    &&& b.len() >= 0x40
    &&& b.len() >= opt
    &&& has_bytes_at(b, pe, seq![0x50u8, 0x45u8, 0u8, 0u8])
    &&& b.len() >= opt + 2
    &&& kind == 0x10b || kind == 0x20b
    &&& b.len() >= table + 8
    &&& le32(b, table) != 0
    &&& le32(b, table + 4) != 0
}

pub open spec fn part_name(p: PartModel) -> Seq<char> {
    match p.0 {
        Some(n) => n,
        None => "<unnamed>"@,
    }
}

pub open spec fn digest_text(data: Option<Seq<u8>>) -> Option<Seq<char>> {
    match data {
        Some(d) => Some(hex_bytes(sha256_of(d))),
        None => None,
    }
}

/// The bytes of the last section named `.ucode` that has some.
pub open spec fn ucode_of(parts: Seq<PartModel>) -> Option<Seq<u8>>
    decreases parts.len(),
{
    if parts.len() == 0 {
        None
    } else if part_name(parts.last()) == ".ucode"@ && parts.last().2 is Some {
        parts.last().2
    } else {
        ucode_of(parts.drop_last())
    }
}

/// The catalog after taking in every member of an archive under its path;
/// members that are no microcode are passed over.
pub open spec fn members_ingested(
    entries: Seq<CpioModel>,
    b: Seq<u8>,
    paths: Seq<Seq<char>>,
    limits: Limits,
) -> CatalogModel
    decreases entries.len(),
{
    if entries.len() == 0 {
        CatalogModel::empty()
    } else {
        let front = members_ingested(entries.drop_last(), b, paths, limits);
        let e = entries.last();
        match e.content(b) {
            None => front,
            Some(data) => match ingested(
                front,
                paths[entries.len() - 1],
                data,
                inspect_options(limits),
            ) {
                Ok(c) => c,
                Err(_) => front,
            },
        }
    }
}

/// The archives that a `.ucode` section starts with, if it is readable as such.
pub open spec fn section_scan(parts: Seq<PartModel>, limits: Limits) -> Option<ScanModel> {
    match ucode_of(parts) {
        Some(d) => match scan_of(d, limits) {
            Ok(scan) => scan,
            Err(_) => None,
        },
        None => None,
    }
}

/// The patches of a `.ucode` section: those of the archives that it is, whose
/// members are recorded under `paths`, or else of the blob that it is, which is
/// recorded under `whole`.
pub open spec fn ucode_catalog(
    ucode: Seq<u8>,
    scan: Option<ScanModel>,
    paths: Seq<Seq<char>>,
    whole: Seq<char>,
    limits: Limits,
) -> Result<CatalogModel, BootFault> {
    match scan {
        Some(scan) => Ok(normalised(members_ingested(scan.entries, ucode, paths, limits))),
        None => match ingested(CatalogModel::empty(), whole, ucode, inspect_options(limits)) {
            Ok(c) => Ok(normalised(c)),
            Err(e) => Err(BootFault::Catalog(e)),
        },
    }
}

/// The paths are those of the members of a section below `base`, and of the
/// section itself, on some system.
pub open spec fn are_section_paths(
    paths: Seq<Seq<char>>,
    whole: Seq<char>,
    base: Seq<char>,
    scan: Option<ScanModel>,
) -> bool {
    &&& scan matches Some(s) ==> are_members(paths, base, s.entries)
    &&& is_joined(whole, base, ".ucode"@)
}

/// What is reported of an image with the given sections.
pub open spec fn uki_of(
    parts: Seq<PartModel>,
    scan: Option<ScanModel>,
    b: Seq<u8>,
    path: Seq<char>,
    paths: Seq<Seq<char>>,
    whole: Seq<char>,
    limits: Limits,
) -> UkiModel {
    let ucode = ucode_of(parts);
    let (catalog, findings) = match ucode {
        None => (CatalogModel::empty(), seq!["no .ucode section present"@]),
        Some(d) => match ucode_catalog(d, scan, paths, whole, limits) {
            Ok(c) => (c, Seq::empty()),
            Err(e) => (CatalogModel::empty(), seq![".ucode parse: "@ + e.error_text()]),
        },
    };
    UkiModel {
        path,
        file_size: b.len() as u64,
        is_pe: true,
        sections: parts.map_values(
            |p: PartModel| SectionModel { name: part_name(p), size: p.1, sha256: digest_text(p.2) },
        ),
        has_ucode_section: ucode is Some,
        ucode_size: match ucode {
            Some(d) => Some(d.len() as u64),
            None => None,
        },
        ucode_sha256: digest_text(ucode),
        has_authenticode: certificate_table(b),
        patch_count: catalog.patches.len(),
        catalog,
        findings,
    }
}

// --- inspecting ---------------------------------------------------------------------

/// Minimal PE data-directory probe for the certificate table without depending
/// on full PE write support.
pub fn pe_has_certificate_table(bytes: &[u8]) -> (r: bool)
    ensures
        r == certificate_table(bytes@),
{
    let n: usize = bytes.len();
    // DOS header e_lfanew at 0x3c.
    if n < 0x40 {
        return false;
    }
    let e_lfanew = get_le32(bytes, 0x3c);
    // PE signature + COFF header (20) + optional header start.
    if (n as u64) < e_lfanew as u64 + 24 {
        return false;
    }
    let pe: usize = e_lfanew as usize;
    let signature = [0x50u8, 0x45u8, 0u8, 0u8];
    assert(signature@ =~= seq![0x50u8, 0x45u8, 0u8, 0u8]);
    if !bytes_at(bytes, pe, signature.as_slice()) {
        return false;
    }
    let opt_off: usize = pe + 24;
    if n - opt_off < 2 {
        return false;
    }
    let kind = get_le16(bytes, opt_off);
    // Data directories start after the standard optional header fields.
    // PE32: magic 0x10b, data dirs at +96; PE32+: magic 0x20b, at +112.
    let skip: usize = if kind == 0x10b {
        96
    } else if kind == 0x20b {
        112
    } else {
        return false;
    };
    // Certificate table is data directory index 4, 8 bytes each.
    if n - opt_off < skip + 32 + 8 {
        return false;
    }
    let cert_off: usize = opt_off + skip + 32;
    let rva = get_le32(bytes, cert_off);
    let size = get_le32(bytes, cert_off + 4);
    rva != 0 && size != 0
}

/// The contents of the scan, if there is one.
pub open spec fn opt_scan(scan: Option<EarlyCpioScan>) -> Option<ScanModel> {
    match scan {
        Some(s) => Some(s@),
        None => None,
    }
}

fn parse_ucode_payload(
    ucode: &[u8],
    scan: &Option<EarlyCpioScan>,
    paths: &Vec<String>,
    whole: &str,
    limits: &Limits,
) -> (r: Result<Catalog, BootError>)
    requires
        scan matches Some(s) ==> paths@.len() == s@.entries.len(),
    ensures
        match r {
            Ok(c) => ucode_catalog(ucode@, opt_scan(*scan), strings(paths@), whole@, *limits) == Ok::<
                _,
                BootFault,
            >(c@),
            Err(e) => ucode_catalog(ucode@, opt_scan(*scan), strings(paths@), whole@, *limits) == Err::<
                CatalogModel,
                _,
            >(e@),
        },
{
    let opts = inspection_options(limits);
    let mut catalog = Catalog::default();
    // Prefer early CPIO layout.
    if let Some(scan) = scan {
        let ghost entries = scan@.entries;
        let mut i: usize = 0;
        while i < scan.entries.len()
            invariant
                i <= scan.entries@.len(),
                paths@.len() == entries.len(),
                entries == cpio_view(scan.entries@),
                opts == inspect_options(*limits),
                catalog@ == members_ingested(entries.take(i as int), ucode@, strings(paths@), *limits),
            decreases scan.entries@.len() - i,
        {
            let entry = &scan.entries[i];
            assert(entries.take(i + 1).drop_last() =~= entries.take(i as int));
            assert(entries.take(i + 1).last() == entry@);
            assert(strings(paths@)[i as int] == paths@[i as int]@);
            if let Some(data) = entry.data(ucode) {
                let _ = ingest_bytes(&mut catalog, paths[i].as_str(), data, &opts);
            }
            i = i + 1;
        }
        assert(entries.take(i as int) =~= entries);
        catalog.normalise();
        return Ok(catalog);
    }
    // Fall back to treating the whole section as a microcode blob.
    match ingest_bytes(&mut catalog, whole, ucode, &opts) {
        Ok(_) => {},
        Err(e) => {
            return Err(BootError::Catalog(e));
        },
    }
    catalog.normalise();
    Ok(catalog)
}

/// The archives that the `.ucode` section starts with, if it is there and is
/// readable as such.
pub fn scan_section(parts: &Vec<ObjectPart>, limits: &Limits) -> (r: Option<EarlyCpioScan>)
    ensures
        opt_scan(r) == section_scan(parts_view(parts@), *limits),
{
    let ghost all = parts_view(parts@);
    let mut n: usize = parts.len();
    assert(all.take(n as int) =~= all);
    while n > 0
        invariant
            n <= parts@.len(),
            all == parts_view(parts@),
            ucode_of(all) == ucode_of(all.take(n as int)),
        decreases n,
    {
        let part = &parts[n - 1];
        assert(all.take(n as int).last() == part_view(*part));
        assert(all.take(n as int).drop_last() =~= all.take(n - 1));
        if let (Some(name), Some(d)) = (&part.0, &part.2) {
            if str_eq(name.as_str(), ".ucode") {
                return match scan_early_cpio(d.as_slice(), limits) {
                    Ok(scan) => scan,
                    Err(_) => None,
                };
            }
        }
        proof {
            reveal_strlit("<unnamed>");
            reveal_strlit(".ucode");
            assert("<unnamed>"@[0] != ".ucode"@[0]);
        }
        n = n - 1;
    }
    None
}

/// What is reported of an image whose sections and the archives in them are
/// known, when the members are recorded under `paths` and the section itself
/// under `whole`.
pub fn inspect_sections(
    parts: &Vec<ObjectPart>,
    scan: &Option<EarlyCpioScan>,
    bytes: &[u8],
    display_path: &str,
    paths: &Vec<String>,
    whole: &str,
    limits: &Limits,
) -> (r: UkiInspection)
    requires
        scan matches Some(s) ==> paths@.len() == s@.entries.len(),
    ensures
        r@ == uki_of(
            parts_view(parts@),
            opt_scan(*scan),
            bytes@,
            display_path@,
            strings(paths@),
            whole@,
            *limits,
        ),
{
    let ghost all = parts_view(parts@);
    let mut sections: Vec<UkiSectionInfo> = Vec::new();
    let mut ucode: Option<&Vec<u8>> = None;
    let mut i: usize = 0;
    while i < parts.len()
        invariant
            i <= parts@.len(),
            all == parts_view(parts@),
            sections@.len() == i,
            forall|k: int|
                0 <= k < i ==> (#[trigger] sections@[k])@ == (SectionModel {
                    name: part_name(all[k]),
                    size: all[k].1,
                    sha256: digest_text(all[k].2),
                }),
            match ucode {
                Some(d) => ucode_of(all.take(i as int)) == Some(d@),
                None => ucode_of(all.take(i as int)) is None,
            },
        decreases parts@.len() - i,
    {
        let part = &parts[i];
        assert(all.take(i + 1).drop_last() =~= all.take(i as int));
        assert(all.take(i + 1).last() == part_view(*part));
        let name = match &part.0 {
            Some(n) => n.clone(),
            None => "<unnamed>".to_owned(),
        };
        let sha256 = match &part.2 {
            Some(d) => Some(sha256_text(d.as_slice())),
            None => None,
        };
        if str_eq(name.as_str(), ".ucode") {
            if let Some(d) = &part.2 {
                ucode = Some(d);
            }
        }
        sections.push(UkiSectionInfo { name, size: part.1, sha256 });
        i = i + 1;
    }
    assert(all.take(i as int) =~= all);
    // Certificate directory presence (data directory index 4).
    let has_authenticode = pe_has_certificate_table(bytes);
    let mut findings: Vec<String> = Vec::new();
    let mut catalog = Catalog::default();
    assert(strings(findings@) =~= Seq::empty());
    match ucode {
        Some(d) => {
            // `.ucode` content is itself an early CPIO (or raw concatenated blobs).
            match parse_ucode_payload(d.as_slice(), scan, paths, whole, limits) {
                Ok(c) => {
                    catalog = c;
                },
                Err(e) => {
                    let mut m = ".ucode parse: ".to_owned();
                    m.append(e.to_string().as_str());
                    findings.push(m);
                    assert(strings(findings@) =~= seq![m@]);
                },
            }
        },
        None => {
            let m = "no .ucode section present".to_owned();
            findings.push(m);
            assert(strings(findings@) =~= seq![m@]);
        },
    }
    let ucode_size = match ucode {
        Some(d) => Some(d.len() as u64),
        None => None,
    };
    let ucode_sha256 = match ucode {
        Some(d) => Some(sha256_text(d.as_slice())),
        None => None,
    };
    let patch_count = catalog.len();
    let r = UkiInspection {
        path: display_path.to_owned(),
        file_size: bytes.len() as u64,
        is_pe: true,
        has_ucode_section: ucode.is_some(),
        ucode_size,
        ucode_sha256,
        has_authenticode,
        sections,
        patch_count,
        catalog,
        findings,
    };
    assert(r@.sections =~= uki_of(
        all,
        opt_scan(*scan),
        bytes@,
        display_path@,
        strings(paths@),
        whole@,
        *limits,
    ).sections);
    r
}

/// Inspect a UKI (or any PE) for a `.ucode` section. What is found is recorded
/// under the path of the image with the name of the member, or of the section,
/// behind it, joined as the system joins paths.
pub fn inspect_uki_bytes(bytes: &[u8], display_path: &str, limits: &Limits) -> (r: Result<
    UkiInspection,
    BootError,
>)
    ensures
        match r {
            Ok(i) => object_sections(bytes@) matches Ok(parts) && exists|
                paths: Seq<Seq<char>>,
                whole: Seq<char>,
            |
                are_section_paths(paths, whole, display_path@, section_scan(parts, *limits)) && i@
                    == #[trigger] uki_of(
                    parts,
                    section_scan(parts, *limits),
                    bytes@,
                    display_path@,
                    paths,
                    whole,
                    *limits,
                ),
            Err(e) => object_sections(bytes@) matches Err(text) && e@ == BootFault::Pe(text),
        },
{
    match read_sections(bytes) {
        Ok(parts) => {
            let scan = scan_section(&parts, limits);
            let paths = match &scan {
                Some(s) => join_members(display_path, &s.entries),
                None => Vec::new(),
            };
            let whole = path_join(display_path, ".ucode");
            assert(is_joined(whole@, display_path@, ".ucode"@));
            Ok(
                inspect_sections(&parts, &scan, bytes, display_path, &paths, whole.as_str(), limits),
            )
        },
        Err(e) => Err(BootError::Pe(e)),
    }
}

} // verus!
