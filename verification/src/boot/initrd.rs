//! Inspecting initrd images for early microcode.

use vstd::prelude::*;
use crate::archive::format::MODE_FILE;
use crate::archive::reader::{
    cpio_view, scan_early_cpio, scan_of, CpioEntry, CpioModel, EarlyCpioScan, ScanModel,
};
use crate::boot::error::{BootError, BootFault};
use crate::catalog::collection::{normalised, Catalog, CatalogModel};
use crate::catalog::ingest::{ingest_bytes, ingested, IngestOptions};
use crate::digest::{sha256_of, sha256_text};
use crate::intel::validate::IntelValidationMode;
use crate::model::cpu::Vendor;
use crate::model::limits::Limits;
use crate::number::hex_bytes;
use crate::text::{
    contains_text, ends_with, is_joined, path_join, str_contains, str_ends_with, str_eq, strings,
};

verus! {

/// A microcode blob found inside an early CPIO.
#[derive(Debug)]
pub struct EmbeddedBlob {
    pub path: String,
    pub vendor: Option<Vendor>,
    pub size: u32,
    pub sha256: String,
    pub offset: u64,
}

/// The contents of an [`EmbeddedBlob`].
#[verifier::ext_equal]
pub struct BlobModel {
    pub path: Seq<char>,
    pub vendor: Option<Vendor>,
    pub size: u32,
    pub sha256: Seq<char>,
    pub offset: u64,
}

impl View for EmbeddedBlob {
    type V = BlobModel;

    open spec fn view(&self) -> BlobModel {
        BlobModel {
            path: self.path@,
            vendor: self.vendor,
            size: self.size,
            sha256: self.sha256@,
            offset: self.offset,
        }
    }
}

pub open spec fn blobs_view(v: Seq<EmbeddedBlob>) -> Seq<BlobModel> {
    v.map_values(|b: EmbeddedBlob| b@)
}

/// Result of inspecting an initrd image for early microcode.
#[derive(Debug)]
pub struct InitrdInspection {
    pub path: String,
    pub file_size: u64,
    pub has_early_cpio: bool,
    pub early_end_offset: Option<u64>,
    pub archive_count: u32,
    pub embedded: Vec<EmbeddedBlob>,
    /// Catalog of patches found inside the early blobs.
    pub catalog: Catalog,
    pub patch_count: usize,
    pub findings: Vec<String>,
}

/// The contents of an [`InitrdInspection`].
#[verifier::ext_equal]
pub struct InitrdModel {
    pub path: Seq<char>,
    pub file_size: u64,
    pub has_early_cpio: bool,
    pub early_end_offset: Option<u64>,
    pub archive_count: u32,
    pub embedded: Seq<BlobModel>,
    pub catalog: CatalogModel,
    pub patch_count: nat,
    pub findings: Seq<Seq<char>>,
}

impl View for InitrdInspection {
    type V = InitrdModel;

    open spec fn view(&self) -> InitrdModel {
        InitrdModel {
            path: self.path@,
            file_size: self.file_size,
            has_early_cpio: self.has_early_cpio,
            early_end_offset: self.early_end_offset,
            archive_count: self.archive_count,
            embedded: blobs_view(self.embedded@),
            catalog: self.catalog@,
            patch_count: self.patch_count as nat,
            findings: strings(self.findings@),
        }
    }
}

// --- what is found ------------------------------------------------------------------

/// The path is one that the loader looks for, or ends in its file name.
pub open spec fn microcode_path(name: Seq<char>) -> bool {
    ||| name == Vendor::Intel.path_text()
    ||| name == Vendor::Amd.path_text()
    ||| ends_with(name, "/GenuineIntel.bin"@)
    ||| ends_with(name, "/AuthenticAMD.bin"@)
}

/// The vendor that a path names.
pub open spec fn path_vendor(name: Seq<char>) -> Option<Vendor> {
    if contains_text(name, "GenuineIntel"@) {
        Some(Vendor::Intel)
    } else if contains_text(name, "AuthenticAMD"@) {
        Some(Vendor::Amd)
    } else {
        None
    }
}

/// The microcode blob that a member is, if it is one.
pub open spec fn blob_of(e: CpioModel, b: Seq<u8>) -> Option<BlobModel> {
    if e.mode & 0o170_000 != MODE_FILE || !microcode_path(e.name) {
        None
    } else {
        match e.content(b) {
            None => None,
            Some(data) => Some(
                BlobModel {
                    path: e.name,
                    vendor: path_vendor(e.name),
                    size: e.data_len,
                    sha256: hex_bytes(sha256_of(data)),
                    offset: e.data_offset,
                },
            ),
        }
    }
}

/// The options with which embedded blobs are taken in.
pub open spec fn inspect_options(limits: Limits) -> IngestOptions {
    IngestOptions {
        limits,
        mode: IntelValidationMode::Strict,
        keep_payloads: true,
        recursive: false,
        tolerate_failures: true,
        only_vendor: None,
    }
}

/// What has been found so far.
#[verifier::ext_equal]
pub struct InspectState {
    pub catalog: CatalogModel,
    pub embedded: Seq<BlobModel>,
    pub findings: Seq<Seq<char>>,
}

/// The paths are those of the members below `base` on some system.
pub open spec fn are_members(paths: Seq<Seq<char>>, base: Seq<char>, entries: Seq<CpioModel>) -> bool {
    &&& paths.len() == entries.len()
    &&& forall|i: int| 0 <= i < paths.len() ==> is_joined(#[trigger] paths[i], base, entries[i].name)
}

/// What is found after one more member, which is recorded under `path`.
pub open spec fn after_member(
    st: InspectState,
    e: CpioModel,
    b: Seq<u8>,
    path: Seq<char>,
    limits: Limits,
) -> InspectState {
    match blob_of(e, b) {
        None => st,
        Some(blob) => {
            let found = InspectState { embedded: st.embedded.push(blob), ..st };
            match ingested(st.catalog, path, e.content(b)->0, inspect_options(limits)) {
                Ok(c) => InspectState { catalog: c, ..found },
                Err(f) => InspectState {
                    findings: st.findings.push(e.name + ": "@ + f.error_text()),
                    ..found
                },
            }
        },
    }
}

/// What is found in a list of members, which are recorded under `paths`.
pub open spec fn after_members(
    entries: Seq<CpioModel>,
    b: Seq<u8>,
    paths: Seq<Seq<char>>,
    limits: Limits,
) -> InspectState
    decreases entries.len(),
{
    if entries.len() == 0 {
        InspectState { catalog: CatalogModel::empty(), embedded: Seq::empty(), findings: Seq::empty() }
    } else {
        after_member(
            after_members(entries.drop_last(), b, paths, limits),
            entries.last(),
            b,
            paths[entries.len() - 1],
            limits,
        )
    }
}

/// What inspecting an image without an archive yields.
pub open spec fn plain_image(b: Seq<u8>, path: Seq<char>) -> InitrdModel {
    InitrdModel {
        path,
        file_size: b.len() as u64,
        has_early_cpio: false,
        early_end_offset: None,
        archive_count: 0,
        embedded: Seq::empty(),
        catalog: CatalogModel::empty(),
        patch_count: 0,
        findings: seq!["no leading uncompressed newc CPIO found"@],
    }
}

/// What inspecting an image with the given archives yields, when their members
/// are recorded under `paths`.
pub open spec fn scanned_image(
    scan: ScanModel,
    b: Seq<u8>,
    path: Seq<char>,
    paths: Seq<Seq<char>>,
    limits: Limits,
) -> InitrdModel {
    let st = after_members(scan.entries, b, paths, limits);
    let catalog = normalised(st.catalog);
    InitrdModel {
        path,
        file_size: b.len() as u64,
        has_early_cpio: true,
        early_end_offset: Some(scan.end_offset),
        archive_count: scan.archive_count,
        embedded: st.embedded,
        catalog,
        patch_count: catalog.patches.len(),
        findings: st.findings,
    }
}

/// The report is that on an image with the given archives on some system.
pub open spec fn is_inspected(
    m: InitrdModel,
    scan: ScanModel,
    b: Seq<u8>,
    path: Seq<char>,
    limits: Limits,
) -> bool {
    exists|paths: Seq<Seq<char>>|
        are_members(paths, path, scan.entries) && m == #[trigger] scanned_image(
            scan,
            b,
            path,
            paths,
            limits,
        )
}

/// The microcode members among a list, with their bytes.
pub open spec fn extracted(entries: Seq<CpioModel>, b: Seq<u8>) -> Seq<(Seq<char>, Seq<u8>)>
    decreases entries.len(),
{
    if entries.len() == 0 {
        Seq::empty()
    } else {
        let front = extracted(entries.drop_last(), b);
        let e = entries.last();
        if microcode_path(e.name) && e.content(b) is Some {
            front.push((e.name, e.content(b)->0))
        } else {
            front
        }
    }
}

// --- inspecting ---------------------------------------------------------------------

fn is_microcode_path(name: &str) -> (r: bool)
    ensures
        r == microcode_path(name@),
{
    str_eq(name, Vendor::Intel.early_cpio_path()) || str_eq(name, Vendor::Amd.early_cpio_path())
        || str_ends_with(name, "/GenuineIntel.bin") || str_ends_with(name, "/AuthenticAMD.bin")
}

fn classify_entry(entry: &CpioEntry, buf: &[u8]) -> (r: Option<EmbeddedBlob>)
    ensures
        match r {
            Some(blob) => blob_of(entry@, buf@) == Some(blob@),
            None => blob_of(entry@, buf@) is None,
        },
{
    if !entry.is_file() || !is_microcode_path(entry.name.as_str()) {
        return None;
    }
    let data = match entry.data(buf) {
        Some(d) => d,
        None => {
            return None;
        },
    };
    let sha256 = sha256_text(data);
    let vendor = if str_contains(entry.name.as_str(), "GenuineIntel") {
        Some(Vendor::Intel)
    } else if str_contains(entry.name.as_str(), "AuthenticAMD") {
        Some(Vendor::Amd)
    } else {
        None
    };
    Some(
        EmbeddedBlob {
            path: entry.name.clone(),
            vendor,
            size: entry.data_len,
            sha256,
            offset: entry.data_offset,
        },
    )
}

/// The options with which embedded blobs are taken in.
pub fn inspection_options(limits: &Limits) -> (r: IngestOptions)
    ensures
        r == inspect_options(*limits),
{
    IngestOptions {
        limits: *limits,
        keep_payloads: true,
        recursive: false,
        tolerate_failures: true,
        ..IngestOptions::default()
    }
}

/// The paths of the members below `base`, joined as the system joins paths.
pub(crate) fn join_members(base: &str, entries: &Vec<CpioEntry>) -> (r: Vec<String>)
    ensures
        are_members(strings(r@), base@, cpio_view(entries@)),
{
    let mut out: Vec<String> = Vec::new();
    let mut i: usize = 0;
    while i < entries.len()
        invariant
            i <= entries@.len(),
            out@.len() == i,
            forall|k: int| 0 <= k < i ==> is_joined((#[trigger] out@[k])@, base@, entries@[k]@.name),
        decreases entries@.len() - i,
    {
        out.push(path_join(base, entries[i].name.as_str()));
        i = i + 1;
    }
    assert forall|k: int| 0 <= k < out@.len() implies is_joined(
        #[trigger] strings(out@)[k],
        base@,
        cpio_view(entries@)[k].name,
    ) by {
        assert(is_joined(out@[k]@, base@, entries@[k]@.name));
    }
    out
}

/// What is reported of an image whose archives are known, when their members
/// are recorded under `paths`.
pub fn inspect_members(
    scan: &EarlyCpioScan,
    bytes: &[u8],
    display_path: &str,
    paths: &Vec<String>,
    limits: &Limits,
) -> (r: InitrdInspection)
    requires
        paths@.len() == scan@.entries.len(),
    ensures
        r@ == scanned_image(scan@, bytes@, display_path@, strings(paths@), *limits),
{
    let opts = inspection_options(limits);
    let mut findings: Vec<String> = Vec::new();
    let mut embedded: Vec<EmbeddedBlob> = Vec::new();
    let mut catalog = Catalog::default();
    let ghost entries = scan@.entries;
    assert(strings(findings@) =~= Seq::empty());
    assert(blobs_view(embedded@) =~= Seq::empty());
    let mut i: usize = 0;
    while i < scan.entries.len()
        invariant
            i <= scan.entries@.len(),
            paths@.len() == entries.len(),
            entries == cpio_view(scan.entries@),
            opts == inspect_options(*limits),
            ({
                let st = after_members(entries.take(i as int), bytes@, strings(paths@), *limits);
                &&& catalog@ == st.catalog
                &&& blobs_view(embedded@) == st.embedded
                &&& strings(findings@) == st.findings
            }),
        decreases scan.entries@.len() - i,
    {
        let entry = &scan.entries[i];
        assert(entries.take(i + 1).drop_last() =~= entries.take(i as int));
        assert(entries.take(i + 1).last() == entry@);
        assert(strings(paths@)[i as int] == paths@[i as int]@);
        if let Some(blob) = classify_entry(entry, bytes) {
            // Ingest the payload into a catalog for further inspection.
            if let Some(data) = entry.data(bytes) {
                match ingest_bytes(&mut catalog, paths[i].as_str(), data, &opts) {
                    Ok(_) => {},
                    Err(e) => {
                        let mut m = entry.name.clone();
                        m.append(": ");
                        m.append(e.to_string().as_str());
                        let ghost before = findings@;
                        findings.push(m);
                        assert(strings(findings@) =~= strings(before).push(m@));
                    },
                }
            }
            let ghost before = embedded@;
            embedded.push(blob);
            assert(blobs_view(embedded@) =~= blobs_view(before).push(blob@));
        }
        i = i + 1;
    }
    assert(entries.take(i as int) =~= entries);
    catalog.normalise();
    let patch_count = catalog.len();
    InitrdInspection {
        path: display_path.to_owned(),
        file_size: bytes.len() as u64,
        has_early_cpio: true,
        early_end_offset: Some(scan.end_offset),
        archive_count: scan.archive_count,
        patch_count,
        embedded,
        catalog,
        findings,
    }
}

/// Inspect the bytes of an initrd / initramfs for early microcode. What is found
/// in a member is recorded under the path of the image with the member's name
/// behind it, joined as the system joins paths.
pub fn inspect_initrd_bytes(bytes: &[u8], display_path: &str, limits: &Limits) -> (r: Result<
    InitrdInspection,
    BootError,
>)
    ensures
        match r {
            Ok(i) => match scan_of(bytes@, *limits) {
                Ok(Some(scan)) => is_inspected(i@, scan, bytes@, display_path@, *limits),
                Ok(None) => i@ == plain_image(bytes@, display_path@),
                Err(_) => false,
            },
            Err(e) => scan_of(bytes@, *limits) matches Err(f) && e@ == BootFault::Archive(f),
        },
{
    match scan_early_cpio(bytes, limits) {
        Err(e) => Err(BootError::Archive(e)),
        Ok(None) => {
            let mut findings: Vec<String> = Vec::new();
            let text = "no leading uncompressed newc CPIO found".to_owned();
            findings.push(text);
            let r = InitrdInspection {
                path: display_path.to_owned(),
                file_size: bytes.len() as u64,
                has_early_cpio: false,
                early_end_offset: None,
                archive_count: 0,
                embedded: Vec::new(),
                catalog: Catalog::default(),
                patch_count: 0,
                findings,
            };
            assert(r@.embedded =~= Seq::empty());
            assert(r@.findings =~= seq!["no leading uncompressed newc CPIO found"@]);
            assert(r@ == plain_image(bytes@, display_path@));
            Ok(r)
        },
        Ok(Some(scan)) => {
            let paths = join_members(display_path, &scan.entries);
            let r = inspect_members(&scan, bytes, display_path, &paths, limits);
            assert(is_inspected(r@, scan@, bytes@, display_path@, *limits));
            Ok(r)
        },
    }
}

pub open spec fn extracted_view(v: Seq<(String, Vec<u8>)>) -> Seq<(Seq<char>, Seq<u8>)> {
    v.map_values(|p: (String, Vec<u8>)| (p.0@, p.1@))
}

/// Extract embedded microcode blobs as `(cpio_path, bytes)`.
pub fn extract_embedded_microcode(bytes: &[u8], limits: &Limits) -> (r: Result<
    Vec<(String, Vec<u8>)>,
    BootError,
>)
    ensures
        match r {
            Ok(v) => match scan_of(bytes@, *limits) {
                Ok(Some(scan)) => extracted_view(v@) == extracted(scan.entries, bytes@),
                Ok(None) => extracted_view(v@) == Seq::<(Seq<char>, Seq<u8>)>::empty(),
                Err(_) => false,
            },
            Err(e) => scan_of(bytes@, *limits) matches Err(f) && e@ == BootFault::Archive(f),
        },
{
    let mut out: Vec<(String, Vec<u8>)> = Vec::new();
    assert(extracted_view(out@) =~= Seq::empty());
    let scan = match scan_early_cpio(bytes, limits) {
        Err(e) => {
            return Err(BootError::Archive(e));
        },
        Ok(None) => {
            return Ok(out);
        },
        Ok(Some(s)) => s,
    };
    let ghost entries = scan@.entries;
    let mut i: usize = 0;
    while i < scan.entries.len()
        invariant
            i <= scan.entries@.len(),
            entries == cpio_view(scan.entries@),
            extracted_view(out@) == extracted(entries.take(i as int), bytes@),
        decreases scan.entries@.len() - i,
    {
        let entry = &scan.entries[i];
        assert(entries.take(i + 1).drop_last() =~= entries.take(i as int));
        assert(entries.take(i + 1).last() == entry@);
        if is_microcode_path(entry.name.as_str()) {
            if let Some(data) = entry.data(bytes) {
                let pair = (entry.name.clone(), vstd::slice::slice_to_vec(data));
                let ghost before = out@;
                out.push(pair);
                assert(extracted_view(out@) =~= extracted_view(before).push((pair.0@, pair.1@)));
            }
        }
        i = i + 1;
    }
    assert(entries.take(i as int) =~= entries);
    Ok(out)
}

} // verus!
