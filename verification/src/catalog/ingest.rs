//! Taking blobs into a catalog.

use vstd::prelude::*;
use vstd::utf8::{decode_utf8, valid_utf8};
use crate::amd::container::{
    containers_of, containers_view, patches_view, AmdContainer, AmdPatch, AmdPatchModel,
    ContainerModel,
};
use crate::amd::header::magic;
use crate::bytes::{has_bytes_at, slice_of};
use crate::catalog::collection::{
    payloads_view, sources_view, failures_view, Catalog, CatalogModel, DetectedFormat, SourceBlob, SourceModel,
};
use crate::catalog::error::{CatalogError, CatalogFault};
use crate::digest::{sha256, sha256_of};
use crate::intel::bundle::{bundle_of, entries_view, plausible_at, BundleModel, EntryModel, IntelBundle, IntelEntry};
use crate::intel::dat::{dat_bytes, dat_like, dat_to_binary, looks_like_dat};
use crate::intel::validate::IntelValidationMode;
use crate::model::cpu::Vendor;
use crate::model::limits::Limits;
use crate::model::patch::{metas_view, PatchModel};
use crate::text::utf8_text;

verus! {

#[derive(Debug, Clone, Copy, PartialEq, Eq, Structural)]
pub struct IngestOptions {
    pub limits: Limits,
    pub mode: IntelValidationMode,
    /// Keep the raw bytes of every patch. Turn off for pure inspection to
    /// halve peak memory on large release trees.
    pub keep_payloads: bool,
    /// Recurse into directories.
    pub recursive: bool,
    /// Continue after a file fails to parse, recording it in `failures`.
    pub tolerate_failures: bool,
    /// Restrict ingestion to one vendor.
    pub only_vendor: Option<Vendor>,
}

impl Default for IngestOptions {
    fn default() -> (r: Self)
        ensures
            r == (IngestOptions {
                limits: Limits::standard(),
                mode: IntelValidationMode::Strict,
                keep_payloads: true,
                recursive: true,
                tolerate_failures: true,
                only_vendor: None,
            }),
    {
        IngestOptions {
            limits: Limits::default(),
            mode: IntelValidationMode::Strict,
            keep_payloads: true,
            recursive: true,
            tolerate_failures: true,
            only_vendor: None,
        }
    }
}

/// The format that the bytes show.
pub open spec fn format_of(b: Seq<u8>) -> DetectedFormat {
    if has_bytes_at(b, 0, magic()) {
        DetectedFormat::AmdContainer
    } else if plausible_at(b, 0) {
        DetectedFormat::IntelBinary
    } else if dat_like(b) {
        DetectedFormat::IntelDat
    } else {
        DetectedFormat::Unknown
    }
}

/// Content sniffing. Extensions are advisory only; the bytes decide.
pub fn detect_format(bytes: &[u8]) -> (r: DetectedFormat)
    ensures
        r == format_of(bytes@),
{
    if AmdContainer::looks_like_amd(bytes) {
        return DetectedFormat::AmdContainer;
    }
    if IntelBundle::looks_like_intel(bytes) {
        return DetectedFormat::IntelBinary;
    }
    if looks_like_dat(bytes) {
        return DetectedFormat::IntelDat;
    }
    DetectedFormat::Unknown
}

// --- what ingestion adds ------------------------------------------------------------

/// The bytes that are kept for a patch at `offset`.
pub open spec fn kept_bytes(b: Seq<u8>, offset: u64, size: u32, keep: bool) -> Seq<u8> {
    if keep {
        match slice_of(b, offset as int, size as int) {
            Some(s) => s,
            None => Seq::empty(),
        }
    } else {
        Seq::empty()
    }
}

/// The low 32 bits of a length.
pub open spec fn length32(n: nat) -> u32 {
    (n % 0x1_0000_0000) as u32
}

/// The catalog with one Intel entry more. The size that is noted is that of
/// the bytes that are kept.
pub open spec fn with_intel(
    m: CatalogModel,
    e: EntryModel,
    b: Seq<u8>,
    source: Seq<char>,
    keep: bool,
) -> CatalogModel {
    let payload = kept_bytes(b, e.offset, e.size, keep);
    let meta = e.meta(source);
    CatalogModel {
        patches: m.patches.push(
            if keep {
                PatchModel { total_size: length32(payload.len()), ..meta }
            } else {
                meta
            },
        ),
        payloads: m.payloads.push(payload),
        report: m.report + e.report,
        ..m
    }
}

pub open spec fn with_intels(
    m: CatalogModel,
    entries: Seq<EntryModel>,
    b: Seq<u8>,
    source: Seq<char>,
    keep: bool,
) -> CatalogModel
    decreases entries.len(),
{
    if entries.len() == 0 {
        m
    } else {
        with_intel(with_intels(m, entries.drop_last(), b, source, keep), entries.last(), b, source, keep)
    }
}

/// The catalog with an Intel bundle more.
pub open spec fn with_bundle(
    m: CatalogModel,
    bundle: BundleModel,
    b: Seq<u8>,
    source: Seq<char>,
    keep: bool,
) -> CatalogModel {
    with_intels(CatalogModel { report: m.report + bundle.report, ..m }, bundle.entries, b, source, keep)
}

/// The catalog with one AMD patch more.
pub open spec fn with_amd(
    m: CatalogModel,
    p: AmdPatchModel,
    b: Seq<u8>,
    source: Seq<char>,
    keep: bool,
) -> CatalogModel {
    CatalogModel {
        patches: m.patches.push(p.meta(source)),
        payloads: m.payloads.push(kept_bytes(b, p.offset, p.size, keep)),
        report: m.report + p.report,
        ..m
    }
}

pub open spec fn with_amds(
    m: CatalogModel,
    patches: Seq<AmdPatchModel>,
    b: Seq<u8>,
    source: Seq<char>,
    keep: bool,
) -> CatalogModel
    decreases patches.len(),
{
    if patches.len() == 0 {
        m
    } else {
        with_amd(with_amds(m, patches.drop_last(), b, source, keep), patches.last(), b, source, keep)
    }
}

/// The catalog with one AMD container more.
pub open spec fn with_container(
    m: CatalogModel,
    c: ContainerModel,
    b: Seq<u8>,
    source: Seq<char>,
    keep: bool,
) -> CatalogModel {
    let n = with_amds(CatalogModel { report: m.report + c.report, ..m }, c.patches, b, source, keep);
    CatalogModel { amd_equivalence: n.amd_equivalence + c.equivalence, ..n }
}

pub open spec fn with_containers(
    m: CatalogModel,
    containers: Seq<ContainerModel>,
    b: Seq<u8>,
    source: Seq<char>,
    keep: bool,
) -> CatalogModel
    decreases containers.len(),
{
    if containers.len() == 0 {
        m
    } else {
        with_container(
            with_containers(m, containers.drop_last(), b, source, keep),
            containers.last(),
            b,
            source,
            keep,
        )
    }
}

/// The catalog with the patches of an Intel bundle.
pub open spec fn intel_ingested(m: CatalogModel, path: Seq<char>, b: Seq<u8>, opts: IngestOptions) -> Result<
    CatalogModel,
    CatalogFault,
> {
    match bundle_of(b, opts.mode, opts.limits) {
        Err(e) => Err(CatalogFault::Intel { path, source: e }),
        Ok(bundle) => Ok(with_bundle(m, bundle, b, path, opts.keep_payloads)),
    }
}

/// The catalog with the patches of AMD containers.
pub open spec fn amd_ingested(m: CatalogModel, path: Seq<char>, b: Seq<u8>, opts: IngestOptions) -> Result<
    CatalogModel,
    CatalogFault,
> {
    match containers_of(b, opts.limits) {
        Err(e) => Err(CatalogFault::Amd { path, source: e }),
        Ok(cs) => Ok(with_containers(m, cs, b, path, opts.keep_payloads)),
    }
}

/// The catalog with the patches of a blob; nothing where the blob is of a
/// vendor that is left out.
pub open spec fn patches_ingested(m: CatalogModel, path: Seq<char>, b: Seq<u8>, opts: IngestOptions) -> Result<
    Option<CatalogModel>,
    CatalogFault,
> {
    match format_of(b) {
        DetectedFormat::Unknown => Err(CatalogFault::UnknownFormat { path }),
        DetectedFormat::IntelDat => if opts.only_vendor == Some(Vendor::Amd) {
            Ok(None)
        } else if !valid_utf8(b) {
            Err(CatalogFault::UnknownFormat { path })
        } else {
            match dat_bytes(decode_utf8(b)) {
                Err(e) => Err(CatalogFault::Intel { path, source: e }),
                Ok(binary) => match intel_ingested(m, path, binary, opts) {
                    Err(e) => Err(e),
                    Ok(n) => Ok(Some(n)),
                },
            }
        },
        DetectedFormat::IntelBinary => if opts.only_vendor == Some(Vendor::Amd) {
            Ok(None)
        } else {
            match intel_ingested(m, path, b, opts) {
                Err(e) => Err(e),
                Ok(n) => Ok(Some(n)),
            }
        },
        DetectedFormat::AmdContainer => if opts.only_vendor == Some(Vendor::Intel) {
            Ok(None)
        } else {
            match amd_ingested(m, path, b, opts) {
                Err(e) => Err(e),
                Ok(n) => Ok(Some(n)),
            }
        },
    }
}

/// The catalog after taking in a blob.
pub open spec fn ingested(m: CatalogModel, path: Seq<char>, b: Seq<u8>, opts: IngestOptions) -> Result<
    CatalogModel,
    CatalogFault,
> {
    match patches_ingested(m, path, b, opts) {
        Err(e) => Err(e),
        Ok(None) => Ok(m),
        Ok(Some(n)) => Ok(
            CatalogModel {
                sources: n.sources.push(
                    SourceModel {
                        path,
                        size: b.len() as u64,
                        format: format_of(b),
                        sha256: sha256_of(b),
                        patch_count: (n.patches.len() - m.patches.len()) as usize,
                    },
                ),
                ..n
            },
        ),
    }
}

// --- ingestion ----------------------------------------------------------------------

fn copy_of(slice: Option<&[u8]>) -> (r: Vec<u8>)
    ensures
        r@ == match slice {
            Some(s) => s@,
            None => Seq::empty(),
        },
{
    match slice {
        Some(s) => vstd::slice::slice_to_vec(s),
        None => Vec::new(),
    }
}

fn add_intel(catalog: &mut Catalog, entry: &IntelEntry, bytes: &[u8], source: &str, keep: bool)
    ensures
        final(catalog)@ == with_intel(old(catalog)@, entry@, bytes@, source@, keep),
{
    let ghost before = catalog@;
    let mut meta = entry.to_meta(source);
    // Fold per-entry findings into the catalog-level report so that
    // `validate` can report everything from one place.
    catalog.report.extend(entry.report.clone());
    let payload: Vec<u8> = if keep {
        copy_of(entry.bytes(bytes))
    } else {
        Vec::new()
    };
    assert(payload@ =~= kept_bytes(bytes@, entry.offset, entry.size, keep));
    // Payload length must agree with the declared size or the artifact
    // writer would silently emit a short image.
    let len: u32 = (payload.len() as u64 % 0x1_0000_0000) as u32;
    if keep && len != meta.total_size {
        meta.total_size = len;
    }
    let ghost patches = catalog.patches@;
    let ghost payloads = catalog.payloads@;
    catalog.patches.push(meta);
    catalog.payloads.push(payload);
    assert(metas_view(catalog.patches@) =~= metas_view(patches).push(meta@));
    assert(payloads_view(catalog.payloads@) =~= payloads_view(payloads).push(payload@));
    assert(catalog@ =~= with_intel(before, entry@, bytes@, source@, keep));
}

fn ingest_intel(catalog: &mut Catalog, path: &str, bytes: &[u8], opts: &IngestOptions) -> (r: Result<
    (),
    CatalogError,
>)
    ensures
        match r {
            Ok(_) => intel_ingested(old(catalog)@, path@, bytes@, *opts) == Ok::<_, CatalogFault>(
                final(catalog)@,
            ),
            Err(e) => {
                &&& intel_ingested(old(catalog)@, path@, bytes@, *opts) == Err::<CatalogModel, _>(e@)
                &&& final(catalog)@ == old(catalog)@
            },
        },
{
    let bundle = match IntelBundle::parse(bytes, opts.mode, &opts.limits) {
        Ok(b) => b,
        Err(e) => {
            return Err(CatalogError::Intel { path: path.to_owned(), source: e });
        },
    };
    let ghost before = catalog@;
    let ghost entries = bundle@.entries;
    catalog.report.extend(bundle.report.clone());
    let ghost start = catalog@;
    assert(start =~= (CatalogModel { report: before.report + bundle@.report, ..before }));
    let mut i: usize = 0;
    while i < bundle.entries.len()
        invariant
            i <= bundle.entries@.len(),
            entries == entries_view(bundle.entries@),
            catalog@ == with_intels(start, entries.take(i as int), bytes@, path@, opts.keep_payloads),
        decreases bundle.entries@.len() - i,
    {
        assert(entries.take(i + 1).drop_last() =~= entries.take(i as int));
        assert(entries.take(i + 1).last() == bundle.entries@[i as int]@);
        add_intel(catalog, &bundle.entries[i], bytes, path, opts.keep_payloads);
        i = i + 1;
    }
    assert(entries.take(i as int) =~= entries);
    Ok(())
}

fn add_amd(catalog: &mut Catalog, patch: &AmdPatch, bytes: &[u8], source: &str, keep: bool)
    ensures
        final(catalog)@ == with_amd(old(catalog)@, patch@, bytes@, source@, keep),
{
    let ghost before = catalog@;
    let meta = patch.to_meta(source);
    catalog.report.extend(patch.report.clone());
    let payload: Vec<u8> = if keep {
        copy_of(patch.bytes(bytes))
    } else {
        Vec::new()
    };
    assert(payload@ =~= kept_bytes(bytes@, patch.offset, patch.size, keep));
    let ghost patches = catalog.patches@;
    let ghost payloads = catalog.payloads@;
    catalog.patches.push(meta);
    catalog.payloads.push(payload);
    assert(metas_view(catalog.patches@) =~= metas_view(patches).push(meta@));
    assert(payloads_view(catalog.payloads@) =~= payloads_view(payloads).push(payload@));
    assert(catalog@ =~= with_amd(before, patch@, bytes@, source@, keep));
}

fn add_container(catalog: &mut Catalog, container: &AmdContainer, bytes: &[u8], source: &str, keep: bool)
    ensures
        final(catalog)@ == with_container(old(catalog)@, container@, bytes@, source@, keep),
{
    let ghost before = catalog@;
    let ghost patches = container@.patches;
    catalog.report.extend(container.report.clone());
    let ghost start = catalog@;
    assert(start =~= (CatalogModel { report: before.report + container@.report, ..before }));
    let mut i: usize = 0;
    while i < container.patches.len()
        invariant
            i <= container.patches@.len(),
            patches == patches_view(container.patches@),
            catalog@ == with_amds(start, patches.take(i as int), bytes@, source@, keep),
        decreases container.patches@.len() - i,
    {
        assert(patches.take(i + 1).drop_last() =~= patches.take(i as int));
        assert(patches.take(i + 1).last() == container.patches@[i as int]@);
        add_amd(catalog, &container.patches[i], bytes, source, keep);
        i = i + 1;
    }
    assert(patches.take(i as int) =~= patches);
    let ghost filled = catalog@;
    // Equivalence entries are needed verbatim when rebuilding a container.
    let mut entries = vstd::slice::slice_to_vec(container.equivalence.entries.as_slice());
    catalog.amd_equivalence.append(&mut entries);
    assert(catalog@ =~= with_container(before, container@, bytes@, source@, keep));
}

fn ingest_amd(catalog: &mut Catalog, path: &str, bytes: &[u8], opts: &IngestOptions) -> (r: Result<
    (),
    CatalogError,
>)
    ensures
        match r {
            Ok(_) => amd_ingested(old(catalog)@, path@, bytes@, *opts) == Ok::<_, CatalogFault>(
                final(catalog)@,
            ),
            Err(e) => {
                &&& amd_ingested(old(catalog)@, path@, bytes@, *opts) == Err::<CatalogModel, _>(e@)
                &&& final(catalog)@ == old(catalog)@
            },
        },
{
    let containers = match AmdContainer::parse_all(bytes, &opts.limits) {
        Ok(v) => v,
        Err(e) => {
            return Err(CatalogError::Amd { path: path.to_owned(), source: e });
        },
    };
    let ghost start = catalog@;
    let ghost models = containers_view(containers@);
    let mut i: usize = 0;
    while i < containers.len()
        invariant
            i <= containers@.len(),
            models == containers_view(containers@),
            catalog@ == with_containers(start, models.take(i as int), bytes@, path@, opts.keep_payloads),
        decreases containers@.len() - i,
    {
        assert(models.take(i + 1).drop_last() =~= models.take(i as int));
        assert(models.take(i + 1).last() == containers@[i as int]@);
        add_container(catalog, &containers[i], bytes, path, opts.keep_payloads);
        i = i + 1;
    }
    assert(models.take(i as int) =~= models);
    Ok(())
}

fn ingest_dat(catalog: &mut Catalog, path: &str, bytes: &[u8], opts: &IngestOptions) -> (r: Result<
    (),
    CatalogError,
>)
    requires
        format_of(bytes@) == DetectedFormat::IntelDat,
        opts.only_vendor != Some(Vendor::Amd),
    ensures
        match r {
            Ok(_) => patches_ingested(old(catalog)@, path@, bytes@, *opts) == Ok::<_, CatalogFault>(
                Some(final(catalog)@),
            ),
            Err(e) => {
                &&& patches_ingested(old(catalog)@, path@, bytes@, *opts) == Err::<Option<CatalogModel>, _>(
                    e@,
                )
                &&& final(catalog)@ == old(catalog)@
            },
        },
{
    let text = match utf8_text(bytes) {
        Some(t) => t,
        None => {
            return Err(CatalogError::UnknownFormat { path: path.to_owned() });
        },
    };
    proof {
        vstd::utf8::encode_utf8_decode_utf8(text@);
    }
    let binary = match dat_to_binary(text.as_str()) {
        Ok(b) => b,
        Err(e) => {
            return Err(CatalogError::Intel { path: path.to_owned(), source: e });
        },
    };
    ingest_intel(catalog, path, binary.as_slice(), opts)
}

/// Ingest an in-memory blob. Exposed so callers can feed extracted CPIO
/// members or UKI sections without touching the filesystem.
///
/// A blob that cannot be taken in leaves the catalog as it was.
pub fn ingest_bytes(catalog: &mut Catalog, display_path: &str, bytes: &[u8], opts: &IngestOptions) -> (r: Result<
    (),
    CatalogError,
>)
    ensures
        match r {
            Ok(_) => ingested(old(catalog)@, display_path@, bytes@, *opts) == Ok::<_, CatalogFault>(
                final(catalog)@,
            ),
            Err(e) => {
                &&& ingested(old(catalog)@, display_path@, bytes@, *opts) == Err::<CatalogModel, _>(e@)
                &&& final(catalog)@ == old(catalog)@
            },
        },
{
    let format = detect_format(bytes);
    let file_sha = sha256(bytes);
    let before: usize = catalog.patches.len();
    let ghost start = catalog@;
    match format {
        DetectedFormat::Unknown => {
            return Err(CatalogError::UnknownFormat { path: display_path.to_owned() });
        },
        DetectedFormat::IntelDat => {
            if opts.only_vendor == Some(Vendor::Amd) {
                return Ok(());
            }
            match ingest_dat(catalog, display_path, bytes, opts) {
                Ok(_) => {},
                Err(e) => {
                    return Err(e);
                },
            }
        },
        DetectedFormat::IntelBinary => {
            if opts.only_vendor == Some(Vendor::Amd) {
                return Ok(());
            }
            match ingest_intel(catalog, display_path, bytes, opts) {
                Ok(_) => {},
                Err(e) => {
                    return Err(e);
                },
            }
        },
        DetectedFormat::AmdContainer => {
            if opts.only_vendor == Some(Vendor::Intel) {
                return Ok(());
            }
            match ingest_amd(catalog, display_path, bytes, opts) {
                Ok(_) => {},
                Err(e) => {
                    return Err(e);
                },
            }
        },
    }
    proof {
        lemma_ingestion_grows(start, display_path@, bytes@, *opts);
    }
    let blob = SourceBlob {
        path: display_path.to_owned(),
        size: bytes.len() as u64,
        format,
        sha256: file_sha,
        patch_count: catalog.patches.len() - before,
    };
    let ghost filled = catalog@;
    let ghost sources = catalog.sources@;
    catalog.sources.push(blob);
    assert(sources_view(catalog.sources@) =~= sources_view(sources).push(blob@));
    assert(catalog@ =~= (CatalogModel { sources: filled.sources.push(blob@), ..filled }));
    Ok(())
}

// --- walking a tree -----------------------------------------------------------------

/// What stands at a path.
#[derive(Debug, Clone, Copy, PartialEq, Eq, Structural)]
pub enum PathKind {
    Symlink,
    Directory,
    File,
    Other,
}

/// What is done with a path.
#[derive(Debug, Clone, Copy, PartialEq, Eq, Structural)]
pub enum Visit {
    /// Resolve the link and go on with its target, one level deeper.
    Resolve,
    /// Go through the children in order, one level deeper.
    Descend,
    /// Read the file and take its bytes in.
    Read,
    /// Pass over it.
    Skip,
}

/// Decides what is done with a path at a depth; `len` is its size in bytes.
pub fn plan_visit(kind: PathKind, len: u64, depth: u32, opts: &IngestOptions) -> (r: Result<Visit, CatalogError>)
    ensures
        match r {
            Err(e) => depth > opts.limits.max_directory_depth && e@ == CatalogFault::LimitExceeded(
                "directory recursion depth"@,
            ),
            Ok(v) => depth <= opts.limits.max_directory_depth && v == match kind {
                PathKind::Symlink => Visit::Resolve,
                PathKind::Directory => if !opts.recursive && depth > 0 {
                    Visit::Skip
                } else {
                    Visit::Descend
                },
                PathKind::Other => Visit::Skip,
                PathKind::File => if len == 0 || len > opts.limits.max_blob_bytes {
                    Visit::Skip
                } else {
                    Visit::Read
                },
            },
        },
{
    if depth > opts.limits.max_directory_depth {
        return Err(CatalogError::LimitExceeded("directory recursion depth"));
    }
    match kind {
        // Symlinks inside a release tree are common (e.g. distro packaging),
        // but silently following them makes provenance meaningless. Resolve
        // explicitly and record the real path.
        PathKind::Symlink => Ok(Visit::Resolve),
        PathKind::Directory => {
            if !opts.recursive && depth > 0 {
                Ok(Visit::Skip)
            } else {
                Ok(Visit::Descend)
            }
        },
        PathKind::Other => Ok(Visit::Skip),
        PathKind::File => {
            if len == 0 || len > opts.limits.max_blob_bytes {
                Ok(Visit::Skip)
            } else {
                Ok(Visit::Read)
            }
        },
    }
}

/// Whether another child of a directory may be visited.
pub fn check_file_count(catalog: &Catalog, opts: &IngestOptions) -> (r: Result<(), CatalogError>)
    ensures
        match r {
            Ok(_) => catalog@.sources.len() < opts.limits.max_catalog_files,
            Err(e) => catalog@.sources.len() >= opts.limits.max_catalog_files && e@
                == CatalogFault::LimitExceeded("too many files"@),
        },
{
    if catalog.sources.len() as u64 >= opts.limits.max_catalog_files as u64 {
        Err(CatalogError::LimitExceeded("too many files"))
    } else {
        Ok(())
    }
}

/// Deals with the outcome of a child: a failure is noted where failures are
/// tolerated, and handed on where they are not.
pub fn settle_child(
    catalog: &mut Catalog,
    child: &str,
    outcome: Result<(), CatalogError>,
    opts: &IngestOptions,
) -> (r: Result<(), CatalogError>)
    ensures
        match outcome {
            Ok(_) => r is Ok && final(catalog)@ == old(catalog)@,
            Err(e) => if opts.tolerate_failures {
                &&& r is Ok
                &&& final(catalog)@ == (CatalogModel {
                    failures: old(catalog)@.failures.push((child@, e@.error_text())),
                    ..old(catalog)@
                })
            } else {
                &&& r == Err::<(), CatalogError>(e)
                &&& final(catalog)@ == old(catalog)@
            },
        },
{
    match outcome {
        Ok(_) => Ok(()),
        Err(e) => {
            if opts.tolerate_failures {
                let ghost before = catalog@;
                let ghost failures = catalog.failures@;
                let entry = (child.to_owned(), e.to_string());
                catalog.failures.push(entry);
                assert(failures_view(catalog.failures@) =~= failures_view(failures).push(
                    (entry.0@, entry.1@),
                ));
                assert(catalog@ =~= (CatalogModel {
                    failures: before.failures.push((child@, e@.error_text())),
                    ..before
                }));
                Ok(())
            } else {
                Err(e)
            }
        },
    }
}

// --- laws ---------------------------------------------------------------------------

proof fn lemma_intels_len(m: CatalogModel, entries: Seq<EntryModel>, b: Seq<u8>, source: Seq<char>, keep: bool)
    ensures
        with_intels(m, entries, b, source, keep).patches.len() == m.patches.len() + entries.len(),
        with_intels(m, entries, b, source, keep).payloads.len() == m.payloads.len() + entries.len(),
        with_intels(m, entries, b, source, keep).patches.take(m.patches.len() as int) == m.patches,
        with_intels(m, entries, b, source, keep).sources == m.sources,
    decreases entries.len(),
{
    if entries.len() > 0 {
        let front = with_intels(m, entries.drop_last(), b, source, keep);
        lemma_intels_len(m, entries.drop_last(), b, source, keep);
        assert(with_intels(m, entries, b, source, keep).patches.take(m.patches.len() as int)
            =~= front.patches.take(m.patches.len() as int));
    } else {
        assert(m.patches.take(m.patches.len() as int) =~= m.patches);
    }
}

proof fn lemma_amds_len(m: CatalogModel, ps: Seq<AmdPatchModel>, b: Seq<u8>, source: Seq<char>, keep: bool)
    ensures
        with_amds(m, ps, b, source, keep).patches.len() == m.patches.len() + ps.len(),
        with_amds(m, ps, b, source, keep).payloads.len() == m.payloads.len() + ps.len(),
        with_amds(m, ps, b, source, keep).patches.take(m.patches.len() as int) == m.patches,
        with_amds(m, ps, b, source, keep).sources == m.sources,
    decreases ps.len(),
{
    if ps.len() > 0 {
        let front = with_amds(m, ps.drop_last(), b, source, keep);
        lemma_amds_len(m, ps.drop_last(), b, source, keep);
        assert(with_amds(m, ps, b, source, keep).patches.take(m.patches.len() as int)
            =~= front.patches.take(m.patches.len() as int));
    } else {
        assert(m.patches.take(m.patches.len() as int) =~= m.patches);
    }
}

proof fn lemma_containers_len(
    m: CatalogModel,
    cs: Seq<ContainerModel>,
    b: Seq<u8>,
    source: Seq<char>,
    keep: bool,
)
    ensures
        ({
            let n = with_containers(m, cs, b, source, keep);
            &&& n.patches.len() >= m.patches.len()
            &&& n.patches.len() - m.patches.len() == n.payloads.len() - m.payloads.len()
            &&& n.patches.take(m.patches.len() as int) == m.patches
            &&& n.sources == m.sources
        }),
    decreases cs.len(),
{
    if cs.len() > 0 {
        let front = with_containers(m, cs.drop_last(), b, source, keep);
        lemma_containers_len(m, cs.drop_last(), b, source, keep);
        let c = cs.last();
        let started = CatalogModel { report: front.report + c.report, ..front };
        lemma_amds_len(started, c.patches, b, source, keep);
        let n = with_containers(m, cs, b, source, keep);
        assert(n.patches.take(m.patches.len() as int) =~= n.patches.take(
            front.patches.len() as int,
        ).take(m.patches.len() as int));
    } else {
        assert(m.patches.take(m.patches.len() as int) =~= m.patches);
    }
}

proof fn lemma_ingestion_grows(m: CatalogModel, path: Seq<char>, b: Seq<u8>, opts: IngestOptions)
    ensures
        patches_ingested(m, path, b, opts) matches Ok(Some(n)) ==> {
            &&& n.patches.len() >= m.patches.len()
            &&& n.patches.len() - m.patches.len() == n.payloads.len() - m.payloads.len()
            &&& n.patches.take(m.patches.len() as int) == m.patches
            &&& n.sources == m.sources
        },
{
    match format_of(b) {
        DetectedFormat::Unknown => {},
        DetectedFormat::IntelDat => {
            if let Ok(binary) = dat_bytes(decode_utf8(b)) {
                lemma_intel_grows(m, path, binary, opts);
            }
        },
        DetectedFormat::IntelBinary => {
            lemma_intel_grows(m, path, b, opts);
        },
        DetectedFormat::AmdContainer => {
            if let Ok(cs) = containers_of(b, opts.limits) {
                lemma_containers_len(m, cs, b, path, opts.keep_payloads);
            }
        },
    }
}

proof fn lemma_intel_grows(m: CatalogModel, path: Seq<char>, b: Seq<u8>, opts: IngestOptions)
    ensures
        intel_ingested(m, path, b, opts) matches Ok(n) ==> {
            &&& n.patches.len() >= m.patches.len()
            &&& n.patches.len() - m.patches.len() == n.payloads.len() - m.payloads.len()
            &&& n.patches.take(m.patches.len() as int) == m.patches
            &&& n.sources == m.sources
        },
{
    if let Ok(bundle) = bundle_of(b, opts.mode, opts.limits) {
        lemma_intels_len(
            CatalogModel { report: m.report + bundle.report, ..m },
            bundle.entries,
            b,
            path,
            opts.keep_payloads,
        );
    }
}

/// The blob is of a vendor that is left out.
pub open spec fn passed_over(b: Seq<u8>, opts: IngestOptions) -> bool {
    match format_of(b) {
        DetectedFormat::IntelDat => opts.only_vendor == Some(Vendor::Amd),
        DetectedFormat::IntelBinary => opts.only_vendor == Some(Vendor::Amd),
        DetectedFormat::AmdContainer => opts.only_vendor == Some(Vendor::Intel),
        DetectedFormat::Unknown => false,
    }
}

/// Ingestion adds behind what is there, a payload with every patch, and
/// accounts for all of it in one source record behind the others. A blob of a
/// vendor that is left out is passed over and changes nothing.
pub proof fn law_ingestion_only_adds(m: CatalogModel, path: Seq<char>, b: Seq<u8>, opts: IngestOptions)
    requires
        m.patches.len() <= usize::MAX,
        ingested(m, path, b, opts) is Ok,
        (ingested(m, path, b, opts)->Ok_0).patches.len() <= usize::MAX,
    ensures
        ({
            let n = ingested(m, path, b, opts)->Ok_0;
            let added = n.patches.len() - m.patches.len();
            &&& added >= 0
            &&& n.patches.take(m.patches.len() as int) == m.patches
            &&& n.payloads.len() - m.payloads.len() == added
            &&& passed_over(b, opts) ==> n == m
            &&& !passed_over(b, opts) ==> {
                &&& n.sources.drop_last() == m.sources
                &&& n.sources.len() == m.sources.len() + 1
                &&& n.sources.last().path == path
                &&& n.sources.last().patch_count == added
            }
        }),
{
    lemma_ingestion_grows(m, path, b, opts);
    assert(m.patches.take(m.patches.len() as int) =~= m.patches);
    let n = ingested(m, path, b, opts)->Ok_0;
    if !passed_over(b, opts) {
        assert(n.sources.drop_last() =~= m.sources);
    }
}

} // verus!
