//! Intel bundles: updates laid end to end.

use vstd::prelude::*;
use crate::bytes::{all_zero_from, get_slice, le32, lemma_le32_part, slice_of, zero_from};
use crate::digest::{sha256, sha256_of};
use crate::intel::error::{IntelError, IntelFault};
use crate::intel::header::{
    lemma_header_skip, IntelExtendedSignature, IntelHeader, RawExtendedSignature, RawExtendedTableHeader,
    EXTENDED_SIGNATURE_SIZE, EXTENDED_TABLE_HEADER_SIZE, HEADER_SIZE, HEADER_TYPE_IFS,
    HEADER_TYPE_MICROCODE, LOADER_REVISION, MIN_UPDATE_SIZE,
};
use crate::intel::validate::{entry_report, table_size, validate_entry, IntelValidationMode};
use crate::model::cpu::Vendor;
use crate::model::date::UcodeDate;
use crate::model::limits::Limits;
use crate::model::patch::{
    HeaderKind, OriginModel, PatchMeta, PatchModel, PatchOrigin, ProcessorMatch, RuntimeUpdatePolicy,
};
use crate::model::validate::{
    any_error, finding, first_error_message, law_errors_have_a_message, Finding, FindingCode, FindingModel, ValidationReport,
};
use crate::number::{around_dec, dec, dec_text};

verus! {

/// One parsed microcode update inside a bundle.
#[derive(Debug)]
pub struct IntelEntry {
    pub header: IntelHeader,
    pub extended_signatures: Vec<IntelExtendedSignature>,
    /// Offset of this entry within the bundle.
    pub offset: u64,
    /// Number of bytes this entry occupies.
    pub size: u32,
    pub report: ValidationReport,
    pub sha256: [u8; 32],
}

/// The contents of an [`IntelEntry`].
#[verifier::ext_equal]
pub struct EntryModel {
    pub header: IntelHeader,
    pub extended_signatures: Seq<IntelExtendedSignature>,
    pub offset: u64,
    pub size: u32,
    pub report: Seq<FindingModel>,
    pub sha256: Seq<u8>,
}

impl View for IntelEntry {
    type V = EntryModel;

    open spec fn view(&self) -> EntryModel {
        EntryModel {
            header: self.header,
            extended_signatures: self.extended_signatures@,
            offset: self.offset,
            size: self.size,
            report: self.report@,
            sha256: self.sha256@,
        }
    }
}

impl Clone for IntelEntry {
    fn clone(&self) -> (r: Self)
        ensures
            r@ == self@,
    {
        IntelEntry {
            header: self.header,
            extended_signatures: vstd::slice::slice_to_vec(self.extended_signatures.as_slice()),
            offset: self.offset,
            size: self.size,
            report: self.report.clone(),
            sha256: self.sha256,
        }
    }
}

/// The pair is already in the list.
pub open spec fn has_pair(m: Seq<ProcessorMatch>, e: IntelExtendedSignature) -> bool {
    exists|j: int|
        0 <= j < m.len() && (#[trigger] m[j]).signature == e.signature && m[j].platform_mask
            == e.platform_mask
}

/// The pair of the header, and behind it the extended pairs that are new.
pub open spec fn pairs(h: IntelHeader, ext: Seq<IntelExtendedSignature>) -> Seq<ProcessorMatch>
    decreases ext.len(),
{
    if ext.len() == 0 {
        seq![
            ProcessorMatch {
                signature: h.signature,
                platform_mask: h.platform_mask,
                equivalence_id: None,
                primary: true,
            },
        ]
    } else {
        let front = pairs(h, ext.drop_last());
        let e = ext.last();
        if has_pair(front, e) {
            front
        } else {
            front.push(
                ProcessorMatch {
                    signature: e.signature,
                    platform_mask: e.platform_mask,
                    equivalence_id: None,
                    primary: false,
                },
            )
        }
    }
}

impl EntryModel {
    /// The vendor-neutral metadata of the entry.
    pub open spec fn meta(self, source: Seq<char>) -> PatchModel {
        PatchModel {
            vendor: Vendor::Intel,
            kind: if self.header.header_type == HEADER_TYPE_MICROCODE {
                HeaderKind::Microcode
            } else if self.header.header_type == HEADER_TYPE_IFS {
                HeaderKind::IntelIfsTestImage
            } else {
                HeaderKind::Unknown(self.header.header_type)
            },
            revision: self.header.revision,
            date: UcodeDate::decode(self.header.date_raw),
            total_size: self.size,
            data_size: self.header.data(),
            matches: pairs(self.header, self.extended_signatures),
            runtime_update: if self.header.min_required_revision != 0 {
                RuntimeUpdatePolicy::RequiresBaseRevision(self.header.min_required_revision)
            } else {
                RuntimeUpdatePolicy::Unspecified
            },
            min_base_revision: None,
            origin: OriginModel { source, offset: self.offset, length: self.size },
            sha256: Some(self.sha256),
        }
    }
}

fn contains_pair(m: &[ProcessorMatch], e: &IntelExtendedSignature) -> (r: bool)
    ensures
        r == has_pair(m@, *e),
{
    let mut j: usize = 0;
    while j < m.len()
        invariant
            j <= m@.len(),
            forall|k: int|
                0 <= k < j ==> !((#[trigger] m@[k]).signature == e.signature && m@[k].platform_mask
                    == e.platform_mask),
        decreases m@.len() - j,
    {
        if m[j].signature == e.signature && m[j].platform_mask == e.platform_mask {
            return true;
        }
        j = j + 1;
    }
    false
}

impl IntelEntry {
    /// The entry's bytes, borrowed from the original bundle buffer.
    pub fn bytes<'b>(&self, bundle: &'b [u8]) -> (r: Option<&'b [u8]>)
        ensures
            match r {
                Some(s) => slice_of(bundle@, self.offset as int, self.size as int) == Some(s@),
                None => slice_of(bundle@, self.offset as int, self.size as int) is None,
            },
    {
        get_slice(bundle, self.offset, self.size)
    }

    /// Every `(signature, platform)` pair this entry covers, primary first.
    pub fn processor_matches(&self) -> (r: Vec<ProcessorMatch>)
        ensures
            r@ == pairs(self.header, self.extended_signatures@),
    {
        let ext = self.extended_signatures.as_slice();
        let mut out: Vec<ProcessorMatch> = Vec::new();
        out.push(ProcessorMatch::intel(self.header.signature, self.header.platform_mask, true));
        assert(out@ =~= pairs(self.header, ext@.take(0)));
        let mut i: usize = 0;
        while i < ext.len()
            invariant
                i <= ext@.len(),
                out@ =~= pairs(self.header, ext@.take(i as int)),
            decreases ext@.len() - i,
        {
            assert(ext@.take(i + 1).drop_last() =~= ext@.take(i as int));
            assert(ext@.take(i + 1).last() == ext@[i as int]);
            if !contains_pair(out.as_slice(), &ext[i]) {
                out.push(ProcessorMatch::intel(ext[i].signature, ext[i].platform_mask, false));
            }
            i = i + 1;
        }
        assert(ext@.take(i as int) =~= ext@);
        out
    }

    pub fn to_meta(&self, source: &str) -> (r: PatchMeta)
        ensures
            r@ == self@.meta(source@),
    {
        let kind = if self.header.is_microcode() {
            HeaderKind::Microcode
        } else if self.header.is_ifs_image() {
            HeaderKind::IntelIfsTestImage
        } else {
            HeaderKind::Unknown(self.header.header_type)
        };
        let runtime_update = if self.header.min_required_revision != 0 {
            RuntimeUpdatePolicy::RequiresBaseRevision(self.header.min_required_revision)
        } else {
            RuntimeUpdatePolicy::Unspecified
        };
        PatchMeta {
            vendor: Vendor::Intel,
            kind,
            revision: self.header.revision,
            date: UcodeDate::from_packed_bcd(self.header.date_raw),
            total_size: self.size,
            data_size: self.header.data_size(),
            matches: self.processor_matches(),
            runtime_update,
            min_base_revision: None,
            origin: PatchOrigin { source: source.to_owned(), offset: self.offset, length: self.size },
            sha256: Some(self.sha256),
        }
    }
}

/// A parsed Intel microcode bundle: a plain concatenation of updates.
#[derive(Debug)]
pub struct IntelBundle {
    pub entries: Vec<IntelEntry>,
    /// Findings that concern the bundle as a whole rather than one entry.
    pub report: ValidationReport,
    pub total_bytes: u64,
}

/// The contents of an [`IntelBundle`].
#[verifier::ext_equal]
pub struct BundleModel {
    pub entries: Seq<EntryModel>,
    pub report: Seq<FindingModel>,
    pub total_bytes: u64,
}

pub open spec fn entries_view(v: Seq<IntelEntry>) -> Seq<EntryModel> {
    v.map_values(|e: IntelEntry| e@)
}

impl View for IntelBundle {
    type V = BundleModel;

    open spec fn view(&self) -> BundleModel {
        BundleModel {
            entries: entries_view(self.entries@),
            report: self.report@,
            total_bytes: self.total_bytes,
        }
    }
}

// --- the grammar ----------------------------------------------------------------

/// The bytes from `off` on start with something that is very likely an update.
pub open spec fn plausible_at(b: Seq<u8>, off: int) -> bool {
    let h = IntelHeader::at(b, off);
    &&& 0 <= off
    &&& off + HEADER_SIZE <= b.len()
    &&& h.header_type == HEADER_TYPE_MICROCODE || h.header_type == HEADER_TYPE_IFS
    &&& h.loader_revision == LOADER_REVISION
    &&& MIN_UPDATE_SIZE <= h.total() <= b.len() - off
    &&& h.data() + HEADER_SIZE <= h.total()
}

/// The first plausible update at `off`, `off + 4`, and so on.
pub open spec fn next_plausible(b: Seq<u8>, off: int) -> Option<int>
    decreases b.len() - off,
{
    if off < 0 || off + HEADER_SIZE > b.len() {
        None
    } else if plausible_at(b, off) {
        Some(off)
    } else {
        next_plausible(b, off + 4)
    }
}

/// `n` rounded up to a multiple of four.
pub open spec fn round_up4(n: int) -> int {
    (n + 3) / 4 * 4
}

/// The signatures of the extended table of an entry. A table that does not
/// fit its entry yields none; one over the limit is refused.
pub open spec fn extended_of(entry: Seq<u8>, h: IntelHeader, limits: Limits) -> Result<
    Seq<IntelExtendedSignature>,
    IntelFault,
> {
    match h.table_offset() {
        None => Ok(Seq::empty()),
        Some(off) => {
            let count = le32(entry, off as int);
            if off + EXTENDED_TABLE_HEADER_SIZE > entry.len() || count == 0 {
                Ok(Seq::empty())
            } else if count > limits.max_signatures_per_patch {
                Err(IntelFault::LimitExceeded("extended signature count"@))
            } else if off + table_size(count as nat) > entry.len() {
                Ok(Seq::empty())
            } else {
                Ok(
                    Seq::new(
                        count as nat,
                        |i: int|
                            IntelExtendedSignature::at(
                                entry,
                                off + EXTENDED_TABLE_HEADER_SIZE + i * EXTENDED_SIGNATURE_SIZE,
                            ),
                    ),
                )
            }
        },
    }
}

/// The update at `off` fits into what is left of the bundle.
pub open spec fn fits(b: Seq<u8>, off: int, limits: Limits) -> bool {
    let total = IntelHeader::at(b, off).total();
    HEADER_SIZE <= total <= b.len() - off && total <= limits.max_patch_bytes
}

/// The entry at `off`, given its extended signatures.
pub open spec fn entry_at(b: Seq<u8>, off: int, ext: Seq<IntelExtendedSignature>) -> EntryModel {
    let h = IntelHeader::at(b, off);
    let body = b.subrange(off, off + h.total());
    EntryModel {
        header: h,
        extended_signatures: ext,
        offset: off as u64,
        size: h.total(),
        report: entry_report(body, h, ext, off),
        sha256: sha256_of(body),
    }
}

/// The entry at `off`; in strict mode an entry with errors is refused.
#[verifier::opaque]
pub open spec fn checked_entry(b: Seq<u8>, off: int, mode: IntelValidationMode, limits: Limits) -> Result<
    EntryModel,
    IntelFault,
> {
    let h = IntelHeader::at(b, off);
    match extended_of(b.subrange(off, off + h.total()), h, limits) {
        Err(e) => Err(e),
        Ok(ext) => {
            let entry = entry_at(b, off, ext);
            if mode == IntelValidationMode::Strict && any_error(entry.report) {
                Err(
                    IntelFault::Malformed { offset: off, reason: first_error_message(entry.report)->0 },
                )
            } else {
                Ok(entry)
            }
        },
    }
}

pub open spec fn skipped(off: int, next: int) -> FindingModel {
    finding(
        FindingCode::TrailingGarbage,
        off,
        "skipped "@ + dec((next - off) as nat) + " unparseable bytes"@,
    )
}

/// What a bundle holds from `off` on, behind the entries and findings so far.
pub open spec fn bundle_from(
    b: Seq<u8>,
    off: int,
    mode: IntelValidationMode,
    limits: Limits,
    entries: Seq<EntryModel>,
    report: Seq<FindingModel>,
) -> Result<(Seq<EntryModel>, Seq<FindingModel>), IntelFault>
    decreases b.len() - off,
{
    let strict = mode == IntelValidationMode::Strict;
    let left = b.len() - off;
    let h = IntelHeader::at(b, off);
    if off < 0 || left <= 0 {
        Ok((entries, report))
    } else if left < HEADER_SIZE {
        if zero_from(b, off) {
            Ok((entries, report))
        } else {
            Ok(
                (
                    entries,
                    report.push(
                        finding(
                            FindingCode::TrailingGarbage,
                            off,
                            ""@ + dec(left as nat) + " trailing bytes after the last microcode entry"@,
                        ),
                    ),
                ),
            )
        }
    } else if !fits(b, off, limits) {
        if strict {
            Err(
                IntelFault::Malformed {
                    offset: off,
                    reason: "declared total size "@ + dec(h.total() as nat) + " does not fit in "@ + dec(
                        left as nat,
                    ) + " remaining bytes"@,
                },
            )
        } else {
            match next_plausible(b, round_up4(off + 4)) {
                Some(next) => if off < next < b.len() {
                    bundle_from(b, next, mode, limits, entries, report.push(skipped(off, next)))
                } else {
                    Ok((entries, report))
                },
                None => Ok(
                    (
                        entries,
                        report.push(
                            finding(
                                FindingCode::TrailingGarbage,
                                off,
                                "no further microcode entries found"@,
                            ),
                        ),
                    ),
                ),
            }
        }
    } else {
        match checked_entry(b, off, mode, limits) {
            Err(e) => Err(e),
            Ok(entry) => if entries.len() + 1 > limits.max_patches {
                Err(IntelFault::LimitExceeded("too many microcode entries"@))
            } else {
                bundle_from(b, off + h.total(), mode, limits, entries.push(entry), report)
            },
        }
    }
}

/// What parsing a bundle yields.
pub open spec fn bundle_of(b: Seq<u8>, mode: IntelValidationMode, limits: Limits) -> Result<
    BundleModel,
    IntelFault,
> {
    if b.len() > limits.max_blob_bytes {
        Err(IntelFault::LimitExceeded("blob larger than max_blob_bytes"@))
    } else {
        match bundle_from(b, 0, mode, limits, Seq::empty(), Seq::empty()) {
            Err(e) => Err(e),
            Ok((entries, report)) => if entries.len() == 0 {
                Err(IntelFault::NotIntelFormat)
            } else {
                Ok(BundleModel { entries, report, total_bytes: b.len() as u64 })
            },
        }
    }
}

// --- parsing --------------------------------------------------------------------

fn parse_extended_table(entry: &[u8], header: &IntelHeader, limits: &Limits) -> (r: Result<
    Vec<IntelExtendedSignature>,
    IntelError,
>)
    ensures
        match r {
            Ok(v) => extended_of(entry@, *header, *limits) == Ok::<_, IntelFault>(v@),
            Err(e) => extended_of(entry@, *header, *limits) == Err::<
                Seq<IntelExtendedSignature>,
                IntelFault,
            >(e@),
        },
        r matches Ok(v) ==> v@.len() == 0 || table_size(v@.len()) <= entry@.len(),
{
    let none: Vec<IntelExtendedSignature> = Vec::new();
    assert(none@ =~= Seq::empty());
    let off: usize = match header.extended_table_offset() {
        Some(off) => off as usize,
        None => {
            return Ok(none);
        },
    };
    let n: usize = entry.len();
    if off > n {
        return Ok(none);
    }
    let table = vstd::slice::slice_subrange(entry, off, n);
    let raw_hdr = match RawExtendedTableHeader::read_from_prefix(table) {
        Some(raw) => raw,
        None => {
            return Ok(none);
        },
    };
    let count = raw_hdr.declared_count();
    proof {
        lemma_le32_part(table@, 0, 20);
        lemma_le32_part(entry@, off as int, n as int);
    }
    if count == 0 {
        return Ok(none);
    }
    if count > limits.max_signatures_per_patch {
        return Err(IntelError::LimitExceeded("extended signature count"));
    }
    let needed: u64 = EXTENDED_TABLE_HEADER_SIZE as u64 + (count as u64) * (
    EXTENDED_SIGNATURE_SIZE as u64);
    if (table.len() as u64) < needed {
        // Declared count does not fit. Report via validation, return nothing.
        return Ok(none);
    }
    let mut out: Vec<IntelExtendedSignature> = Vec::new();
    let mut i: u32 = 0;
    while i < count
        invariant
            i <= count,
            table@ == entry@.subrange(off as int, n as int),
            off <= n == entry@.len(),
            table@.len() >= EXTENDED_TABLE_HEADER_SIZE + count * EXTENDED_SIGNATURE_SIZE,
            out@.len() == i,
            forall|k: int|
                0 <= k < i ==> #[trigger] out@[k] == IntelExtendedSignature::at(
                    entry@,
                    off + EXTENDED_TABLE_HEADER_SIZE + k * EXTENDED_SIGNATURE_SIZE,
                ),
        decreases count - i,
    {
        let len: usize = table.len();
        assert(i * 12 + 12 <= count * 12);
        let start: usize = EXTENDED_TABLE_HEADER_SIZE + (i as usize) * EXTENDED_SIGNATURE_SIZE;
        let slice = vstd::slice::slice_subrange(table, start, start + EXTENDED_SIGNATURE_SIZE);
        match RawExtendedSignature::read_from_prefix(slice) {
            Some(raw) => {
                let e = IntelExtendedSignature::from_raw(&raw);
                proof {
                    assert(slice@.take(12) =~= slice@);
                    assert(e == IntelExtendedSignature::at(slice@, 0));
                    assert(slice@ =~= entry@.subrange(off + start, off + start + 12));
                    lemma_le32_part(entry@, off + start, off + start + 12);
                    assert(IntelExtendedSignature::at(slice@, 0) == IntelExtendedSignature::at(
                        entry@,
                        off + start,
                    ));
                }
                out.push(e);
            },
            None => {
                assert(false);
            },
        }
        i = i + 1;
    }
    assert(out@ =~= extended_of(entry@, *header, *limits)->Ok_0);
    Ok(out)
}

/// Parses the entry at `cursor`, whose header is already known to fit.
fn parse_entry(
    bytes: &[u8],
    cursor: usize,
    header: &IntelHeader,
    mode: IntelValidationMode,
    limits: &Limits,
) -> (r: Result<IntelEntry, IntelError>)
    requires
        *header == IntelHeader::at(bytes@, cursor as int),
        fits(bytes@, cursor as int, *limits),
    ensures
        match r {
            Ok(entry) => checked_entry(bytes@, cursor as int, mode, *limits) == Ok::<_, IntelFault>(
                entry@,
            ),
            Err(e) => checked_entry(bytes@, cursor as int, mode, *limits) == Err::<EntryModel, _>(e@),
        },
{
    reveal(checked_entry);
    let n: usize = bytes.len();
    let total: usize = header.total_size() as usize;
    assert(cursor + total <= n);
    let entry_bytes = vstd::slice::slice_subrange(bytes, cursor, cursor + total);
    let extended = match parse_extended_table(entry_bytes, header, limits) {
        Ok(v) => v,
        Err(e) => {
            return Err(e);
        },
    };
    let report = validate_entry(entry_bytes, header, extended.as_slice(), mode, cursor as u64);
    let digest = sha256(entry_bytes);
    let entry = IntelEntry {
        header: *header,
        extended_signatures: extended,
        offset: cursor as u64,
        size: header.total_size(),
        report,
        sha256: digest,
    };
    assert(entry@ =~= entry_at(bytes@, cursor as int, extended@));
    if mode == IntelValidationMode::Strict && entry.report.has_errors() {
        proof {
            law_errors_have_a_message(entry@.report);
        }
        let reason = match entry.report.first_error() {
            Some(m) => m,
            None => "structural error".to_owned(),
        };
        return Err(IntelError::Malformed { offset: cursor as u64, reason });
    }
    Ok(entry)
}

/// Resynchronisation helper mirroring `intel_ucode_scan_for_microcode()`.
///
/// Scans forward on 4-byte boundaries for something that plausibly starts a
/// microcode update. Returns the offset, or `None` if nothing was found.
pub fn scan_for_microcode(bytes: &[u8], from: usize) -> (r: Option<usize>)
    requires
        from + 3 <= usize::MAX,
    ensures
        match r {
            Some(off) => next_plausible(bytes@, round_up4(from as int)) == Some(off as int) && from
                <= off && off + HEADER_SIZE <= bytes@.len(),
            None => next_plausible(bytes@, round_up4(from as int)) is None,
        },
{
    let n: usize = bytes.len();
    let mut off: usize = (from + 3) / 4 * 4;
    let ghost first = off as int;
    while off <= n && n - off >= HEADER_SIZE
        invariant
            from <= off,
            first == round_up4(from as int),
            n == bytes@.len(),
            next_plausible(bytes@, first) == next_plausible(bytes@, off as int),
        decreases n - off,
    {
        let window = vstd::slice::slice_subrange(bytes, off, n);
        proof {
            lemma_header_skip(bytes@, off as int, n as int);
        }
        if IntelBundle::looks_like_intel(window) {
            return Some(off);
        }
        off = off + 4;
    }
    None
}

impl IntelBundle {
    /// Parse a bundle from a byte slice.
    ///
    /// Intel bundles have no container header: they are simply updates laid
    /// end to end. We therefore validate each entry as we go and stop at the
    /// first thing that cannot be an update.
    pub fn parse(bytes: &[u8], mode: IntelValidationMode, limits: &Limits) -> (r: Result<
        Self,
        IntelError,
    >)
        ensures
            match r {
                Ok(bundle) => bundle_of(bytes@, mode, *limits) == Ok::<_, IntelFault>(bundle@),
                Err(e) => bundle_of(bytes@, mode, *limits) == Err::<BundleModel, _>(e@),
            },
    {
        let n: usize = bytes.len();
        if n as u64 > limits.max_blob_bytes {
            return Err(IntelError::LimitExceeded("blob larger than max_blob_bytes"));
        }
        let mut entries: Vec<IntelEntry> = Vec::new();
        let mut report = ValidationReport::default();
        let mut cursor: usize = 0;
        assert(entries_view(entries@) =~= Seq::empty());
        let ghost all = bundle_from(bytes@, 0, mode, *limits, Seq::empty(), Seq::empty());
        let mut done = false;
        while cursor < n && !done
            invariant
                n == bytes@.len(),
                n <= limits.max_blob_bytes,
                cursor <= n,
                bundle_of(bytes@, mode, *limits) == match all {
                    Err(e) => Err(e),
                    Ok((entries, report)) => if entries.len() == 0 {
                        Err(IntelFault::NotIntelFormat)
                    } else {
                        Ok(BundleModel { entries, report, total_bytes: n as u64 })
                    },
                },
                !done ==> all == bundle_from(
                    bytes@,
                    cursor as int,
                    mode,
                    *limits,
                    entries_view(entries@),
                    report@,
                ),
                done ==> all == Ok::<_, IntelFault>((entries_view(entries@), report@)),
            decreases n - cursor, if done { 0int } else { 1 },
        {
            let remaining: usize = n - cursor;
            if remaining < HEADER_SIZE {
                if !all_zero_from(bytes, cursor) {
                    report.push(
                        Finding::new(
                            FindingCode::TrailingGarbage,
                            cursor as u64,
                            around_dec(
                                "",
                                remaining as u64,
                                " trailing bytes after the last microcode entry",
                            ).as_str(),
                        ),
                    );
                }
                done = true;
            } else {
                let slice = vstd::slice::slice_subrange(bytes, cursor, n);
                proof {
                    lemma_header_skip(bytes@, cursor as int, n as int);
                }
                let header = match IntelHeader::parse(slice) {
                    Ok(h) => h,
                    Err(e) => {
                        assert(false);
                        return Err(e);
                    },
                };
                assert(header == IntelHeader::at(bytes@, cursor as int));
                let total32 = header.total_size();
                let total: usize = total32 as usize;
                if total < HEADER_SIZE || total > remaining || total32 > limits.max_patch_bytes {
                    // Not a plausible entry. In strict mode this is fatal; in
                    // recovery mode we try to resynchronise.
                    assert(!fits(bytes@, cursor as int, *limits));
                    if mode == IntelValidationMode::Strict {
                        let mut reason = around_dec(
                            "declared total size ",
                            total as u64,
                            " does not fit in ",
                        );
                        reason.append(dec_text(remaining as u64).as_str());
                        reason.append(" remaining bytes");
                        return Err(IntelError::Malformed { offset: cursor as u64, reason });
                    }
                    match scan_for_microcode(bytes, cursor + 4) {
                        Some(next) => {
                            report.push(
                                Finding::new(
                                    FindingCode::TrailingGarbage,
                                    cursor as u64,
                                    around_dec(
                                        "skipped ",
                                        (next - cursor) as u64,
                                        " unparseable bytes",
                                    ).as_str(),
                                ),
                            );
                            cursor = next;
                        },
                        None => {
                            report.push(
                                Finding::new(
                                    FindingCode::TrailingGarbage,
                                    cursor as u64,
                                    "no further microcode entries found",
                                ),
                            );
                            done = true;
                        },
                    }
                } else {
                    assert(fits(bytes@, cursor as int, *limits));
                    let entry = match parse_entry(bytes, cursor, &header, mode, limits) {
                        Ok(entry) => entry,
                        Err(e) => {
                            return Err(e);
                        },
                    };
                    let ghost before = entries@;
                    entries.push(entry);
                    assert(entries_view(entries@) =~= entries_view(before).push(entry@));
                    if entries.len() as u64 > limits.max_patches as u64 {
                        return Err(IntelError::LimitExceeded("too many microcode entries"));
                    }
                    cursor = cursor + total;
                }
            }
        }
        if entries.len() == 0 {
            return Err(IntelError::NotIntelFormat);
        }
        Ok(IntelBundle { entries, report, total_bytes: n as u64 })
    }

    /// Quick, allocation-free sniff used by format auto-detection.
    pub fn looks_like_intel(bytes: &[u8]) -> (r: bool)
        ensures
            r == plausible_at(bytes@, 0),
    {
        let header = match IntelHeader::parse(bytes) {
            Ok(h) => h,
            Err(_) => {
                return false;
            },
        };
        let total = header.total_size();
        let hdr_ok = header.header_type == HEADER_TYPE_MICROCODE || header.header_type
            == HEADER_TYPE_IFS;
        hdr_ok && header.loader_revision == LOADER_REVISION && total as usize >= MIN_UPDATE_SIZE
            && total as u64 <= bytes.len() as u64 && header.data_size() as u64 + HEADER_SIZE as u64
            <= total as u64
    }
}

// --- laws -----------------------------------------------------------------------

/// The end of the last entry.
pub open spec fn end_of(entries: Seq<EntryModel>) -> int {
    if entries.len() == 0 {
        0
    } else {
        entries.last().offset + entries.last().size
    }
}

/// The entry describes the bytes at its offset, all of which are there.
pub open spec fn in_place(b: Seq<u8>, e: EntryModel, limits: Limits) -> bool {
    let body = b.subrange(e.offset as int, e.offset + e.size);
    &&& e.offset + e.size <= b.len()
    &&& HEADER_SIZE <= e.size <= limits.max_patch_bytes
    &&& e.header == IntelHeader::at(b, e.offset as int)
    &&& e.size == e.header.total()
    &&& e.report == entry_report(body, e.header, e.extended_signatures, e.offset as int)
    &&& e.sha256 == sha256_of(body)
    &&& extended_of(body, e.header, limits) == Ok::<_, IntelFault>(e.extended_signatures)
}

/// Every entry is in place and behind the one before it; in strict mode they
/// leave no gap and have no errors.
pub open spec fn laid_out(
    b: Seq<u8>,
    entries: Seq<EntryModel>,
    mode: IntelValidationMode,
    limits: Limits,
) -> bool {
    let strict = mode == IntelValidationMode::Strict;
    forall|i: int|
        0 <= i < entries.len() ==> {
            let e = #[trigger] entries[i];
            &&& in_place(b, e, limits)
            &&& end_of(entries.take(i)) <= e.offset
            &&& strict ==> end_of(entries.take(i)) == e.offset && !any_error(e.report)
        }
}

proof fn lemma_laid_out_push(
    b: Seq<u8>,
    off: int,
    entries: Seq<EntryModel>,
    mode: IntelValidationMode,
    limits: Limits,
)
    requires
        laid_out(b, entries, mode, limits),
        0 <= off,
        end_of(entries) <= off,
        mode == IntelValidationMode::Strict ==> end_of(entries) == off,
        fits(b, off, limits),
        b.len() <= u64::MAX,
        checked_entry(b, off, mode, limits) is Ok,
    ensures
        laid_out(b, entries.push(checked_entry(b, off, mode, limits)->Ok_0), mode, limits),
        end_of(entries.push(checked_entry(b, off, mode, limits)->Ok_0)) == off + IntelHeader::at(
            b,
            off,
        ).total(),
{
    reveal(checked_entry);
    let entry = checked_entry(b, off, mode, limits)->Ok_0;
    let more = entries.push(entry);
    assert(in_place(b, entry, limits));
    assert forall|i: int| 0 <= i < more.len() implies {
        let e = #[trigger] more[i];
        &&& in_place(b, e, limits)
        &&& end_of(more.take(i)) <= e.offset
        &&& mode == IntelValidationMode::Strict ==> end_of(more.take(i)) == e.offset && !any_error(e.report)
    } by {
        assert(more.take(i) =~= entries.take(i));
        if i < entries.len() {
            assert(more[i] == entries[i]);
        } else {
            assert(entries.take(i) =~= entries);
        }
    }
}

proof fn lemma_next_plausible(b: Seq<u8>, off: int)
    requires
        next_plausible(b, off) is Some,
    ensures
        off <= next_plausible(b, off)->0,
        plausible_at(b, next_plausible(b, off)->0),
    decreases b.len() - off,
{
    if !(off < 0 || off + HEADER_SIZE > b.len()) && !plausible_at(b, off) {
        lemma_next_plausible(b, off + 4);
    }
}

proof fn lemma_bundle_from(
    b: Seq<u8>,
    off: int,
    mode: IntelValidationMode,
    limits: Limits,
    entries: Seq<EntryModel>,
    report: Seq<FindingModel>,
)
    requires
        b.len() <= u64::MAX,
        0 <= off,
        laid_out(b, entries, mode, limits),
        end_of(entries) <= off,
        mode == IntelValidationMode::Strict ==> end_of(entries) == off,
        entries.len() <= limits.max_patches,
    ensures
        bundle_from(b, off, mode, limits, entries, report) matches Ok((all, _)) ==> {
            &&& laid_out(b, all, mode, limits)
            &&& all.len() <= limits.max_patches
            &&& mode == IntelValidationMode::Strict ==> b.len() - end_of(all) < HEADER_SIZE
        },
    decreases b.len() - off,
{
    let left = b.len() - off;
    let h = IntelHeader::at(b, off);
    if left < HEADER_SIZE {
    } else if !fits(b, off, limits) {
        if mode != IntelValidationMode::Strict {
            if let Some(next) = next_plausible(b, round_up4(off + 4)) {
                lemma_next_plausible(b, round_up4(off + 4));
                lemma_bundle_from(b, next, mode, limits, entries, report.push(skipped(off, next)));
            }
        }
    } else if let Ok(entry) = checked_entry(b, off, mode, limits) {
        if entries.len() + 1 <= limits.max_patches {
            lemma_laid_out_push(b, off, entries, mode, limits);
            lemma_bundle_from(b, off + h.total(), mode, limits, entries.push(entry), report);
        }
    }
}

/// A parsed bundle has at least one entry and no more than the limit. Every
/// entry describes the bytes at its offset, and no two overlap. In strict mode
/// the entries cover the bundle without a gap up to fewer bytes than a header,
/// and none has an error.
pub proof fn law_bundle_layout(b: Seq<u8>, mode: IntelValidationMode, limits: Limits)
    requires
        bundle_of(b, mode, limits) is Ok,
    ensures
        ({
            let entries = bundle_of(b, mode, limits)->Ok_0.entries;
            &&& 1 <= entries.len() <= limits.max_patches
            &&& laid_out(b, entries, mode, limits)
            &&& mode == IntelValidationMode::Strict ==> b.len() - end_of(entries) < HEADER_SIZE
        }),
{
    lemma_bundle_from(b, 0, mode, limits, Seq::empty(), Seq::empty());
}

proof fn lemma_pairs_first(h: IntelHeader, ext: Seq<IntelExtendedSignature>)
    ensures
        pairs(h, ext).len() >= 1,
        pairs(h, ext)[0].primary,
        pairs(h, ext)[0].signature == h.signature,
        pairs(h, ext)[0].platform_mask == h.platform_mask,
    decreases ext.len(),
{
    if ext.len() > 0 {
        lemma_pairs_first(h, ext.drop_last());
    }
}

/// The pairs of an entry start with the primary one, name every pair of the
/// header and the extended table, and none twice.
pub proof fn law_pairs_are_complete_and_distinct(h: IntelHeader, ext: Seq<IntelExtendedSignature>)
    ensures
        pairs(h, ext).len() >= 1,
        pairs(h, ext)[0].primary,
        pairs(h, ext)[0].signature == h.signature,
        pairs(h, ext)[0].platform_mask == h.platform_mask,
        forall|i: int| 0 <= i < ext.len() ==> has_pair(pairs(h, ext), #[trigger] ext[i]),
        forall|i: int, j: int|
            0 <= i < j < pairs(h, ext).len() ==> !((#[trigger] pairs(h, ext)[i]).signature == (
            #[trigger] pairs(h, ext)[j]).signature && pairs(h, ext)[i].platform_mask == pairs(
                h,
                ext,
            )[j].platform_mask),
    decreases ext.len(),
{
    lemma_pairs_first(h, ext);
    if ext.len() > 0 {
        law_pairs_are_complete_and_distinct(h, ext.drop_last());
        let front = pairs(h, ext.drop_last());
        let all = pairs(h, ext);
        assert forall|i: int| 0 <= i < ext.len() implies has_pair(all, #[trigger] ext[i]) by {
            if i < ext.len() - 1 {
                assert(ext[i] == ext.drop_last()[i]);
                let j = choose|j: int|
                    0 <= j < front.len() && (#[trigger] front[j]).signature == ext[i].signature
                        && front[j].platform_mask == ext[i].platform_mask;
                assert(all[j] == front[j]);
            } else if !has_pair(front, ext.last()) {
                assert(all[all.len() - 1].signature == ext[i].signature);
            }
        }
    }
}

} // verus!
