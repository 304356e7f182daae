//! Structural and semantic validation of one Intel update.

use vstd::prelude::*;
use crate::bytes::{law_le32_round_trip, le32, le32_bytes, lemma_le32_agree};
use crate::intel::header::{
    dword_sum, dword_sum_of, dword_total, IntelExtendedSignature, IntelHeader, EXTENDED_SIGNATURE_SIZE,
    EXTENDED_TABLE_HEADER_SIZE, HEADER_SIZE, HEADER_TYPE_IFS, HEADER_TYPE_MICROCODE, LOADER_REVISION,
    MIN_UPDATE_SIZE,
};
use crate::model::date::UcodeDate;
use crate::model::validate::{finding, Finding, FindingCode, FindingModel, Severity, ValidationReport};
use crate::number::{around_dec, around_hex8, dec, dec_text, hex, hex_text};

verus! {

/// Strictness of the Intel parser.
///
/// These are deliberately two distinct modes rather than a boolean knob buried
/// in a config struct: recovery mode changes what the parser is *allowed to
/// believe*, and that must be visible at every call site.
#[derive(Debug, Clone, Copy, PartialEq, Eq, Structural)]
pub enum IntelValidationMode {
    /// Reject anything that deviates from the documented format. This is the
    /// only mode permitted when producing a boot artifact.
    Strict,
    /// Report deviations as findings and keep going. For forensics and for
    /// inspecting damaged dumps. Never use the output for loading.
    Recovery,
}

impl IntelValidationMode {
    pub fn is_strict(self) -> (r: bool)
        ensures
            r == (self == IntelValidationMode::Strict),
    {
        match self {
            IntelValidationMode::Strict => true,
            IntelValidationMode::Recovery => false,
        }
    }
}

// --- what is reported -----------------------------------------------------------

/// One finding, if the condition holds.
pub open spec fn given(condition: bool, f: FindingModel) -> Seq<FindingModel> {
    if condition {
        seq![f]
    } else {
        Seq::empty()
    }
}

/// Findings on the header type and the loader revision.
pub open spec fn type_findings(h: IntelHeader, base: int) -> Seq<FindingModel> {
    given(
        h.header_type == HEADER_TYPE_IFS,
        finding(
            FindingCode::IfsTestImage,
            base,
            "header type 2: In-Field Scan test image, not loadable microcode"@,
        ),
    ) + given(
        h.header_type != HEADER_TYPE_IFS && h.header_type != HEADER_TYPE_MICROCODE,
        finding(
            FindingCode::UnsupportedHeaderVersion,
            base,
            "unsupported header type "@ + dec(h.header_type as nat) + ""@,
        ),
    ) + given(
        h.loader_revision != LOADER_REVISION,
        finding(
            FindingCode::UnsupportedLoaderVersion,
            base + 0x14,
            "loader revision "@ + dec(h.loader_revision as nat) + " is not 1"@,
        ),
    )
}

/// Findings on the declared sizes alone.
pub open spec fn size_findings(h: IntelHeader, base: int) -> Seq<FindingModel> {
    let total = h.total();
    let data = h.data();
    given(
        total < MIN_UPDATE_SIZE,
        finding(
            FindingCode::BadTotalSize,
            base + 0x20,
            "total size "@ + dec(total as nat) + " is below the 1024-byte minimum"@,
        ),
    ) + given(
        total % 1024 != 0,
        finding(
            FindingCode::TotalSizeNotAligned,
            base + 0x20,
            "total size "@ + dec(total as nat) + " is not a multiple of 1024"@,
        ),
    ) + given(
        data % 4 != 0,
        finding(
            FindingCode::BadDataSize,
            base + 0x1c,
            "data size "@ + dec(data as nat) + " is not a multiple of 4"@,
        ),
    ) + given(
        HEADER_SIZE + data > total,
        finding(
            FindingCode::BadDataSize,
            base + 0x1c,
            "header (48) + data ("@ + dec(data as nat) + ") exceeds total size ("@ + dec(total as nat)
                + ")"@,
        ),
    )
}

/// The finding on a slice that has not the declared size.
pub open spec fn truncation(len: int, h: IntelHeader, base: int) -> FindingModel {
    finding(
        FindingCode::Truncated,
        base,
        "entry slice is "@ + dec(len as nat) + " bytes but header declares "@ + dec(h.total() as nat),
    )
}

/// Findings on the metadata size and the reserved field.
pub open spec fn field_findings(h: IntelHeader, base: int) -> Seq<FindingModel> {
    given(
        h.metadata_size > h.data(),
        finding(
            FindingCode::UnknownMetadataSection,
            base + 0x24,
            "metadata size "@ + dec(h.metadata_size as nat) + " exceeds data size "@ + dec(h.data() as nat),
        ),
    ) + given(
        h.reserved != 0,
        finding(
            FindingCode::ReservedFieldNonZero,
            base + 0x2c,
            "reserved dword is 0x"@ + hex(h.reserved as nat, 8) + ""@,
        ),
    )
}

/// The sum of the dwords of header and data. It does not cover the extended
/// table, which has a checksum of its own.
pub open spec fn primary_sum_of(entry: Seq<u8>, h: IntelHeader) -> u32 {
    dword_sum_of(
        if HEADER_SIZE + h.data() <= entry.len() {
            entry.take(HEADER_SIZE + h.data())
        } else {
            entry
        },
    )
}

pub open spec fn checksum_findings(entry: Seq<u8>, h: IntelHeader, base: int) -> Seq<FindingModel> {
    given(
        primary_sum_of(entry, h) != 0,
        finding(
            FindingCode::BadChecksum,
            base + 0x10,
            "header+data dword sum is 0x"@ + hex(primary_sum_of(entry, h) as nat, 8) + ", expected 0"@,
        ),
    )
}

/// Signature, platform mask and checksum, summed as dwords.
pub open spec fn triple(signature: u32, mask: u32, checksum: u32) -> int {
    (signature + mask + checksum) % 0x1_0000_0000
}

/// Putting the extended triple in the place of the primary one keeps the
/// dword sum of header and data at zero.
pub open spec fn balanced(h: IntelHeader, e: IntelExtendedSignature, primary_sum: u32) -> bool {
    (triple(e.signature.0, e.platform_mask.0, e.checksum) + primary_sum) % 0x1_0000_0000 == triple(
        h.signature.0,
        h.platform_mask.0,
        h.checksum,
    )
}

/// Findings on the checksums of the first `n` extended signatures, the first
/// of which is at `start`.
pub open spec fn balance_findings(
    h: IntelHeader,
    ext: Seq<IntelExtendedSignature>,
    primary_sum: u32,
    start: int,
    n: nat,
) -> Seq<FindingModel>
    decreases n,
{
    if n == 0 {
        Seq::empty()
    } else {
        let i = n - 1;
        let e = ext[i];
        balance_findings(h, ext, primary_sum, start, i as nat) + given(
            !balanced(h, e, primary_sum),
            (FindingModel {
                length: Some(EXTENDED_SIGNATURE_SIZE as u32),
                ..finding(
                    FindingCode::BadExtendedSignatureChecksum,
                    start + i * EXTENDED_SIGNATURE_SIZE,
                    "extended signature "@ + dec(i as nat) + " (sig "@ + e.signature.signature_text()
                        + ", pf "@ + e.platform_mask.mask_text() + ") has checksum 0x"@ + hex(
                        e.checksum as nat,
                        8,
                    ) + ", which does not balance the update"@,
                )
            }),
        )
    }
}

/// The pair of the extended signature `i` is that of the primary header or of
/// an earlier extended signature.
pub open spec fn repeated(h: IntelHeader, ext: Seq<IntelExtendedSignature>, i: int) -> bool {
    ||| (ext[i].signature == h.signature && ext[i].platform_mask == h.platform_mask)
    ||| exists|j: int|
        0 <= j < i && (#[trigger] ext[j]).signature == ext[i].signature && ext[j].platform_mask
            == ext[i].platform_mask
}

/// Findings on repeated pairs among the first `n` extended signatures.
pub open spec fn repeat_findings(
    h: IntelHeader,
    ext: Seq<IntelExtendedSignature>,
    start: int,
    n: nat,
) -> Seq<FindingModel>
    decreases n,
{
    if n == 0 {
        Seq::empty()
    } else {
        let i = n - 1;
        repeat_findings(h, ext, start, i as nat) + given(
            repeated(h, ext, i),
            finding(
                FindingCode::DuplicateSignature,
                start + i * EXTENDED_SIGNATURE_SIZE,
                "signature "@ + ext[i].signature.signature_text() + " / platform mask "@
                    + ext[i].platform_mask.mask_text() + " appears more than once"@,
            ),
        )
    }
}

/// The size of an extended table with `n` signatures.
pub open spec fn table_size(n: nat) -> int {
    EXTENDED_TABLE_HEADER_SIZE + n * EXTENDED_SIGNATURE_SIZE
}

/// Findings on the extended signature table at `off`.
pub open spec fn table_findings(
    entry: Seq<u8>,
    h: IntelHeader,
    ext: Seq<IntelExtendedSignature>,
    off: int,
    base: int,
) -> Seq<FindingModel> {
    let avail = entry.len() - off;
    let size = table_size(ext.len());
    let sum = dword_sum_of(entry.subrange(off, off + size));
    let start = base + off + EXTENDED_TABLE_HEADER_SIZE;
    if size > avail {
        seq![
            finding(
                FindingCode::BadExtendedTable,
                base + off,
                "extended table needs "@ + dec(size as nat) + " bytes but only "@ + dec(avail as nat)
                    + " are available"@,
            ),
        ]
    } else {
        given(
            sum != 0,
            finding(
                FindingCode::BadExtendedTableChecksum,
                base + off + 4,
                "extended table dword sum is 0x"@ + hex(sum as nat, 8) + ", expected 0"@,
            ),
        ) + balance_findings(h, ext, primary_sum_of(entry, h), start, ext.len()) + repeat_findings(
            h,
            ext,
            start,
            ext.len(),
        )
    }
}

pub open spec fn date_findings(h: IntelHeader, base: int) -> Seq<FindingModel> {
    match UcodeDate::decode(h.date_raw) {
        None => seq![
            finding(
                FindingCode::NonBcdDate,
                base + 0x08,
                "date field 0x"@ + hex(h.date_raw as nat, 8) + " is not valid packed BCD"@,
            ),
        ],
        Some(d) => given(
            !d.plausible(),
            finding(
                FindingCode::ImplausibleDate,
                base + 0x08,
                "implausible release date "@ + d.date_text(),
            ),
        ),
    }
}

/// Findings on revision and signature.
pub open spec fn identity_findings(h: IntelHeader, base: int) -> Seq<FindingModel> {
    given(h.revision == 0, finding(FindingCode::ZeroRevision, base + 0x04, "revision is zero"@)) + given(
        h.revision >= 0x8000_0000,
        finding(
            FindingCode::HighBitRevision,
            base + 0x04,
            "revision 0x"@ + hex(h.revision as nat, 8)
                + " has bit 31 set; this usually marks a pre-production or special image. Note that iucode-tool orders such revisions as negative while the Linux loader compares them as unsigned."@,
        ),
    ) + given(
        h.signature.0 == 0,
        finding(FindingCode::EmptySignatureSet, base + 0x0c, "primary processor signature is zero"@),
    )
}

/// Everything that validation reports on an entry.
pub open spec fn entry_report(
    entry: Seq<u8>,
    h: IntelHeader,
    ext: Seq<IntelExtendedSignature>,
    base: int,
) -> Seq<FindingModel> {
    let declared = type_findings(h, base) + size_findings(h, base);
    if entry.len() != h.total() {
        declared.push(truncation(entry.len() as int, h, base))
    } else {
        declared + field_findings(h, base) + checksum_findings(entry, h, base) + (
        match h.table_offset() {
            Some(off) => table_findings(entry, h, ext, off as int, base),
            None => Seq::empty(),
        }) + date_findings(h, base) + identity_findings(h, base)
    }
}

// --- validation -----------------------------------------------------------------

fn check_type(r: &mut ValidationReport, h: &IntelHeader, base: u64)
    requires
        base + 0x2c <= u64::MAX,
    ensures
        final(r)@ == old(r)@ + type_findings(*h, base as int),
{
    if h.header_type == HEADER_TYPE_MICROCODE {
    } else if h.header_type == HEADER_TYPE_IFS {
        r.push(
            Finding::new(
                FindingCode::IfsTestImage,
                base,
                "header type 2: In-Field Scan test image, not loadable microcode",
            ),
        );
    } else {
        r.push(
            Finding::new(
                FindingCode::UnsupportedHeaderVersion,
                base,
                around_dec("unsupported header type ", h.header_type as u64, "").as_str(),
            ),
        );
    }
    if h.loader_revision != LOADER_REVISION {
        r.push(
            Finding::new(
                FindingCode::UnsupportedLoaderVersion,
                base + 0x14,
                around_dec("loader revision ", h.loader_revision as u64, " is not 1").as_str(),
            ),
        );
    }
    assert(r@ =~= old(r)@ + type_findings(*h, base as int));
}

fn check_sizes(r: &mut ValidationReport, h: &IntelHeader, mode: IntelValidationMode, base: u64)
    requires
        base + 0x2c <= u64::MAX,
    ensures
        final(r)@ == old(r)@ + size_findings(*h, base as int),
{
    let total = h.total_size();
    let data = h.data_size();
    if (total as usize) < MIN_UPDATE_SIZE {
        r.push(
            Finding::new(
                FindingCode::BadTotalSize,
                base + 0x20,
                around_dec("total size ", total as u64, " is below the 1024-byte minimum").as_str(),
            ),
        );
    }
    if total % 1024 != 0 {
        r.push(
            Finding::new(
                FindingCode::TotalSizeNotAligned,
                base + 0x20,
                around_dec("total size ", total as u64, " is not a multiple of 1024").as_str(),
            ).escalate(
                if mode.is_strict() {
                    Severity::Warning
                } else {
                    Severity::Info
                },
            ),
        );
    }
    if data % 4 != 0 {
        r.push(
            Finding::new(
                FindingCode::BadDataSize,
                base + 0x1c,
                around_dec("data size ", data as u64, " is not a multiple of 4").as_str(),
            ),
        );
    }
    if HEADER_SIZE as u64 + data as u64 > total as u64 {
        let mut m = around_dec("header (48) + data (", data as u64, ") exceeds total size (");
        m.append(dec_text(total as u64).as_str());
        m.append(")");
        r.push(Finding::new(FindingCode::BadDataSize, base + 0x1c, m.as_str()));
    }
    assert(r@ =~= old(r)@ + size_findings(*h, base as int));
}

fn check_fields(r: &mut ValidationReport, h: &IntelHeader, base: u64)
    requires
        base + 0x2c <= u64::MAX,
    ensures
        final(r)@ == old(r)@ + field_findings(*h, base as int),
{
    if h.metadata_size > h.data_size() {
        let mut m = around_dec("metadata size ", h.metadata_size as u64, " exceeds data size ");
        m.append(dec_text(h.data_size() as u64).as_str());
        r.push(Finding::new(FindingCode::UnknownMetadataSection, base + 0x24, m.as_str()));
    }
    if h.reserved != 0 {
        r.push(
            Finding::new(
                FindingCode::ReservedFieldNonZero,
                base + 0x2c,
                around_hex8("reserved dword is 0x", h.reserved, "").as_str(),
            ),
        );
    }
    assert(r@ =~= old(r)@ + field_findings(*h, base as int));
}

fn check_sum(r: &mut ValidationReport, entry: &[u8], h: &IntelHeader, base: u64) -> (sum: u32)
    requires
        base + 0x2c <= u64::MAX,
    ensures
        sum == primary_sum_of(entry@, *h),
        final(r)@ == old(r)@ + checksum_findings(entry@, *h, base as int),
{
    let data = h.data_size();
    let n: usize = entry.len();
    let sum = if HEADER_SIZE as u64 + data as u64 <= n as u64 {
        dword_sum(vstd::slice::slice_subrange(entry, 0, HEADER_SIZE + data as usize))
    } else {
        dword_sum(entry)
    };
    if sum != 0 {
        r.push(
            Finding::new(
                FindingCode::BadChecksum,
                base + 0x10,
                around_hex8("header+data dword sum is 0x", sum, ", expected 0").as_str(),
            ),
        );
    }
    assert(r@ =~= old(r)@ + checksum_findings(entry@, *h, base as int));
    sum
}

fn triple_sum(signature: u32, mask: u32, checksum: u32) -> (r: u32)
    ensures
        r == triple(signature, mask, checksum),
{
    signature.wrapping_add(mask).wrapping_add(checksum)
}

fn check_balance(
    r: &mut ValidationReport,
    h: &IntelHeader,
    ext: &[IntelExtendedSignature],
    primary_sum: u32,
    start: u64,
)
    requires
        start + ext@.len() * 12 <= u64::MAX,
    ensures
        final(r)@ == old(r)@ + balance_findings(*h, ext@, primary_sum, start as int, ext@.len()),
{
    let primary = triple_sum(h.signature.0, h.platform_mask.0, h.checksum);
    let mut i: usize = 0;
    while i < ext.len()
        invariant
            i <= ext@.len(),
            start + ext@.len() * 12 <= u64::MAX,
            primary == triple(h.signature.0, h.platform_mask.0, h.checksum),
            r@ =~= old(r)@ + balance_findings(*h, ext@, primary_sum, start as int, i as nat),
        decreases ext@.len() - i,
    {
        let e = ext[i];
        let sum = triple_sum(e.signature.0, e.platform_mask.0, e.checksum);
        // Account for a possibly non-zero primary sum in recovery mode.
        if sum.wrapping_add(primary_sum) != primary {
            let mut m = around_dec("extended signature ", i as u64, " (sig ");
            m.append(e.signature.to_string().as_str());
            m.append(", pf ");
            m.append(e.platform_mask.to_string().as_str());
            m.append(") has checksum 0x");
            m.append(hex_text(e.checksum as u64, 8).as_str());
            m.append(", which does not balance the update");
            r.push(
                Finding::new(
                    FindingCode::BadExtendedSignatureChecksum,
                    start + (i as u64) * (EXTENDED_SIGNATURE_SIZE as u64),
                    m.as_str(),
                ).with_length(EXTENDED_SIGNATURE_SIZE as u32),
            );
        }
        i = i + 1;
    }
}

fn is_repeated(h: &IntelHeader, ext: &[IntelExtendedSignature], i: usize) -> (r: bool)
    requires
        i < ext@.len(),
    ensures
        r == repeated(*h, ext@, i as int),
{
    let e = ext[i];
    if e.signature == h.signature && e.platform_mask == h.platform_mask {
        return true;
    }
    let mut j: usize = 0;
    while j < i
        invariant
            j <= i < ext@.len(),
            e == ext@[i as int],
            !(e.signature == h.signature && e.platform_mask == h.platform_mask),
            forall|k: int|
                0 <= k < j ==> !((#[trigger] ext@[k]).signature == e.signature && ext@[k].platform_mask
                    == e.platform_mask),
        decreases i - j,
    {
        if ext[j].signature == e.signature && ext[j].platform_mask == e.platform_mask {
            return true;
        }
        j = j + 1;
    }
    false
}

fn check_repeats(
    r: &mut ValidationReport,
    h: &IntelHeader,
    ext: &[IntelExtendedSignature],
    start: u64,
)
    requires
        start + ext@.len() * 12 <= u64::MAX,
    ensures
        final(r)@ == old(r)@ + repeat_findings(*h, ext@, start as int, ext@.len()),
{
    let mut i: usize = 0;
    while i < ext.len()
        invariant
            i <= ext@.len(),
            start + ext@.len() * 12 <= u64::MAX,
            r@ =~= old(r)@ + repeat_findings(*h, ext@, start as int, i as nat),
        decreases ext@.len() - i,
    {
        if is_repeated(h, ext, i) {
            let mut m = "signature ".to_owned();
            m.append(ext[i].signature.to_string().as_str());
            m.append(" / platform mask ");
            m.append(ext[i].platform_mask.to_string().as_str());
            m.append(" appears more than once");
            r.push(
                Finding::new(
                    FindingCode::DuplicateSignature,
                    start + (i as u64) * (EXTENDED_SIGNATURE_SIZE as u64),
                    m.as_str(),
                ),
            );
        }
        i = i + 1;
    }
}

fn check_table(
    r: &mut ValidationReport,
    entry: &[u8],
    h: &IntelHeader,
    ext: &[IntelExtendedSignature],
    off: u32,
    primary_sum: u32,
    base: u64,
)
    requires
        off + EXTENDED_TABLE_HEADER_SIZE <= entry@.len(),
        base + entry@.len() <= u64::MAX,
        table_size(ext@.len()) <= usize::MAX,
        primary_sum == primary_sum_of(entry@, *h),
    ensures
        final(r)@ == old(r)@ + table_findings(entry@, *h, ext@, off as int, base as int),
{
    let n: usize = entry.len();
    let at: usize = off as usize;
    let avail: usize = n - at;
    let size: usize = EXTENDED_TABLE_HEADER_SIZE + ext.len() * EXTENDED_SIGNATURE_SIZE;
    if size > avail {
        let mut m = around_dec("extended table needs ", size as u64, " bytes but only ");
        m.append(dec_text(avail as u64).as_str());
        m.append(" are available");
        r.push(Finding::new(FindingCode::BadExtendedTable, base + off as u64, m.as_str()));
    } else {
        let sum = dword_sum(vstd::slice::slice_subrange(entry, at, at + size));
        if sum != 0 {
            r.push(
                Finding::new(
                    FindingCode::BadExtendedTableChecksum,
                    base + off as u64 + 4,
                    around_hex8("extended table dword sum is 0x", sum, ", expected 0").as_str(),
                ),
            );
        }
        let ghost summed = r@;
        let start: u64 = base + off as u64 + EXTENDED_TABLE_HEADER_SIZE as u64;
        // Per Intel: replacing (sig, pf, cksum) in the primary header with the
        // extended triple must keep the total sum at zero. Since the primary
        // sum is already zero, the triples must sum equally.
        check_balance(r, h, ext, primary_sum, start);
        // Duplicate detection across the primary and extended signatures.
        check_repeats(r, h, ext, start);
    }
    assert(r@ =~= old(r)@ + table_findings(entry@, *h, ext@, off as int, base as int));
}

fn check_date(r: &mut ValidationReport, h: &IntelHeader, base: u64)
    requires
        base + 0x2c <= u64::MAX,
    ensures
        final(r)@ == old(r)@ + date_findings(*h, base as int),
{
    match UcodeDate::from_packed_bcd(h.date_raw) {
        None => {
            r.push(
                Finding::new(
                    FindingCode::NonBcdDate,
                    base + 0x08,
                    around_hex8("date field 0x", h.date_raw, " is not valid packed BCD").as_str(),
                ),
            );
        },
        Some(d) => {
            if !d.is_plausible() {
                let mut m = "implausible release date ".to_owned();
                m.append(d.to_string().as_str());
                r.push(Finding::new(FindingCode::ImplausibleDate, base + 0x08, m.as_str()));
            }
        },
    }
    assert(r@ =~= old(r)@ + date_findings(*h, base as int));
}

fn check_identity(r: &mut ValidationReport, h: &IntelHeader, base: u64)
    requires
        base + 0x2c <= u64::MAX,
    ensures
        final(r)@ == old(r)@ + identity_findings(*h, base as int),
{
    let revision = h.revision;
    assert((revision & 0x8000_0000 != 0) == (revision >= 0x8000_0000)) by (bit_vector);
    if revision == 0 {
        r.push(Finding::new(FindingCode::ZeroRevision, base + 0x04, "revision is zero"));
    }
    if revision & 0x8000_0000 != 0 {
        r.push(
            Finding::new(
                FindingCode::HighBitRevision,
                base + 0x04,
                around_hex8(
                    "revision 0x",
                    revision,
                    " has bit 31 set; this usually marks a pre-production or special image. Note that iucode-tool orders such revisions as negative while the Linux loader compares them as unsigned.",
                ).as_str(),
            ),
        );
    }
    if h.signature.0 == 0 {
        r.push(
            Finding::new(
                FindingCode::EmptySignatureSet,
                base + 0x0c,
                "primary processor signature is zero",
            ),
        );
    }
    assert(r@ =~= old(r)@ + identity_findings(*h, base as int));
}

/// Full structural + semantic validation of a single microcode entry.
///
/// `entry` must be exactly `header.total_size()` bytes long; `base` is the
/// entry's offset within the enclosing blob and is used to make every finding
/// point at an absolute position.
pub fn validate_entry(
    entry: &[u8],
    header: &IntelHeader,
    extended: &[IntelExtendedSignature],
    mode: IntelValidationMode,
    base: u64,
) -> (r: ValidationReport)
    requires
        base + 0x2c <= u64::MAX,
        base + entry@.len() <= u64::MAX,
        table_size(extended@.len()) <= usize::MAX,
    ensures
        r@ == entry_report(entry@, *header, extended@, base as int),
{
    let mut r = ValidationReport::default();
    check_type(&mut r, header, base);
    check_sizes(&mut r, header, mode, base);
    assert(r@ =~= type_findings(*header, base as int) + size_findings(*header, base as int));
    let total = header.total_size();
    if entry.len() as u64 != total as u64 {
        let mut m = around_dec("entry slice is ", entry.len() as u64, " bytes but header declares ");
        m.append(dec_text(total as u64).as_str());
        r.push(Finding::new(FindingCode::Truncated, base, m.as_str()));
        // Everything below needs a correctly sized slice.
        return r;
    }
    check_fields(&mut r, header, base);
    let primary_sum = check_sum(&mut r, entry, header, base);
    let ghost summed = r@;
    if let Some(off) = header.extended_table_offset() {
        check_table(&mut r, entry, header, extended, off, primary_sum, base);
    } else {
        assert(r@ =~= summed + Seq::<FindingModel>::empty());
    }
    check_date(&mut r, header, base);
    check_identity(&mut r, header, base);
    r
}

// --- laws -----------------------------------------------------------------------

/// `b` with the dword at `off` replaced.
pub open spec fn with_dword(b: Seq<u8>, off: int, v: u32) -> Seq<u8> {
    b.take(off) + le32_bytes(v) + b.skip(off + 4)
}

/// `entry` with the triple of an extended signature in the place of the
/// primary signature, platform mask and checksum.
pub open spec fn substituted(entry: Seq<u8>, e: IntelExtendedSignature) -> Seq<u8> {
    with_dword(
        with_dword(with_dword(entry, 12, e.signature.0), 16, e.checksum),
        24,
        e.platform_mask.0,
    )
}

proof fn lemma_with_dword(b: Seq<u8>, k: int, v: u32, n: nat)
    requires
        0 <= k,
        4 * k + 4 <= b.len(),
        4 * n <= b.len(),
    ensures
        with_dword(b, 4 * k, v).len() == b.len(),
        le32(with_dword(b, 4 * k, v), 4 * k) == v,
        forall|j: int|
            #![trigger le32(with_dword(b, 4 * k, v), j)]
            0 <= j <= b.len() - 4 && (j + 4 <= 4 * k || j >= 4 * k + 4) ==> le32(
                with_dword(b, 4 * k, v),
                j,
            ) == le32(b, j),
        k < n ==> dword_total(with_dword(b, 4 * k, v), n) == dword_total(b, n) - le32(b, 4 * k) + v,
        k >= n ==> dword_total(with_dword(b, 4 * k, v), n) == dword_total(b, n),
    decreases n,
{
    let c = with_dword(b, 4 * k, v);
    assert(c.len() == b.len());
    assert(c.subrange(4 * k, 4 * k + 4) =~= le32_bytes(v));
    law_le32_round_trip(v, c, 4 * k);
    assert forall|j: int| #![trigger le32(c, j)]
        0 <= j <= b.len() - 4 && (j + 4 <= 4 * k || j >= 4 * k + 4) implies le32(c, j) == le32(b, j) by {
        lemma_le32_agree(c, j, b, j);
    }
    if n > 0 {
        lemma_with_dword(b, k, v, (n - 1) as nat);
        if k != n - 1 {
            assert(le32(c, 4 * (n - 1)) == le32(b, 4 * (n - 1)));
        }
    }
}

proof fn lemma_total_prefix(a: Seq<u8>, b: Seq<u8>, n: nat)
    requires
        4 * n <= a.len(),
        4 * n <= b.len(),
        forall|k: int| 0 <= k < 4 * n ==> a[k] == b[k],
    ensures
        dword_total(a, n) == dword_total(b, n),
    decreases n,
{
    if n > 0 {
        lemma_total_prefix(a, b, (n - 1) as nat);
        lemma_le32_agree(a, 4 * (n - 1), b, 4 * (n - 1));
    }
}

/// In an update whose header and data sum to zero, the triple of an extended
/// signature without a checksum finding can take the place of the primary
/// triple: header and data still sum to zero.
pub proof fn law_extended_triples_are_interchangeable(entry: Seq<u8>, e: IntelExtendedSignature)
    requires
        entry.len() >= HEADER_SIZE,
        HEADER_SIZE + IntelHeader::at(entry, 0).data() <= entry.len(),
        primary_sum_of(entry, IntelHeader::at(entry, 0)) == 0,
        balanced(IntelHeader::at(entry, 0), e, 0),
    ensures
        IntelHeader::at(substituted(entry, e), 0) == (IntelHeader {
            signature: e.signature,
            platform_mask: e.platform_mask,
            checksum: e.checksum,
            ..IntelHeader::at(entry, 0)
        }),
        primary_sum_of(substituted(entry, e), IntelHeader::at(substituted(entry, e), 0)) == 0,
{
    let h = IntelHeader::at(entry, 0);
    let len = HEADER_SIZE + h.data();
    let n = (len / 4) as nat;
    let b = substituted(entry, e);
    lemma_substituted(entry, e, n);
    let h3 = IntelHeader::at(b, 0);
    assert(h3.data() == h.data());
    lemma_total_prefix(entry, entry.take(len), n);
    lemma_total_prefix(b, b.take(len), n);
    assert(entry.take(len).len() / 4 == n);
    assert(b.take(len).len() / 4 == n);
    let old_triple = h.signature.0 + h.platform_mask.0 + h.checksum;
    let new_triple = e.signature.0 + e.platform_mask.0 + e.checksum;
    let t = dword_total(entry, n) as int;
    assert(dword_total(b, n) == t - old_triple + new_triple);
    lemma_mod_exchange(t, old_triple, new_triple);
}

proof fn lemma_mod_exchange(t: int, a: int, b: int)
    requires
        t % 0x1_0000_0000 == 0,
        a % 0x1_0000_0000 == b % 0x1_0000_0000,
    ensures
        (t - a + b) % 0x1_0000_0000 == 0,
{
}

proof fn lemma_substituted(entry: Seq<u8>, e: IntelExtendedSignature, n: nat)
    requires
        entry.len() >= HEADER_SIZE,
        4 * n <= entry.len(),
        n >= 12,
    ensures
        substituted(entry, e).len() == entry.len(),
        IntelHeader::at(substituted(entry, e), 0) == (IntelHeader {
            signature: e.signature,
            platform_mask: e.platform_mask,
            checksum: e.checksum,
            ..IntelHeader::at(entry, 0)
        }),
        dword_total(substituted(entry, e), n) == dword_total(entry, n) - le32(entry, 12) - le32(
            entry,
            16,
        ) - le32(entry, 24) + e.signature.0 + e.checksum + e.platform_mask.0,
{
    let b1 = with_dword(entry, 12, e.signature.0);
    let b2 = with_dword(b1, 16, e.checksum);
    let b3 = with_dword(b2, 24, e.platform_mask.0);
    lemma_with_dword(entry, 3, e.signature.0, n);
    lemma_with_dword(b1, 4, e.checksum, n);
    lemma_with_dword(b2, 6, e.platform_mask.0, n);
    assert(le32(b1, 16) == le32(entry, 16));
    assert(le32(b2, 24) == le32(b1, 24) && le32(b1, 24) == le32(entry, 24));
    assert(le32(b3, 12) == le32(b2, 12) && le32(b2, 12) == le32(b1, 12));
    assert(le32(b3, 16) == le32(b2, 16));
    assert(le32(b3, 0) == le32(b2, 0) && le32(b2, 0) == le32(b1, 0) && le32(b1, 0) == le32(entry, 0));
    assert(le32(b3, 4) == le32(b2, 4) && le32(b2, 4) == le32(b1, 4) && le32(b1, 4) == le32(entry, 4));
    assert(le32(b3, 8) == le32(b2, 8) && le32(b2, 8) == le32(b1, 8) && le32(b1, 8) == le32(entry, 8));
    assert(le32(b3, 20) == le32(b2, 20) && le32(b2, 20) == le32(b1, 20) && le32(b1, 20) == le32(entry, 20));
    assert(le32(b3, 28) == le32(b2, 28) && le32(b2, 28) == le32(b1, 28) && le32(b1, 28) == le32(entry, 28));
    assert(le32(b3, 32) == le32(b2, 32) && le32(b2, 32) == le32(b1, 32) && le32(b1, 32) == le32(entry, 32));
    assert(le32(b3, 36) == le32(b2, 36) && le32(b2, 36) == le32(b1, 36) && le32(b1, 36) == le32(entry, 36));
    assert(le32(b3, 40) == le32(b2, 40) && le32(b2, 40) == le32(b1, 40) && le32(b1, 40) == le32(entry, 40));
    assert(le32(b3, 44) == le32(b2, 44) && le32(b2, 44) == le32(b1, 44) && le32(b1, 44) == le32(entry, 44));
}

/// The signatures for which validation finds no fault in the checksum are
/// exactly the balanced ones.
pub proof fn law_unbalanced_signatures_are_reported(
    h: IntelHeader,
    ext: Seq<IntelExtendedSignature>,
    primary_sum: u32,
    start: int,
)
    ensures
        balance_findings(h, ext, primary_sum, start, ext.len()).len() == 0 <==> forall|i: int|
            0 <= i < ext.len() ==> balanced(h, #[trigger] ext[i], primary_sum),
{
    lemma_balance_findings(h, ext, primary_sum, start, ext.len());
}

proof fn lemma_balance_findings(
    h: IntelHeader,
    ext: Seq<IntelExtendedSignature>,
    primary_sum: u32,
    start: int,
    n: nat,
)
    requires
        n <= ext.len(),
    ensures
        balance_findings(h, ext, primary_sum, start, n).len() == 0 <==> forall|i: int|
            0 <= i < n ==> balanced(h, #[trigger] ext[i], primary_sum),
    decreases n,
{
    if n > 0 {
        lemma_balance_findings(h, ext, primary_sum, start, (n - 1) as nat);
        assert(balanced(h, ext[n - 1], primary_sum) || !balanced(h, ext[n - 1], primary_sum));
    }
}

/// The two reports differ in the offsets alone, which are larger by `base` in
/// the first.
pub open spec fn is_shifted(a: Seq<FindingModel>, b: Seq<FindingModel>, base: int) -> bool {
    &&& a.len() == b.len()
    &&& forall|i: int|
        0 <= i < a.len() ==> (#[trigger] a[i]).offset == b[i].offset + base && a[i] == (FindingModel {
            offset: a[i].offset,
            ..b[i]
        })
}

proof fn lemma_given_shifted(c: bool, code: FindingCode, offset: int, message: Seq<char>, base: int)
    requires
        0 <= base,
        0 <= offset,
        base + offset <= u64::MAX,
    ensures
        is_shifted(
            given(c, finding(code, base + offset, message)),
            given(c, finding(code, offset, message)),
            base,
        ),
{
}

proof fn lemma_shifted_sum(
    a: Seq<FindingModel>,
    b: Seq<FindingModel>,
    c: Seq<FindingModel>,
    d: Seq<FindingModel>,
    base: int,
)
    requires
        is_shifted(a, b, base),
        is_shifted(c, d, base),
    ensures
        is_shifted(a + c, b + d, base),
{
    assert forall|i: int| 0 <= i < (a + c).len() implies (#[trigger] (a + c)[i]).offset == (b + d)[i].offset
        + base && (a + c)[i] == (FindingModel { offset: (a + c)[i].offset, ..(b + d)[i] }) by {
        if i < a.len() {
            assert((a + c)[i] == a[i]);
            assert((b + d)[i] == b[i]);
        } else {
            assert((a + c)[i] == c[i - a.len()]);
            assert((b + d)[i] == d[i - a.len()]);
        }
    }
}

proof fn lemma_type_shifted(h: IntelHeader, base: int)
    requires
        0 <= base,
        base + 0x2c <= u64::MAX,
    ensures
        is_shifted(type_findings(h, base), type_findings(h, 0), base),
{
}

proof fn lemma_size_shifted(h: IntelHeader, base: int)
    requires
        0 <= base,
        base + 0x2c <= u64::MAX,
    ensures
        is_shifted(size_findings(h, base), size_findings(h, 0), base),
{
}

proof fn lemma_field_shifted(h: IntelHeader, base: int)
    requires
        0 <= base,
        base + 0x2c <= u64::MAX,
    ensures
        is_shifted(field_findings(h, base), field_findings(h, 0), base),
{
}

proof fn lemma_date_shifted(h: IntelHeader, base: int)
    requires
        0 <= base,
        base + 0x2c <= u64::MAX,
    ensures
        is_shifted(date_findings(h, base), date_findings(h, 0), base),
{
}

proof fn lemma_identity_shifted(h: IntelHeader, base: int)
    requires
        0 <= base,
        base + 0x2c <= u64::MAX,
    ensures
        is_shifted(identity_findings(h, base), identity_findings(h, 0), base),
{
}

proof fn lemma_balance_shifted(
    h: IntelHeader,
    ext: Seq<IntelExtendedSignature>,
    primary_sum: u32,
    start: int,
    base: int,
    n: nat,
)
    requires
        0 <= base,
        0 <= start,
        n <= ext.len(),
        base + start + n * EXTENDED_SIGNATURE_SIZE <= u64::MAX,
    ensures
        is_shifted(
            balance_findings(h, ext, primary_sum, base + start, n),
            balance_findings(h, ext, primary_sum, start, n),
            base,
        ),
    decreases n,
{
    if n > 0 {
        let i = (n - 1) as nat;
        lemma_balance_shifted(h, ext, primary_sum, start, base, i);
        let a = balance_findings(h, ext, primary_sum, base + start, n);
        let b = balance_findings(h, ext, primary_sum, start, n);
        let p = balance_findings(h, ext, primary_sum, base + start, i);
        let q = balance_findings(h, ext, primary_sum, start, i);
        lemma_shifted_sum(p, q, a.skip(p.len() as int), b.skip(q.len() as int), base);
        assert(a =~= p + a.skip(p.len() as int));
        assert(b =~= q + b.skip(q.len() as int));
    }
}

proof fn lemma_repeats_shifted(
    h: IntelHeader,
    ext: Seq<IntelExtendedSignature>,
    start: int,
    base: int,
    n: nat,
)
    requires
        0 <= base,
        0 <= start,
        n <= ext.len(),
        base + start + n * EXTENDED_SIGNATURE_SIZE <= u64::MAX,
    ensures
        is_shifted(repeat_findings(h, ext, base + start, n), repeat_findings(h, ext, start, n), base),
    decreases n,
{
    if n > 0 {
        let i = (n - 1) as nat;
        lemma_repeats_shifted(h, ext, start, base, i);
        let a = repeat_findings(h, ext, base + start, n);
        let b = repeat_findings(h, ext, start, n);
        let p = repeat_findings(h, ext, base + start, i);
        let q = repeat_findings(h, ext, start, i);
        lemma_shifted_sum(p, q, a.skip(p.len() as int), b.skip(q.len() as int), base);
        assert(a =~= p + a.skip(p.len() as int));
        assert(b =~= q + b.skip(q.len() as int));
    }
}

proof fn lemma_table_shifted(
    entry: Seq<u8>,
    h: IntelHeader,
    ext: Seq<IntelExtendedSignature>,
    off: int,
    base: int,
)
    requires
        0 <= base,
        0 <= off <= entry.len(),
        base + entry.len() <= u64::MAX,
    ensures
        is_shifted(table_findings(entry, h, ext, off, base), table_findings(entry, h, ext, off, 0), base),
{
    let size = table_size(ext.len());
    let sum = dword_sum_of(entry.subrange(off, off + size));
    if size <= entry.len() - off {
        let start = off + EXTENDED_TABLE_HEADER_SIZE;
        let primary = primary_sum_of(entry, h);
        let message = "extended table dword sum is 0x"@ + hex(sum as nat, 8) + ", expected 0"@;
        let code = FindingCode::BadExtendedTableChecksum;
        let (g, g0) = (
            given(sum != 0, finding(code, base + off + 4, message)),
            given(sum != 0, finding(code, off + 4, message)),
        );
        lemma_given_shifted(sum != 0, code, off + 4, message, base);
        assert(base + (off + 4) == base + off + 4);
        assert(base + start == base + off + EXTENDED_TABLE_HEADER_SIZE);
        lemma_balance_shifted(h, ext, primary, start, base, ext.len());
        lemma_repeats_shifted(h, ext, start, base, ext.len());
        let c = balance_findings(h, ext, primary, base + start, ext.len());
        let c0 = balance_findings(h, ext, primary, start, ext.len());
        let d = repeat_findings(h, ext, base + start, ext.len());
        let d0 = repeat_findings(h, ext, start, ext.len());
        lemma_shifted_sum(g, g0, c, c0, base);
        lemma_shifted_sum(g + c, g0 + c0, d, d0, base);
    }
}

/// Where an entry stands does not change what is found in it: at another base
/// there are the same findings in the same order, each with an offset that is
/// larger by the base and nothing else changed. The mode has no part in the
/// report at all.
pub proof fn law_base_shifts_the_findings(
    entry: Seq<u8>,
    h: IntelHeader,
    ext: Seq<IntelExtendedSignature>,
    base: int,
)
    requires
        0 <= base,
        base + 0x2c <= u64::MAX,
        base + entry.len() <= u64::MAX,
    ensures
        is_shifted(entry_report(entry, h, ext, base), entry_report(entry, h, ext, 0), base),
{
    lemma_type_shifted(h, base);
    lemma_size_shifted(h, base);
    lemma_field_shifted(h, base);
    lemma_date_shifted(h, base);
    lemma_identity_shifted(h, base);
    let (t, t0) = (type_findings(h, base), type_findings(h, 0));
    let (s, s0) = (size_findings(h, base), size_findings(h, 0));
    lemma_shifted_sum(t, t0, s, s0, base);
    if entry.len() != h.total() {
        let a = truncation(entry.len() as int, h, base);
        let b = truncation(entry.len() as int, h, 0);
        assert(is_shifted(seq![a], seq![b], base));
        lemma_shifted_sum(t + s, t0 + s0, seq![a], seq![b], base);
        assert((t + s).push(a) =~= t + s + seq![a]);
        assert((t0 + s0).push(b) =~= t0 + s0 + seq![b]);
    } else {
        let (f, f0) = (field_findings(h, base), field_findings(h, 0));
        let (c, c0) = (checksum_findings(entry, h, base), checksum_findings(entry, h, 0));
        let (d, d0) = (date_findings(h, base), date_findings(h, 0));
        let (i, i0) = (identity_findings(h, base), identity_findings(h, 0));
        let (x, x0) = match h.table_offset() {
            Some(off) => (
                table_findings(entry, h, ext, off as int, base),
                table_findings(entry, h, ext, off as int, 0),
            ),
            None => (Seq::empty(), Seq::empty()),
        };
        if let Some(off) = h.table_offset() {
            lemma_table_shifted(entry, h, ext, off as int, base);
        }
        assert(is_shifted(c, c0, base));
        lemma_shifted_sum(t + s, t0 + s0, f, f0, base);
        lemma_shifted_sum(t + s + f, t0 + s0 + f0, c, c0, base);
        lemma_shifted_sum(t + s + f + c, t0 + s0 + f0 + c0, x, x0, base);
        lemma_shifted_sum(t + s + f + c + x, t0 + s0 + f0 + c0 + x0, d, d0, base);
        lemma_shifted_sum(t + s + f + c + x + d, t0 + s0 + f0 + c0 + x0 + d0, i, i0, base);
    }
}

} // verus!
