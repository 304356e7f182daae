//! Findings and validation reports.

use vstd::prelude::*;

verus! {

#[derive(Debug, Clone, Copy, PartialEq, Eq, PartialOrd, Ord, Structural)]
pub enum Severity {
    /// Informational: worth reporting, never blocks anything.
    Info,
    /// The image is usable but deviates from the documented format.
    Warning,
    /// The image is structurally broken; it must never be loaded.
    Error,
}

impl Severity {
    /// Position in the order of severities, lowest first.
    pub open spec fn rank(self) -> u8 {
        match self {
            Severity::Info => 0,
            Severity::Warning => 1,
            Severity::Error => 2,
        }
    }

    fn level(self) -> (r: u8)
        ensures
            r == self.rank(),
    {
        match self {
            Severity::Info => 0,
            Severity::Warning => 1,
            Severity::Error => 2,
        }
    }
}

/// Stable machine-readable finding codes. These are part of the JSON contract,
/// so variants are only ever added, never renamed or removed.
#[derive(Debug, Clone, Copy, PartialEq, Eq, PartialOrd, Ord, Structural)]
pub enum FindingCode {
    // --- structural -------------------------------------------------------
    Truncated,
    BadMagic,
    UnsupportedHeaderVersion,
    UnsupportedLoaderVersion,
    BadTotalSize,
    BadDataSize,
    TotalSizeNotAligned,
    BadChecksum,
    BadExtendedTable,
    BadExtendedTableChecksum,
    BadExtendedSignatureChecksum,
    TrailingGarbage,
    OverlappingRegions,
    // --- semantic ---------------------------------------------------------
    ImplausibleDate,
    NonBcdDate,
    ZeroRevision,
    HighBitRevision,
    DuplicateSignature,
    EmptySignatureSet,
    IfsTestImage,
    ReservedFieldNonZero,
    UnknownMetadataSection,
    // --- AMD --------------------------------------------------------------
    EquivalenceIdNotInTable,
    EquivalenceTableUnterminated,
    DuplicateEquivalenceEntry,
    ConflictingEquivalenceEntry,
    PatchSizeExceedsFamilyMaximum,
    UnknownSectionType,
    // --- limits -----------------------------------------------------------
    LimitExceeded,
}

impl FindingCode {
    /// The severity a finding has before any escalation.
    pub open spec fn severity(self) -> Severity {
        match self {
            FindingCode::Truncated
            | FindingCode::BadMagic
            | FindingCode::UnsupportedHeaderVersion
            | FindingCode::BadTotalSize
            | FindingCode::BadDataSize
            | FindingCode::BadChecksum
            | FindingCode::BadExtendedTable
            | FindingCode::BadExtendedTableChecksum
            | FindingCode::BadExtendedSignatureChecksum
            | FindingCode::OverlappingRegions
            | FindingCode::LimitExceeded
            | FindingCode::EquivalenceTableUnterminated => Severity::Error,
            FindingCode::IfsTestImage
            | FindingCode::ReservedFieldNonZero
            | FindingCode::UnknownMetadataSection => Severity::Info,
            _ => Severity::Warning,
        }
    }

    /// Default severity. Individual parsers may escalate but never de-escalate
    /// an `Error` into something softer.
    pub fn default_severity(self) -> (r: Severity)
        ensures
            r == self.severity(),
    {
        match self {
            FindingCode::Truncated => Severity::Error,
            FindingCode::BadMagic => Severity::Error,
            FindingCode::UnsupportedHeaderVersion => Severity::Error,
            FindingCode::BadTotalSize => Severity::Error,
            FindingCode::BadDataSize => Severity::Error,
            FindingCode::BadChecksum => Severity::Error,
            FindingCode::BadExtendedTable => Severity::Error,
            FindingCode::BadExtendedTableChecksum => Severity::Error,
            FindingCode::BadExtendedSignatureChecksum => Severity::Error,
            FindingCode::OverlappingRegions => Severity::Error,
            FindingCode::LimitExceeded => Severity::Error,
            FindingCode::EquivalenceTableUnterminated => Severity::Error,
            FindingCode::UnsupportedLoaderVersion => Severity::Warning,
            FindingCode::TotalSizeNotAligned => Severity::Warning,
            FindingCode::TrailingGarbage => Severity::Warning,
            FindingCode::NonBcdDate => Severity::Warning,
            FindingCode::ImplausibleDate => Severity::Warning,
            FindingCode::DuplicateSignature => Severity::Warning,
            FindingCode::EmptySignatureSet => Severity::Warning,
            FindingCode::ZeroRevision => Severity::Warning,
            FindingCode::HighBitRevision => Severity::Warning,
            FindingCode::EquivalenceIdNotInTable => Severity::Warning,
            FindingCode::DuplicateEquivalenceEntry => Severity::Warning,
            FindingCode::ConflictingEquivalenceEntry => Severity::Warning,
            FindingCode::PatchSizeExceedsFamilyMaximum => Severity::Warning,
            FindingCode::UnknownSectionType => Severity::Warning,
            FindingCode::IfsTestImage => Severity::Info,
            FindingCode::ReservedFieldNonZero => Severity::Info,
            FindingCode::UnknownMetadataSection => Severity::Info,
        }
    }
}

#[derive(Debug, PartialEq, Eq)]
pub struct Finding {
    pub code: FindingCode,
    pub severity: Severity,
    /// Byte offset the finding refers to, relative to the start of the blob.
    pub offset: u64,
    /// Length of the offending region, when known.
    pub length: Option<u32>,
    pub message: String,
}

/// The contents of a [`Finding`].
#[verifier::ext_equal]
pub struct FindingModel {
    pub code: FindingCode,
    pub severity: Severity,
    pub offset: u64,
    pub length: Option<u32>,
    pub message: Seq<char>,
}

impl View for Finding {
    type V = FindingModel;

    open spec fn view(&self) -> FindingModel {
        FindingModel {
            code: self.code,
            severity: self.severity,
            offset: self.offset,
            length: self.length,
            message: self.message@,
        }
    }
}

/// A finding with the default severity of its code.
pub open spec fn finding(code: FindingCode, offset: int, message: Seq<char>) -> FindingModel {
    FindingModel { code, severity: code.severity(), offset: offset as u64, length: None, message }
}

impl Clone for Finding {
    fn clone(&self) -> (r: Self)
        ensures
            r@ == self@,
    {
        Finding {
            code: self.code,
            severity: self.severity,
            offset: self.offset,
            length: self.length,
            message: self.message.clone(),
        }
    }
}

impl Finding {
    pub fn new(code: FindingCode, offset: u64, message: &str) -> (r: Self)
        ensures
            r@ == finding(code, offset as int, message@),
    {
        Finding {
            code,
            severity: code.default_severity(),
            offset,
            length: None,
            message: message.to_owned(),
        }
    }

    pub fn with_length(self, length: u32) -> (r: Self)
        ensures
            r@ == (FindingModel { length: Some(length), ..self@ }),
    {
        Finding { length: Some(length), ..self }
    }

    /// Raises the severity; never lowers it.
    pub fn escalate(self, severity: Severity) -> (r: Self)
        ensures
            r@ == (FindingModel {
                severity: if severity.rank() > self.severity.rank() {
                    severity
                } else {
                    self.severity
                },
                ..self@
            }),
    {
        if severity.level() > self.severity.level() {
            Finding { severity, ..self }
        } else {
            self
        }
    }
}

#[derive(Debug, PartialEq, Eq)]
pub struct ValidationReport {
    pub findings: Vec<Finding>,
}

/// The contents of a list of findings.
pub open spec fn findings_view(f: Seq<Finding>) -> Seq<FindingModel> {
    f.map_values(|x: Finding| x@)
}

impl View for ValidationReport {
    type V = Seq<FindingModel>;

    open spec fn view(&self) -> Seq<FindingModel> {
        findings_view(self.findings@)
    }
}

impl Default for ValidationReport {
    fn default() -> (r: Self)
        ensures
            r@ == Seq::<FindingModel>::empty(),
    {
        let r = ValidationReport { findings: Vec::new() };
        assert(r@ =~= Seq::<FindingModel>::empty());
        r
    }
}

impl Clone for ValidationReport {
    fn clone(&self) -> (r: Self)
        ensures
            r@ == self@,
    {
        let mut findings: Vec<Finding> = Vec::new();
        let mut i: usize = 0;
        while i < self.findings.len()
            invariant
                i <= self.findings@.len(),
                findings_view(findings@) =~= self@.take(i as int),
            decreases self.findings@.len() - i,
        {
            let ghost before = findings@;
            let f = self.findings[i].clone();
            findings.push(f);
            assert(findings_view(findings@) =~= findings_view(before).push(f@));
            assert(self@.take(i + 1) =~= self@.take(i as int).push(self@[i as int]));
            i = i + 1;
        }
        ValidationReport { findings }
    }
}

/// Some finding has the severity `Error`.
pub open spec fn any_error(report: Seq<FindingModel>) -> bool {
    exists|i: int| 0 <= i < report.len() && (#[trigger] report[i]).severity == Severity::Error
}

/// The message of the first finding with the severity `Error`.
pub open spec fn first_error_message(report: Seq<FindingModel>) -> Option<Seq<char>>
    decreases report.len(),
{
    if report.len() == 0 {
        None
    } else if report[0].severity == Severity::Error {
        Some(report[0].message)
    } else {
        first_error_message(report.drop_first())
    }
}

/// How many findings have the given severity.
pub open spec fn count_severity(report: Seq<FindingModel>, severity: Severity) -> nat
    decreases report.len(),
{
    if report.len() == 0 {
        0
    } else {
        count_severity(report.drop_last(), severity) + if report.last().severity == severity {
            1nat
        } else {
            0nat
        }
    }
}

impl ValidationReport {
    pub fn push(&mut self, finding: Finding)
        ensures
            final(self)@ == old(self)@.push(finding@),
    {
        self.findings.push(finding);
        assert(self@ =~= old(self)@.push(finding@));
    }

    pub fn extend(&mut self, other: ValidationReport)
        ensures
            final(self)@ == old(self)@ + other@,
    {
        let mut rest = other.findings;
        self.findings.append(&mut rest);
        assert(self@ =~= old(self)@ + other@);
    }

    pub fn max_severity(&self) -> (r: Option<Severity>)
        ensures
            r is None <==> self@.len() == 0,
            r matches Some(s) ==> {
                &&& exists|i: int| 0 <= i < self@.len() && (#[trigger] self@[i]).severity == s
                &&& forall|i: int| 0 <= i < self@.len() ==> (#[trigger] self@[i]).severity.rank() <= s.rank()
            },
    {
        let mut best: Option<Severity> = None;
        let mut i: usize = 0;
        while i < self.findings.len()
            invariant
                i <= self.findings@.len(),
                best is None <==> i == 0,
                best matches Some(s) ==> {
                    &&& exists|k: int| 0 <= k < i && (#[trigger] self@[k]).severity == s
                    &&& forall|k: int| 0 <= k < i ==> (#[trigger] self@[k]).severity.rank() <= s.rank()
                },
            decreases self.findings@.len() - i,
        {
            let s = self.findings[i].severity;
            assert(self@[i as int].severity == s);
            match best {
                None => {
                    best = Some(s);
                },
                Some(b) => {
                    if s.level() > b.level() {
                        best = Some(s);
                    }
                },
            }
            i = i + 1;
        }
        best
    }

    pub fn has_errors(&self) -> (r: bool)
        ensures
            r == any_error(self@),
    {
        let mut i: usize = 0;
        while i < self.findings.len()
            invariant
                i <= self.findings@.len(),
                forall|k: int| 0 <= k < i ==> (#[trigger] self@[k]).severity != Severity::Error,
            decreases self.findings@.len() - i,
        {
            assert(self@[i as int].severity == self.findings@[i as int].severity);
            if self.findings[i].severity == Severity::Error {
                return true;
            }
            i = i + 1;
        }
        false
    }

    /// The message of the first error, if there is one.
    pub fn first_error(&self) -> (r: Option<String>)
        ensures
            match r {
                Some(m) => first_error_message(self@) == Some(m@),
                None => first_error_message(self@) is None,
            },
    {
        let mut i: usize = 0;
        assert(self@.skip(0) =~= self@);
        while i < self.findings.len()
            invariant
                i <= self.findings@.len(),
                first_error_message(self@) == first_error_message(self@.skip(i as int)),
            decreases self.findings@.len() - i,
        {
            assert(self@.skip(i as int)[0] == self.findings@[i as int]@);
            if self.findings[i].severity == Severity::Error {
                return Some(self.findings[i].message.clone());
            }
            assert(self@.skip(i as int).drop_first() =~= self@.skip(i + 1));
            i = i + 1;
        }
        None
    }

    pub fn is_clean(&self) -> (r: bool)
        ensures
            r == (self@.len() == 0),
    {
        self.findings.len() == 0
    }

    pub fn count(&self, severity: Severity) -> (r: usize)
        ensures
            r == count_severity(self@, severity),
    {
        let mut n: usize = 0;
        let mut i: usize = 0;
        while i < self.findings.len()
            invariant
                i <= self.findings@.len(),
                n <= i,
                n == count_severity(self@.take(i as int), severity),
            decreases self.findings@.len() - i,
        {
            assert(self@.take(i + 1).drop_last() =~= self@.take(i as int));
            assert(self@.take(i + 1).last() == self.findings@[i as int]@);
            if self.findings[i].severity == severity {
                n = n + 1;
            }
            i = i + 1;
        }
        assert(self@.take(i as int) =~= self@);
        n
    }
}

/// A report has errors exactly when its highest severity is `Error`, and then
/// there is a first error to name.
pub proof fn law_errors_have_a_message(report: Seq<FindingModel>)
    ensures
        any_error(report) <==> first_error_message(report) is Some,
        any_error(report) <==> count_severity(report, Severity::Error) > 0,
{
    lemma_first_error(report);
    lemma_count_errors(report);
}

proof fn lemma_first_error(report: Seq<FindingModel>)
    ensures
        any_error(report) <==> first_error_message(report) is Some,
    decreases report.len(),
{
    if report.len() > 0 {
        let rest = report.drop_first();
        lemma_first_error(rest);
        if any_error(report) && report[0].severity != Severity::Error {
            let i = choose|i: int| 0 <= i < report.len() && (#[trigger] report[i]).severity == Severity::Error;
            assert(rest[i - 1].severity == Severity::Error);
        }
        if any_error(rest) {
            let i = choose|i: int| 0 <= i < rest.len() && (#[trigger] rest[i]).severity == Severity::Error;
            assert(report[i + 1].severity == Severity::Error);
        }
    }
}

proof fn lemma_count_errors(report: Seq<FindingModel>)
    ensures
        any_error(report) <==> count_severity(report, Severity::Error) > 0,
    decreases report.len(),
{
    if report.len() > 0 {
        let rest = report.drop_last();
        lemma_count_errors(rest);
        if any_error(report) && report.last().severity != Severity::Error {
            let i = choose|i: int| 0 <= i < report.len() && (#[trigger] report[i]).severity == Severity::Error;
            assert(rest[i].severity == Severity::Error);
        }
        if any_error(rest) {
            let i = choose|i: int| 0 <= i < rest.len() && (#[trigger] rest[i]).severity == Severity::Error;
            assert(report[i].severity == Severity::Error);
        }
    }
}

} // verus!
