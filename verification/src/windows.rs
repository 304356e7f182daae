//! Read-only Windows-specific CPU observations.
//!
//! The registry is read outside; each step of a read is judged here.

use vstd::prelude::*;
use crate::bytes::{get_le32, le32};
use crate::model::cpu::{ObservationModel, ObservedModel, RawModel, RevisionObservation, RevisionSource};
use crate::number::{around_dec, dec, dec_text};
use crate::text::{contains_text, lemma_find_from, occurs_at, str_contains};

verus! {

/// The Win32 error for a key or value that does not exist.
pub const FILE_NOT_FOUND: u32 = 2;

/// The registry type of raw bytes.
pub const REG_BINARY: u32 = 3;

/// One attempt to read a registry value: the Win32 status of each step, and
/// what it delivered. What follows a failed step is not looked at.
#[derive(Debug)]
pub struct RegistryRead {
    /// Opening the processor's key.
    pub open: u32,
    /// Asking for the value's type and length.
    pub query: u32,
    /// The value's type.
    pub kind: u32,
    /// Reading the value's data.
    pub fetch: u32,
    /// The buffer that was read into.
    pub bytes: Vec<u8>,
    /// The length that was reported with the data.
    pub len: u32,
}

/// The contents of a [`RegistryRead`].
#[verifier::ext_equal]
pub struct ReadModel {
    pub open: u32,
    pub query: u32,
    pub kind: u32,
    pub fetch: u32,
    pub bytes: Seq<u8>,
    pub len: u32,
}

impl View for RegistryRead {
    type V = ReadModel;

    open spec fn view(&self) -> ReadModel {
        ReadModel {
            open: self.open,
            query: self.query,
            kind: self.kind,
            fetch: self.fetch,
            bytes: self.bytes@,
            len: self.len,
        }
    }
}

// --- what a read means --------------------------------------------------------------

pub open spec fn registry(observed: ObservedModel) -> ObservationModel {
    ObservationModel::of(RevisionSource::WindowsRegistry, observed)
}

pub open spec fn missing(reason: Seq<char>) -> ObservationModel {
    registry(ObservedModel::Unavailable { reason })
}

/// What a failure to open the key means; none if it was opened.
pub open spec fn open_result(code: u32) -> Option<ObservationModel> {
    if code == FILE_NOT_FOUND {
        Some(missing("Update Revision is not present for this logical processor"@))
    } else if code != 0 {
        Some(
            missing("cannot open processor registry key (Win32 error "@ + dec(code as nat) + ")"@),
        )
    } else {
        None
    }
}

/// What a failed query or an unexpected type means; none if bytes can be read.
pub open spec fn query_result(code: u32, kind: u32) -> Option<ObservationModel> {
    if code == FILE_NOT_FOUND {
        Some(missing("Update Revision is not present"@))
    } else if code != 0 {
        Some(
            missing("cannot read Update Revision length (Win32 error "@ + dec(code as nat) + ")"@),
        )
    } else if kind != REG_BINARY {
        Some(
            registry(
                ObservedModel::Invalid {
                    raw: RawModel::of(Seq::empty()),
                    reason: "Update Revision has registry type "@ + dec(kind as nat)
                        + ", expected REG_BINARY"@,
                },
            ),
        )
    } else {
        None
    }
}

/// The revision is the whole of a four-byte value or the second half of an
/// eight-byte one; no other length is understood. The bytes are kept.
pub open spec fn decoded(bytes: Seq<u8>) -> ObservationModel {
    if bytes.len() == 4 {
        registry(
            ObservedModel::Known { revision: le32(bytes, 0), raw: Some(RawModel::of(bytes)) },
        )
    } else if bytes.len() == 8 {
        registry(
            ObservedModel::Known { revision: le32(bytes, 4), raw: Some(RawModel::of(bytes)) },
        )
    } else {
        registry(
            ObservedModel::Invalid {
                raw: RawModel::of(bytes),
                reason:
                    "Update Revision has an unrecognized REG_BINARY length; expected 4 or 8 bytes"@,
            },
        )
    }
}

pub open spec fn fetch_result(code: u32, bytes: Seq<u8>, len: u32) -> ObservationModel {
    if code != 0 {
        missing("cannot read Update Revision data (Win32 error "@ + dec(code as nat) + ")"@)
    } else if len < bytes.len() {
        decoded(bytes.take(len as int))
    } else {
        decoded(bytes)
    }
}

pub open spec fn read_result(r: ReadModel) -> ObservationModel {
    if open_result(r.open) is Some {
        open_result(r.open)->0
    } else if query_result(r.query, r.kind) is Some {
        query_result(r.query, r.kind)->0
    } else {
        fetch_result(r.fetch, r.bytes, r.len)
    }
}

/// The view of an observation that may be missing.
pub open spec fn opt_observation(o: Option<RevisionObservation>) -> Option<ObservationModel> {
    match o {
        Some(x) => Some(x@),
        None => None,
    }
}

/// The observation says that the value does not exist.
pub open spec fn not_present(o: ObservationModel) -> bool {
    o.observed matches ObservedModel::Unavailable { reason } && contains_text(
        reason,
        "not present"@,
    )
}

pub open spec fn update_of(read: Option<ReadModel>) -> ObservationModel {
    match read {
        Some(r) => read_result(r),
        None => registry(
            ObservedModel::Unsupported {
                reason: "Windows registry is unavailable on this OS"@,
            },
        ),
    }
}

pub open spec fn previous_of(read: Option<ReadModel>) -> Option<ObservationModel> {
    match read {
        Some(r) => if not_present(read_result(r)) {
            None
        } else {
            Some(read_result(r))
        },
        None => None,
    }
}

pub open spec fn opt_read(read: Option<RegistryRead>) -> Option<ReadModel> {
    match read {
        Some(r) => Some(r@),
        None => None,
    }
}

// --- judging ------------------------------------------------------------------------

/// The registry key of a logical processor, under `HKEY_LOCAL_MACHINE`.
pub fn processor_key(cpu: u32) -> (r: String)
    ensures
        r@ == "HARDWARE\\DESCRIPTION\\System\\CentralProcessor\\"@ + dec(cpu as nat),
{
    let mut key = "HARDWARE\\DESCRIPTION\\System\\CentralProcessor\\".to_owned();
    key.append(dec_text(cpu as u64).as_str());
    key
}

fn unavailable(reason: &str) -> (r: RevisionObservation)
    ensures
        r@ == missing(reason@),
{
    RevisionObservation::unavailable(RevisionSource::WindowsRegistry, reason)
}

/// Whether reading ends after the attempt to open the key, and with what.
pub fn after_open(code: u32) -> (r: Option<RevisionObservation>)
    ensures
        opt_observation(r) == open_result(code),
{
    if code == FILE_NOT_FOUND {
        return Some(unavailable("Update Revision is not present for this logical processor"));
    }
    if code != 0 {
        let reason = around_dec(
            "cannot open processor registry key (Win32 error ",
            code as u64,
            ")",
        );
        return Some(unavailable(reason.as_str()));
    }
    None
}

/// Whether reading ends after the value's type and length were asked for, and
/// with what.
pub fn after_query(code: u32, kind: u32) -> (r: Option<RevisionObservation>)
    ensures
        opt_observation(r) == query_result(code, kind),
{
    if code == FILE_NOT_FOUND {
        return Some(unavailable("Update Revision is not present"));
    }
    if code != 0 {
        let reason = around_dec(
            "cannot read Update Revision length (Win32 error ",
            code as u64,
            ")",
        );
        return Some(unavailable(reason.as_str()));
    }
    if kind != REG_BINARY {
        let reason = around_dec(
            "Update Revision has registry type ",
            kind as u64,
            ", expected REG_BINARY",
        );
        let none: Vec<u8> = Vec::new();
        assert(none@ =~= Seq::empty());
        return Some(
            RevisionObservation::invalid(
                RevisionSource::WindowsRegistry,
                none,
                reason.as_str(),
            ),
        );
    }
    None
}

/// Known `Update Revision` REG_BINARY layouts are a direct four-byte
/// little-endian revision and the eight-byte form where the revision is
/// the final u32. Retain all bytes and reject every other length.
pub fn decode_update_revision(bytes: Vec<u8>) -> (r: RevisionObservation)
    ensures
        r@ == decoded(bytes@),
{
    let revision = if bytes.len() == 4 {
        get_le32(bytes.as_slice(), 0)
    } else if bytes.len() == 8 {
        get_le32(bytes.as_slice(), 4)
    } else {
        return RevisionObservation::invalid(
            RevisionSource::WindowsRegistry,
            bytes,
            "Update Revision has an unrecognized REG_BINARY length; expected 4 or 8 bytes",
        );
    };
    RevisionObservation::known_raw(revision, RevisionSource::WindowsRegistry, bytes)
}

/// The observation that a registry read amounts to.
pub fn revision_value(read: RegistryRead) -> (r: RevisionObservation)
    ensures
        r@ == read_result(read@),
{
    if let Some(o) = after_open(read.open) {
        return o;
    }
    if let Some(o) = after_query(read.query, read.kind) {
        return o;
    }
    if read.fetch != 0 {
        let reason = around_dec(
            "cannot read Update Revision data (Win32 error ",
            read.fetch as u64,
            ")",
        );
        return unavailable(reason.as_str());
    }
    let mut bytes = read.bytes;
    if (read.len as u64) < bytes.len() as u64 {
        bytes.truncate(read.len as usize);
    }
    decode_update_revision(bytes)
}

/// The value `Update Revision` of a logical processor's key, or the statement
/// that there is no registry here.
pub fn update_revision(read: Option<RegistryRead>) -> (r: RevisionObservation)
    ensures
        r@ == update_of(opt_read(read)),
{
    match read {
        Some(x) => revision_value(x),
        None => RevisionObservation::unsupported(
            RevisionSource::WindowsRegistry,
            "Windows registry is unavailable on this OS",
        ),
    }
}

/// The value `Previous Update Revision` when Windows exposes it. Its semantics
/// are Windows-version-specific, so it is diagnostic context and never policy
/// input.
pub fn previous_update_revision(read: Option<RegistryRead>) -> (r: Option<RevisionObservation>)
    ensures
        opt_observation(r) == previous_of(opt_read(read)),
{
    match read {
        None => None,
        Some(x) => {
            let observation = revision_value(x);
            let absent = match &observation {
                RevisionObservation::Unavailable { reason, .. } => str_contains(
                    reason.as_str(),
                    "not present",
                ),
                _ => false,
            };
            if absent {
                None
            } else {
                Some(observation)
            }
        },
    }
}

/// A revision is only ever taken from a complete read of a four-byte or
/// eight-byte value, and the observation keeps the bytes it was read from.
pub proof fn law_registry_revisions_keep_their_bytes(r: ReadModel)
    ensures
        read_result(r).revision() is Some ==> {
            let data = if r.len < r.bytes.len() {
                r.bytes.take(r.len as int)
            } else {
                r.bytes
            };
            &&& r.open == 0 && r.query == 0 && r.kind == REG_BINARY && r.fetch == 0
            &&& data.len() == 4 || data.len() == 8
            &&& read_result(r).revision() == Some(le32(data, data.len() - 4))
            &&& read_result(r).observed matches ObservedModel::Known { raw, .. } && raw == Some(
                RawModel::of(data),
            )
        },
{
}

/// Every complete read of four or eight bytes gives the revision in its last
/// four. What could not be read is unavailable, and what was read and is
/// something else is invalid.
pub proof fn law_complete_reads_give_a_revision(r: ReadModel)
    ensures
        ({
            let data = if r.len < r.bytes.len() {
                r.bytes.take(r.len as int)
            } else {
                r.bytes
            };
            let o = read_result(r).observed;
            let done = r.open == 0 && r.query == 0;
            &&& done && r.kind == 3 && r.fetch == 0 && (data.len() == 4 || data.len() == 8) ==> (o matches
                ObservedModel::Known { revision, .. } && revision == le32(data, data.len() - 4))
            &&& done && r.kind == 3 && r.fetch == 0 && data.len() != 4 && data.len() != 8 ==> o is Invalid
            &&& done && r.kind != 3 ==> o is Invalid
            &&& !done || (r.kind == 3 && r.fetch != 0) ==> o is Unavailable
            &&& read_result(r).source == RevisionSource::WindowsRegistry
        }),
{
}

/// A previous revision is reported wherever there is a value, readable or not,
/// and left out where the value or the whole registry is not there.
pub proof fn law_missing_values_are_left_out(r: ReadModel)
    ensures
        previous_of(None) is None,
        r.open == 2 || (r.open == 0 && r.query == 2) ==> previous_of(Some(r)) is None,
        !(read_result(r).observed is Unavailable) ==> previous_of(Some(r)) == Some(read_result(r)),
        update_of(Some(r)) == read_result(r),
{
    let pat = "not present"@;
    let a = "Update Revision is not present for this logical processor"@;
    let b = "Update Revision is not present"@;
    reveal_strlit("not present");
    reveal_strlit("Update Revision is not present for this logical processor");
    reveal_strlit("Update Revision is not present");
    assert(a.subrange(19, 30) =~= pat);
    assert(b.subrange(19, 30) =~= pat);
    assert(occurs_at(a, pat, 19));
    assert(occurs_at(b, pat, 19));
    lemma_find_from(a, pat, 0);
    lemma_find_from(b, pat, 0);
}

} // verus!
