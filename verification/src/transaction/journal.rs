//! The record of what a transaction did.

use vstd::prelude::*;
use crate::catalog::manifest::opt_text;
use crate::digest::{sha256_of, sha256_text};
use crate::linux::sysfs::opt_str;
use crate::number::hex_bytes;
use crate::transaction::error::{TransactionError, TransactionFault};

verus! {

#[derive(Debug)]
#[allow(inconsistent_fields)]
pub enum JournalEntry {
    Begin { id: String, plan_id: String, started_unix: u64 },
    Wrote { path: String, sha256: String, bytes: u64, backup: Option<String> },
    Commit { id: String },
    Rollback { id: String, reason: String },
}

/// The contents of a [`JournalEntry`].
#[verifier::ext_equal]
#[allow(inconsistent_fields)]
pub enum EntryModel {
    Begin { id: Seq<char>, plan_id: Seq<char>, started_unix: u64 },
    Wrote { path: Seq<char>, sha256: Seq<char>, bytes: u64, backup: Option<Seq<char>> },
    Commit { id: Seq<char> },
    Rollback { id: Seq<char>, reason: Seq<char> },
}

impl View for JournalEntry {
    type V = EntryModel;

    open spec fn view(&self) -> EntryModel {
        match *self {
            JournalEntry::Begin { id, plan_id, started_unix } => EntryModel::Begin {
                id: id@,
                plan_id: plan_id@,
                started_unix,
            },
            JournalEntry::Wrote { path, sha256, bytes, backup } => EntryModel::Wrote {
                path: path@,
                sha256: sha256@,
                bytes,
                backup: opt_text(backup),
            },
            JournalEntry::Commit { id } => EntryModel::Commit { id: id@ },
            JournalEntry::Rollback { id, reason } => EntryModel::Rollback {
                id: id@,
                reason: reason@,
            },
        }
    }
}

#[derive(Debug)]
pub struct Journal {
    pub entries: Vec<JournalEntry>,
}

impl View for Journal {
    type V = Seq<EntryModel>;

    open spec fn view(&self) -> Seq<EntryModel> {
        self.entries@.map_values(|e: JournalEntry| e@)
    }
}

impl Default for Journal {
    fn default() -> (r: Self)
        ensures
            r@ == Seq::<EntryModel>::empty(),
    {
        let r = Journal { entries: Vec::new() };
        assert(r@ =~= Seq::<EntryModel>::empty());
        r
    }
}

impl Journal {
    pub fn push(&mut self, entry: JournalEntry)
        ensures
            final(self)@ == old(self)@.push(entry@),
    {
        let ghost before = self@;
        self.entries.push(entry);
        assert(self@ =~= before.push(entry@));
    }
}

/// The digest of some bytes, as the journal writes it.
pub fn sha256_hex(data: &[u8]) -> (r: String)
    ensures
        r@ == hex_bytes(sha256_of(data@)),
{
    sha256_text(data)
}

/// The name under which the previous contents of a file are kept in the backup
/// directory: its own, or `file` where it has none, with `.bak` appended.
pub fn backup_name(name: Option<&str>) -> (r: String)
    ensures
        r@ == (match opt_str(name) {
            Some(n) => n,
            None => "file"@,
        }) + ".bak"@,
{
    let mut file = match name {
        Some(n) => n.to_owned(),
        None => "file".to_owned(),
    };
    file.append(".bak");
    file
}

/// Rejects writing through a destination that is a symbolic link. A link that
/// leads nowhere does not count as existing.
pub fn check_destination(path: &str, exists: bool, symlink: bool) -> (r: Result<
    (),
    TransactionError,
>)
    ensures
        match r {
            Ok(_) => !(exists && symlink),
            Err(e) => exists && symlink && e@ == (TransactionFault::Symlink { path: path@ }),
        },
{
    if exists && symlink {
        return Err(TransactionError::Symlink { path: path.to_owned() });
    }
    Ok(())
}

} // verus!
