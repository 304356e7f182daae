//! The course of a transaction.
//!
//! A transaction is opened by [`begin`]. While [`Transaction::next_write`]
//! yields an image, the image is stored and [`Transaction::stored`] records it;
//! then [`Transaction::commit`] closes the journal, which is saved, each result
//! is read back and judged by [`check_written`], and [`Transaction::report`]
//! says what was done.

use vstd::prelude::*;
use crate::boot::early::{build_early_cpio, early_of, EarlyBuildInput, EarlyModel};
use crate::boot::error::{BootError, BootFault};
use crate::catalog::collection::{Catalog, CatalogModel};
use crate::catalog::manifest::opt_text;
use crate::digest::sha256_of;
use crate::model::cpu::CpuIdentity;
use crate::number::{around_dec, dec, dec_text, hex_bytes};
use crate::policy::plan::{writes_view, Plan, PlanModel, PlannedWrite, WriteModel};
use crate::text::{debug_string, debug_text, str_eq, strings};
use crate::transaction::error::{TransactionError, TransactionFault};
use crate::transaction::journal::{sha256_hex, EntryModel, Journal, JournalEntry};
use crate::transaction::preflight::{
    joined, opt_root, preflight, preflight_of, require_ok, targets_view, RootFacts, RootModel,
    TargetFacts, TargetModel,
};

verus! {

#[derive(Debug)]
pub struct ApplyOptions {
    pub dry_run: bool,
    pub backup_dir: String,
    pub journal_path: String,
    pub confinement_root: Option<String>,
    pub catalog: Catalog,
    pub filter_cpus: Vec<CpuIdentity>,
    pub plan_id: String,
    pub receipt_path: Option<String>,
}

/// The contents of [`ApplyOptions`].
#[verifier::ext_equal]
pub struct OptionsModel {
    pub dry_run: bool,
    pub backup_dir: Seq<char>,
    pub journal_path: Seq<char>,
    pub confinement_root: Option<Seq<char>>,
    pub catalog: CatalogModel,
    pub filter_cpus: Seq<CpuIdentity>,
    pub plan_id: Seq<char>,
    pub receipt_path: Option<Seq<char>>,
}

impl View for ApplyOptions {
    type V = OptionsModel;

    open spec fn view(&self) -> OptionsModel {
        OptionsModel {
            dry_run: self.dry_run,
            backup_dir: self.backup_dir@,
            journal_path: self.journal_path@,
            confinement_root: opt_text(self.confinement_root),
            catalog: self.catalog@,
            filter_cpus: self.filter_cpus@,
            plan_id: self.plan_id@,
            receipt_path: opt_text(self.receipt_path),
        }
    }
}

#[derive(Debug)]
pub struct ApplyResult {
    pub path: String,
    pub bytes: u64,
    pub sha256: String,
    pub backup: Option<String>,
}

/// The contents of an [`ApplyResult`].
#[verifier::ext_equal]
pub struct ResultModel {
    pub path: Seq<char>,
    pub bytes: u64,
    pub sha256: Seq<char>,
    pub backup: Option<Seq<char>>,
}

impl View for ApplyResult {
    type V = ResultModel;

    open spec fn view(&self) -> ResultModel {
        ResultModel {
            path: self.path@,
            bytes: self.bytes,
            sha256: self.sha256@,
            backup: opt_text(self.backup),
        }
    }
}

pub open spec fn results_view(v: Seq<ApplyResult>) -> Seq<ResultModel> {
    v.map_values(|r: ApplyResult| r@)
}

#[derive(Debug)]
pub struct ApplyReport {
    pub schema_version: u32,
    pub command: String,
    pub transaction_id: String,
    pub plan_id: String,
    pub dry_run: bool,
    pub committed: bool,
    pub results: Vec<ApplyResult>,
    pub messages: Vec<String>,
    pub journal_path: String,
    pub receipt_path: Option<String>,
}

/// The contents of an [`ApplyReport`].
#[verifier::ext_equal]
pub struct ReportModel {
    pub schema_version: u32,
    pub command: Seq<char>,
    pub transaction_id: Seq<char>,
    pub plan_id: Seq<char>,
    pub dry_run: bool,
    pub committed: bool,
    pub results: Seq<ResultModel>,
    pub messages: Seq<Seq<char>>,
    pub journal_path: Seq<char>,
    pub receipt_path: Option<Seq<char>>,
}

impl View for ApplyReport {
    type V = ReportModel;

    open spec fn view(&self) -> ReportModel {
        ReportModel {
            schema_version: self.schema_version,
            command: self.command@,
            transaction_id: self.transaction_id@,
            plan_id: self.plan_id@,
            dry_run: self.dry_run,
            committed: self.committed,
            results: results_view(self.results@),
            messages: strings(self.messages@),
            journal_path: self.journal_path@,
            receipt_path: opt_text(self.receipt_path),
        }
    }
}

/// When a transaction starts, in time since the Unix epoch.
#[derive(Debug, Clone, Copy)]
pub struct Clock {
    /// Whole seconds, for the transaction's name.
    pub secs: u64,
    /// Nanoseconds within the second, for the transaction's name.
    pub nanos: u32,
    /// Whole seconds, for the journal.
    pub started_unix: u64,
}

/// A transaction under way.
#[derive(Debug)]
pub struct Transaction<'a> {
    pub plan: &'a Plan,
    pub opts: &'a ApplyOptions,
    pub id: String,
    /// The position of the first write that was not taken up yet.
    pub next: usize,
    pub journal: Journal,
    pub results: Vec<ApplyResult>,
    pub messages: Vec<String>,
}

/// The contents of a [`Transaction`].
#[verifier::ext_equal]
pub struct TransactionModel {
    pub plan: PlanModel,
    pub opts: OptionsModel,
    pub id: Seq<char>,
    pub next: int,
    pub journal: Seq<EntryModel>,
    pub results: Seq<ResultModel>,
    pub messages: Seq<Seq<char>>,
}

impl<'a> View for Transaction<'a> {
    type V = TransactionModel;

    open spec fn view(&self) -> TransactionModel {
        TransactionModel {
            plan: self.plan@,
            opts: self.opts@,
            id: self.id@,
            next: self.next as int,
            journal: self.journal@,
            results: results_view(self.results@),
            messages: strings(self.messages@),
        }
    }
}

/// An image that is to be stored.
#[derive(Debug)]
pub struct Store {
    pub path: String,
    pub bytes: Vec<u8>,
}

/// How a transaction starts.
#[derive(Debug)]
#[allow(inconsistent_fields)]
pub enum Begun<'a> {
    /// It was only described.
    Described(ApplyReport),
    /// There is nothing to do: what goes into the receipt, and what is reported.
    Nothing { receipt: ApplyReport, report: ApplyReport },
    /// There are writes to carry out.
    Open(Transaction<'a>),
}

/// The contents of a [`Begun`].
#[verifier::ext_equal]
#[allow(inconsistent_fields)]
pub enum BegunModel {
    Described(ReportModel),
    Nothing { receipt: ReportModel, report: ReportModel },
    Open(TransactionModel),
}

impl<'a> View for Begun<'a> {
    type V = BegunModel;

    open spec fn view(&self) -> BegunModel {
        match *self {
            Begun::Described(r) => BegunModel::Described(r@),
            Begun::Nothing { receipt, report } => BegunModel::Nothing {
                receipt: receipt@,
                report: report@,
            },
            Begun::Open(t) => BegunModel::Open(t@),
        }
    }
}

// --- the course ---------------------------------------------------------------------

/// `tx-`, the seconds and the nanoseconds.
pub open spec fn id_text(clock: Clock) -> Seq<char> {
    "tx-"@ + dec(clock.secs as nat) + "-"@ + dec(clock.nanos as nat)
}

/// The `Debug` form of a write.
pub open spec fn write_text(w: WriteModel) -> Seq<char> {
    match w {
        WriteModel::EarlyCpio { path, intel_patches, amd_patches } => "EarlyCpio { path: "@
            + debug_text(path) + ", intel_patches: "@ + dec(intel_patches) + ", amd_patches: "@
            + dec(amd_patches) + " }"@,
        WriteModel::IntelFirmwareDir { dir, file_count } => "IntelFirmwareDir { dir: "@
            + debug_text(dir) + ", file_count: "@ + dec(file_count) + " }"@,
        WriteModel::AmdFirmwareDir { dir, file_count } => "AmdFirmwareDir { dir: "@ + debug_text(
            dir,
        ) + ", file_count: "@ + dec(file_count) + " }"@,
    }
}

/// One line for each write that would be carried out.
pub open spec fn dry_run_messages(writes: Seq<WriteModel>) -> Seq<Seq<char>> {
    writes.map_values(|w: WriteModel| "dry-run: would apply "@ + write_text(w))
}

pub open spec fn report_model(
    opts: OptionsModel,
    id: Seq<char>,
    dry_run: bool,
    results: Seq<ResultModel>,
    messages: Seq<Seq<char>>,
    receipt_path: Option<Seq<char>>,
) -> ReportModel {
    ReportModel {
        schema_version: 1,
        command: "apply"@,
        transaction_id: id,
        plan_id: opts.plan_id,
        dry_run,
        committed: !dry_run,
        results,
        messages,
        journal_path: opts.journal_path,
        receipt_path,
    }
}

/// How a plan that passed its checks starts.
pub open spec fn begun(plan: PlanModel, opts: OptionsModel, clock: Clock) -> BegunModel {
    let id = id_text(clock);
    if opts.dry_run {
        BegunModel::Described(
            report_model(
                opts,
                id,
                true,
                Seq::empty(),
                plan.messages + dry_run_messages(plan.writes),
                None,
            ),
        )
    } else if plan.writes.len() == 0 {
        let receipt = report_model(
            opts,
            id,
            false,
            Seq::empty(),
            plan.messages.push("nothing to apply"@),
            None,
        );
        BegunModel::Nothing {
            receipt,
            report: ReportModel { receipt_path: opts.receipt_path, ..receipt },
        }
    } else {
        BegunModel::Open(
            TransactionModel {
                plan,
                opts,
                id,
                next: 0,
                journal: seq![
                    EntryModel::Begin {
                        id,
                        plan_id: opts.plan_id,
                        started_unix: clock.started_unix,
                    },
                ],
                results: Seq::empty(),
                messages: plan.messages,
            },
        )
    }
}

/// What applying a plan starts with, unless the checks refuse it.
pub open spec fn begin_of(
    plan: PlanModel,
    opts: OptionsModel,
    facts: Seq<TargetModel>,
    root: Option<RootModel>,
    clock: Clock,
) -> Result<BegunModel, TransactionFault> {
    let checks = preflight_of(plan, facts, root);
    if checks.ok {
        Ok(begun(plan, opts, clock))
    } else {
        Err(TransactionFault::Preflight(joined(checks.issues, "; "@)))
    }
}

/// The processors that images are built for; an empty filter lets all through.
pub open spec fn filter_of(opts: OptionsModel) -> Option<Seq<CpuIdentity>> {
    if opts.filter_cpus.len() == 0 {
        None
    } else {
        Some(opts.filter_cpus)
    }
}

/// The early image of a transaction.
pub open spec fn image_of(opts: OptionsModel) -> Result<EarlyModel, BootFault> {
    early_of(opts.catalog, filter_of(opts), true, true)
}

pub open spec fn skip_message(dir: Seq<char>) -> Seq<char> {
    "skipped firmware directory write to "@ + dir + " (not implemented in v0.1)"@
}

/// The position of the first image at or after `from`, and the messages with
/// a line for each directory passed over.
pub open spec fn skipped(writes: Seq<WriteModel>, from: int, messages: Seq<Seq<char>>) -> (
    int,
    Seq<Seq<char>>,
)
    decreases writes.len() - from,
{
    if from < 0 || from >= writes.len() {
        (from, messages)
    } else {
        match writes[from] {
            WriteModel::EarlyCpio { .. } => (from, messages),
            WriteModel::IntelFirmwareDir { dir, .. } => skipped(
                writes,
                from + 1,
                messages.push(skip_message(dir)),
            ),
            WriteModel::AmdFirmwareDir { dir, .. } => skipped(
                writes,
                from + 1,
                messages.push(skip_message(dir)),
            ),
        }
    }
}

/// The transaction after it looked for the next image.
pub open spec fn advanced(t: TransactionModel) -> TransactionModel {
    let (at, messages) = skipped(t.plan.writes, t.next, t.messages);
    TransactionModel {
        next: if at < t.plan.writes.len() {
            at + 1
        } else {
            at
        },
        messages,
        ..t
    }
}

/// The image that comes next, with its path; none once all writes are done.
pub open spec fn next_of(t: TransactionModel) -> Result<
    Option<(Seq<char>, Seq<u8>)>,
    TransactionFault,
> {
    let (at, _) = skipped(t.plan.writes, t.next, t.messages);
    if 0 <= at < t.plan.writes.len() {
        match (t.plan.writes[at], image_of(t.opts)) {
            (WriteModel::EarlyCpio { path, .. }, Ok(image)) => Ok(Some((path, image.bytes))),
            (WriteModel::EarlyCpio { .. }, Err(e)) => Err(TransactionFault::Boot(e)),
            _ => Ok(None),
        }
    } else {
        Ok(None)
    }
}

/// What is known of an image once it is stored.
pub open spec fn result_of(path: Seq<char>, bytes: Seq<u8>, backup: Option<Seq<char>>) -> ResultModel {
    ResultModel { path, bytes: bytes.len() as u64, sha256: hex_bytes(sha256_of(bytes)), backup }
}

pub open spec fn wrote(r: ResultModel) -> EntryModel {
    EntryModel::Wrote { path: r.path, sha256: r.sha256, bytes: r.bytes, backup: r.backup }
}

/// The transaction after an image was stored.
pub open spec fn recorded(t: TransactionModel, r: ResultModel) -> TransactionModel {
    TransactionModel { journal: t.journal.push(wrote(r)), results: t.results.push(r), ..t }
}

/// The transaction after all its writes.
pub open spec fn committed(t: TransactionModel) -> TransactionModel {
    TransactionModel { journal: t.journal.push(EntryModel::Commit { id: t.id }), ..t }
}

/// What reading a result back shows.
pub open spec fn written_fault(r: ResultModel, read: Result<Seq<u8>, Seq<char>>) -> Option<
    TransactionFault,
> {
    match read {
        Ok(bytes) => {
            let got = hex_bytes(sha256_of(bytes));
            if got == r.sha256 {
                None
            } else {
                Some(
                    TransactionFault::Other(
                        "post-write hash mismatch for "@ + r.path + ": expected "@ + r.sha256
                            + ", got "@ + got,
                    ),
                )
            }
        },
        Err(e) => Some(TransactionFault::Io { path: r.path, source: e }),
    }
}

// --- taking it ----------------------------------------------------------------------

fn add_message(messages: &mut Vec<String>, text: String)
    ensures
        strings(final(messages)@) == strings(old(messages)@).push(text@),
{
    let ghost before = messages@;
    messages.push(text);
    assert(strings(messages@) =~= strings(before).push(text@));
}

fn copy_messages(messages: &Vec<String>) -> (r: Vec<String>)
    ensures
        strings(r@) == strings(messages@),
{
    let mut out: Vec<String> = Vec::new();
    let ghost want = strings(messages@);
    let mut i: usize = 0;
    while i < messages.len()
        invariant
            i <= messages@.len(),
            want == strings(messages@),
            strings(out@) =~= want.take(i as int),
        decreases messages@.len() - i,
    {
        assert(want[i as int] == messages@[i as int]@);
        add_message(&mut out, messages[i].clone());
        i = i + 1;
    }
    assert(want.take(i as int) =~= want);
    out
}

fn transaction_id(clock: Clock) -> (r: String)
    ensures
        r@ == id_text(clock),
{
    let mut id = around_dec("tx-", clock.secs, "-");
    id.append(dec_text(clock.nanos as u64).as_str());
    id
}

fn dir_text(kind: &str, dir: &str, file_count: usize) -> (r: String)
    ensures
        r@ == kind@ + debug_text(dir@) + ", file_count: "@ + dec(file_count as nat) + " }"@,
{
    let mut m = kind.to_owned();
    m.append(debug_string(dir).as_str());
    m.append(", file_count: ");
    m.append(dec_text(file_count as u64).as_str());
    m.append(" }");
    m
}

fn describe(w: &PlannedWrite) -> (r: String)
    ensures
        r@ == write_text(w@),
{
    match w {
        PlannedWrite::EarlyCpio { path, intel_patches, amd_patches } => {
            let mut m = "EarlyCpio { path: ".to_owned();
            m.append(debug_string(path.as_str()).as_str());
            m.append(", intel_patches: ");
            m.append(dec_text(*intel_patches as u64).as_str());
            m.append(", amd_patches: ");
            m.append(dec_text(*amd_patches as u64).as_str());
            m.append(" }");
            m
        },
        PlannedWrite::IntelFirmwareDir { dir, file_count } => {
            dir_text("IntelFirmwareDir { dir: ", dir.as_str(), *file_count)
        },
        PlannedWrite::AmdFirmwareDir { dir, file_count } => {
            dir_text("AmdFirmwareDir { dir: ", dir.as_str(), *file_count)
        },
    }
}

fn add_descriptions(messages: &mut Vec<String>, writes: &Vec<PlannedWrite>)
    ensures
        strings(final(messages)@) == strings(old(messages)@) + dry_run_messages(
            writes_view(writes@),
        ),
{
    let ghost before = strings(messages@);
    let ghost want = dry_run_messages(writes_view(writes@));
    let mut i: usize = 0;
    while i < writes.len()
        invariant
            i <= writes@.len(),
            want == dry_run_messages(writes_view(writes@)),
            strings(messages@) =~= before + want.take(i as int),
        decreases writes@.len() - i,
    {
        assert(writes_view(writes@)[i as int] == writes@[i as int]@);
        let mut m = "dry-run: would apply ".to_owned();
        m.append(describe(&writes[i]).as_str());
        assert(m@ == want[i as int]);
        add_message(messages, m);
        i = i + 1;
    }
    assert(want.take(i as int) =~= want);
}

fn make_report(
    opts: &ApplyOptions,
    id: &str,
    dry_run: bool,
    results: Vec<ApplyResult>,
    messages: Vec<String>,
    receipt_path: Option<String>,
) -> (r: ApplyReport)
    ensures
        r@ == report_model(
            opts@,
            id@,
            dry_run,
            results_view(results@),
            strings(messages@),
            opt_text(receipt_path),
        ),
{
    ApplyReport {
        schema_version: 1,
        command: "apply".to_owned(),
        transaction_id: id.to_owned(),
        plan_id: opts.plan_id.clone(),
        dry_run,
        committed: !dry_run,
        results,
        messages,
        journal_path: opts.journal_path.clone(),
        receipt_path,
    }
}

fn no_results() -> (r: Vec<ApplyResult>)
    ensures
        results_view(r@) == Seq::<ResultModel>::empty(),
{
    let r: Vec<ApplyResult> = Vec::new();
    assert(results_view(r@) =~= Seq::<ResultModel>::empty());
    r
}

/// Check a plan and open the transaction that executes it. When `dry_run` is
/// set, it is only checked and described.
pub fn begin<'a>(
    plan: &'a Plan,
    opts: &'a ApplyOptions,
    facts: &[TargetFacts],
    root: Option<&RootFacts>,
    clock: Clock,
) -> (r: Result<Begun<'a>, TransactionError>)
    ensures
        match r {
            Ok(b) => begin_of(plan@, opts@, targets_view(facts@), opt_root(root), clock) == Ok::<
                _,
                TransactionFault,
            >(b@),
            Err(e) => begin_of(plan@, opts@, targets_view(facts@), opt_root(root), clock) == Err::<
                BegunModel,
                _,
            >(e@),
        },
{
    let checks = preflight(plan, facts, root);
    match require_ok(&checks) {
        Ok(_) => {},
        Err(e) => {
            return Err(e);
        },
    }
    let id = transaction_id(clock);
    let mut messages = copy_messages(&plan.messages);
    if opts.dry_run {
        add_descriptions(&mut messages, &plan.writes);
        return Ok(
            Begun::Described(make_report(opts, id.as_str(), true, no_results(), messages, None)),
        );
    }
    if plan.writes.len() == 0 {
        add_message(&mut messages, "nothing to apply".to_owned());
        let same = copy_messages(&messages);
        let receipt = make_report(opts, id.as_str(), false, no_results(), same, None);
        let report = make_report(
            opts,
            id.as_str(),
            false,
            no_results(),
            messages,
            opts.receipt_path.clone(),
        );
        return Ok(Begun::Nothing { receipt, report });
    }
    let mut journal = Journal::default();
    journal.push(
        JournalEntry::Begin {
            id: id.clone(),
            plan_id: opts.plan_id.clone(),
            started_unix: clock.started_unix,
        },
    );
    let t = Transaction {
        plan,
        opts,
        id,
        next: 0,
        journal,
        results: no_results(),
        messages,
    };
    assert(t@.journal =~= begun(plan@, opts@, clock)->Open_0.journal);
    Ok(Begun::Open(t))
}

/// The position of the first image at or after `from`. Each directory passed
/// over gets a message.
fn skip_dirs(writes: &Vec<PlannedWrite>, from: usize, messages: &mut Vec<String>) -> (r: usize)
    ensures
        (r as int, strings(final(messages)@)) == skipped(
            writes_view(writes@),
            from as int,
            strings(old(messages)@),
        ),
{
    let ghost all = writes_view(writes@);
    let ghost start = strings(messages@);
    let mut at: usize = from;
    while at < writes.len()
        invariant
            all == writes_view(writes@),
            start == strings(old(messages)@),
            skipped(all, from as int, start) == skipped(all, at as int, strings(messages@)),
        decreases writes@.len() - at,
    {
        assert(all[at as int] == writes@[at as int]@);
        let dir = match &writes[at] {
            PlannedWrite::EarlyCpio { .. } => {
                return at;
            },
            PlannedWrite::IntelFirmwareDir { dir, .. } => dir.as_str(),
            PlannedWrite::AmdFirmwareDir { dir, .. } => dir.as_str(),
        };
        let mut m = "skipped firmware directory write to ".to_owned();
        m.append(dir);
        m.append(" (not implemented in v0.1)");
        add_message(messages, m);
        at = at + 1;
    }
    at
}

/// The bytes of the early image of a transaction.
fn build_image(opts: &ApplyOptions) -> (r: Result<Vec<u8>, BootError>)
    ensures
        match r {
            Ok(b) => image_of(opts@) matches Ok(image) && image.bytes == b@,
            Err(e) => image_of(opts@) == Err::<EarlyModel, _>(e@),
        },
{
    let filter = if opts.filter_cpus.len() == 0 {
        None
    } else {
        Some(opts.filter_cpus.as_slice())
    };
    match build_early_cpio(
        EarlyBuildInput {
            catalog: &opts.catalog,
            filter_cpus: filter,
            emit_parent_dirs: true,
            best_only: true,
        },
    ) {
        Ok(built) => Ok(built.bytes),
        Err(e) => Err(e),
    }
}

impl<'a> Transaction<'a> {
    /// The image that is to be stored next; none once all writes are done.
    /// Writes of firmware directories are passed over with a message.
    pub fn next_write(&mut self) -> (r: Result<Option<Store>, TransactionError>)
        ensures
            final(self)@ == advanced(old(self)@),
            match r {
                Ok(Some(s)) => next_of(old(self)@) == Ok::<_, TransactionFault>(
                    Some((s.path@, s.bytes@)),
                ),
                Ok(None) => next_of(old(self)@) == Ok::<Option<(Seq<char>, Seq<u8>)>, TransactionFault>(
                    None,
                ),
                Err(e) => next_of(old(self)@) == Err::<Option<(Seq<char>, Seq<u8>)>, _>(e@),
            },
    {
        let plan = self.plan;
        let opts = self.opts;
        let at = skip_dirs(&plan.writes, self.next, &mut self.messages);
        if at >= plan.writes.len() {
            self.next = at;
            return Ok(None);
        }
        self.next = at + 1;
        let path = match &plan.writes[at] {
            PlannedWrite::EarlyCpio { path, .. } => path.clone(),
            _ => {
                return Ok(None);
            },
        };
        match build_image(opts) {
            Ok(bytes) => Ok(Some(Store { path, bytes })),
            Err(e) => Err(TransactionError::Boot(e)),
        }
    }

    /// Records that an image was stored, and where the previous contents went.
    pub fn stored(&mut self, store: &Store, backup: Option<String>)
        ensures
            final(self)@ == recorded(
                old(self)@,
                result_of(store.path@, store.bytes@, opt_text(backup)),
            ),
    {
        let ghost before = self@;
        let sha = sha256_hex(store.bytes.as_slice());
        let size = store.bytes.len() as u64;
        self.journal.push(
            JournalEntry::Wrote {
                path: store.path.clone(),
                sha256: sha.clone(),
                bytes: size,
                backup: backup.clone(),
            },
        );
        let result = ApplyResult { path: store.path.clone(), bytes: size, sha256: sha, backup };
        let ghost list = self.results@;
        self.results.push(result);
        assert(results_view(self.results@) =~= results_view(list).push(result@));
        assert(self@ =~= recorded(
            before,
            result_of(store.path@, store.bytes@, opt_text(backup)),
        ));
    }

    /// Closes the journal.
    pub fn commit(&mut self)
        ensures
            final(self)@ == committed(old(self)@),
    {
        let ghost before = self@;
        let id = self.id.clone();
        self.journal.push(JournalEntry::Commit { id });
        assert(self@ =~= committed(before));
    }

    /// Notes that the journal could not be saved, which does not undo the
    /// transaction.
    pub fn journal_failed(&mut self, cause: &str)
        ensures
            final(self)@ == (TransactionModel {
                messages: old(self)@.messages.push("warning: journal not written: "@ + cause@),
                ..old(self)@
            }),
    {
        let mut m = "warning: journal not written: ".to_owned();
        m.append(cause);
        add_message(&mut self.messages, m);
    }

    /// What was done. The report is also the receipt, where one is wanted.
    pub fn report(self) -> (r: ApplyReport)
        ensures
            r@ == report_model(
                self@.opts,
                self@.id,
                false,
                self@.results,
                self@.messages,
                self@.opts.receipt_path,
            ),
    {
        let receipt_path = self.opts.receipt_path.clone();
        make_report(
            self.opts,
            self.id.as_str(),
            false,
            self.results,
            self.messages,
            receipt_path,
        )
    }
}

/// The view of an attempt to read a file.
pub open spec fn read_view(read: Result<&[u8], &str>) -> Result<Seq<u8>, Seq<char>> {
    match read {
        Ok(b) => Ok(b@),
        Err(e) => Err(e@),
    }
}

/// Post-write validation: compares what was read back with what was stored.
pub fn check_written(result: &ApplyResult, read: Result<&[u8], &str>) -> (r: Result<
    (),
    TransactionError,
>)
    ensures
        match r {
            Ok(_) => written_fault(result@, read_view(read)) is None,
            Err(e) => written_fault(result@, read_view(read)) == Some(e@),
        },
{
    match read {
        Ok(bytes) => {
            let got = sha256_hex(bytes);
            if str_eq(got.as_str(), result.sha256.as_str()) {
                return Ok(());
            }
            let mut m = "post-write hash mismatch for ".to_owned();
            m.append(result.path.as_str());
            m.append(": expected ");
            m.append(result.sha256.as_str());
            m.append(", got ");
            m.append(got.as_str());
            Err(TransactionError::Other(m))
        },
        Err(e) => Err(
            TransactionError::Io { path: result.path.clone(), source: e.to_owned() },
        ),
    }
}

} // verus!
