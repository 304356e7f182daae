//! Laws of what a transaction refuses, does and reports.

use vstd::prelude::*;
use crate::digest::sha256_of;
use crate::number::{dec, hex_bytes};
use crate::policy::plan::{PlanModel, WriteModel};
use crate::transaction::apply::{
    advanced, begin_of, begun, committed, recorded, report_model, result_of, skip_message, skipped, write_text,
    written_fault, BegunModel, Clock, OptionsModel, ResultModel, TransactionModel,
};
use crate::transaction::error::TransactionFault;
use crate::transaction::journal::EntryModel;
use crate::transaction::preflight::{
    all_existing_issues, all_path_issues, claim_issues, escapes, existing_issues, facts_at, is_under, joined, path_issues,
    preflight_of, targets_of, RootModel, TargetModel,
};

verus! {

// --- checks -------------------------------------------------------------------------

/// Where a write goes: the file of an image, or the directory of firmware.
pub open spec fn goes_to(w: WriteModel, path: Seq<char>) -> bool {
    match w {
        WriteModel::EarlyCpio { path: p, .. } => p == path,
        WriteModel::IntelFirmwareDir { dir, .. } => dir == path,
        WriteModel::AmdFirmwareDir { dir, .. } => dir == path,
    }
}

/// Both places are known, and the target is not below the root.
pub open spec fn is_outside(t: TargetModel, root: Option<RootModel>) -> bool {
    t.absolute && root is Some && t.resolved is Some && (root->0).resolved is Some && !({
        let path = t.resolved->0;
        let base = (root->0).resolved->0;
        base.len() <= path.len() && path.take(base.len() as int) == base
    })
}

/// Nothing speaks against writing there.
pub open spec fn is_writable(path: Seq<char>, t: TargetModel, root: Option<RootModel>) -> bool {
    &&& path.len() > 0
    &&& !is_outside(t, root)
    &&& t.exists ==> !t.symlink && t.write_failure is None
}

/// What is known of the target; of one that was not looked at, nothing.
pub open spec fn known_of(facts: Seq<TargetModel>, i: int) -> TargetModel {
    if i < facts.len() {
        facts[i]
    } else {
        TargetModel { absolute: false, resolved: None, exists: false, symlink: false, write_failure: None }
    }
}

/// Nothing speaks against any of the targets.
pub open spec fn are_writable(targets: Seq<Seq<char>>, facts: Seq<TargetModel>, root: Option<RootModel>) -> bool {
    forall|i: int| 0 <= i < targets.len() ==> is_writable(#[trigger] targets[i], known_of(facts, i), root)
}

proof fn lemma_outside(t: TargetModel, root: Option<RootModel>)
    ensures
        is_outside(t, root) <==> escapes(t, root),
{
    if t.resolved is Some && root is Some && (root->0).resolved is Some {
        let path = t.resolved->0;
        let base = (root->0).resolved->0;
        if base.len() <= path.len() {
            if is_under(path, base) {
                assert(path.take(base.len() as int) =~= base);
            }
            if path.take(base.len() as int) == base {
                assert forall|i: int| 0 <= i < base.len() implies #[trigger] base[i] == path[i] by {
                    assert(path.take(base.len() as int)[i] == path[i]);
                }
            }
        }
    }
}

proof fn lemma_all_issues(targets: Seq<Seq<char>>, facts: Seq<TargetModel>, root: Option<RootModel>, n: nat)
    requires
        n <= targets.len(),
    ensures
        all_path_issues(targets, facts, root, n).len() == 0 && all_existing_issues(targets, facts, n).len() == 0
            <==> forall|i: int| 0 <= i < n ==> is_writable(#[trigger] targets[i], known_of(facts, i), root),
    decreases n,
{
    if n > 0 {
        let m = (n - 1) as nat;
        lemma_all_issues(targets, facts, root, m);
        lemma_outside(facts_at(facts, n - 1), root);
        assert(known_of(facts, n - 1) == facts_at(facts, n - 1));
        let fine = path_issues(targets[n - 1], facts_at(facts, n - 1), root).len() == 0 && existing_issues(
            targets[n - 1],
            facts_at(facts, n - 1),
        ).len() == 0;
        assert(fine <==> is_writable(targets[n - 1], known_of(facts, n - 1), root));
        if forall|i: int| 0 <= i < m ==> is_writable(#[trigger] targets[i], known_of(facts, i), root) {
            if fine {
                assert forall|i: int| 0 <= i < n implies is_writable(#[trigger] targets[i], known_of(facts, i), root)
                    by {}
            }
        }
    }
}

/// A plan passes its checks exactly if it does not claim changes without a
/// write and nothing speaks against any of its targets, all of which are listed
/// in order. A plan that does not pass is refused with all the reasons.
pub proof fn law_checks_find_every_obstacle(
    plan: PlanModel,
    opts: OptionsModel,
    facts: Seq<TargetModel>,
    root: Option<RootModel>,
    clock: Clock,
)
    ensures
        ({
            let c = preflight_of(plan, facts, root);
            &&& c.target_paths.len() == plan.writes.len()
            &&& forall|i: int|
                0 <= i < plan.writes.len() ==> goes_to(plan.writes[i], #[trigger] c.target_paths[i])
            &&& c.ok <==> (plan.would_change ==> plan.writes.len() > 0) && are_writable(
                c.target_paths,
                facts,
                root,
            )
            &&& c.ok <==> c.issues.len() == 0
            &&& begin_of(plan, opts, facts, root, clock) is Ok <==> c.ok
            &&& begin_of(plan, opts, facts, root, clock) matches Ok(b) ==> b == begun(plan, opts, clock)
            &&& begin_of(plan, opts, facts, root, clock) matches Err(e) ==> e == TransactionFault::Preflight(
                joined(c.issues, "; "@),
            )
        }),
{
    let targets = targets_of(plan.writes);
    let c = preflight_of(plan, facts, root);
    let x = claim_issues(plan);
    let y = all_path_issues(targets, facts, root, targets.len());
    let z = all_existing_issues(targets, facts, targets.len());
    lemma_all_issues(targets, facts, root, targets.len());
    assert(c.issues == x + y + z);
    assert(c.issues.len() == x.len() + y.len() + z.len());
    assert(x.len() == 0 <==> (plan.would_change ==> plan.writes.len() > 0));
    assert(are_writable(c.target_paths, facts, root) <==> y.len() == 0 && z.len() == 0);
}

proof fn lemma_issue_kept(targets: Seq<Seq<char>>, facts: Seq<TargetModel>, root: Option<RootModel>, n: nat, i: int)
    requires
        0 <= i < n <= targets.len(),
    ensures
        forall|k: int|
            0 <= k < path_issues(targets[i], facts_at(facts, i), root).len() ==> all_path_issues(
                targets,
                facts,
                root,
                n,
            ).contains(#[trigger] path_issues(targets[i], facts_at(facts, i), root)[k]),
        forall|k: int|
            0 <= k < existing_issues(targets[i], facts_at(facts, i)).len() ==> all_existing_issues(
                targets,
                facts,
                n,
            ).contains(#[trigger] existing_issues(targets[i], facts_at(facts, i))[k]),
    decreases n,
{
    let m = (n - 1) as nat;
    let a = all_path_issues(targets, facts, root, m);
    let b = path_issues(targets[n - 1], facts_at(facts, n - 1), root);
    let c = all_existing_issues(targets, facts, m);
    let d = existing_issues(targets[n - 1], facts_at(facts, n - 1));
    assert(all_path_issues(targets, facts, root, n) == a + b);
    assert(all_existing_issues(targets, facts, n) == c + d);
    if i < n - 1 {
        lemma_issue_kept(targets, facts, root, m, i);
        let p = path_issues(targets[i], facts_at(facts, i), root);
        let e = existing_issues(targets[i], facts_at(facts, i));
        assert forall|k: int| 0 <= k < p.len() implies (a + b).contains(#[trigger] p[k]) by {
            let x = choose|x: int| 0 <= x < a.len() && a[x] == p[k];
            assert((a + b)[x] == p[k]);
        }
        assert forall|k: int| 0 <= k < e.len() implies (c + d).contains(#[trigger] e[k]) by {
            let x = choose|x: int| 0 <= x < c.len() && c[x] == e[k];
            assert((c + d)[x] == e[k]);
        }
    } else {
        assert forall|k: int| 0 <= k < b.len() implies (a + b).contains(#[trigger] b[k]) by {
            assert((a + b)[a.len() + k] == b[k]);
        }
        assert forall|k: int| 0 <= k < d.len() implies (c + d).contains(#[trigger] d[k]) by {
            assert((c + d)[c.len() + k] == d[k]);
        }
    }
}

/// Every obstacle is among the reasons, in the words for it.
pub proof fn law_obstacles_are_named(plan: PlanModel, facts: Seq<TargetModel>, root: Option<RootModel>, i: int)
    requires
        0 <= i < plan.writes.len(),
    ensures
        ({
            let c = preflight_of(plan, facts, root);
            let path = c.target_paths[i];
            let t = known_of(facts, i);
            &&& path.len() == 0 ==> c.issues.contains("empty target path"@)
            &&& path.len() > 0 && is_outside(t, root) ==> c.issues.contains(
                "path "@ + path + " escapes confinement root "@ + (root->0).path,
            )
            &&& t.exists && t.symlink ==> c.issues.contains("refusing to overwrite symlink "@ + path)
            &&& t.exists && t.write_failure is Some ==> (t.write_failure matches Some(f) && c.issues.contains(
                "cannot write to "@ + f.0 + ": "@ + f.1,
            ))
        }),
{
    let c = preflight_of(plan, facts, root);
    let targets = targets_of(plan.writes);
    let n = targets.len();
    let t = facts_at(facts, i);
    assert(known_of(facts, i) == t);
    lemma_outside(t, root);
    lemma_issue_kept(targets, facts, root, n, i);
    let x = claim_issues(plan);
    let y = all_path_issues(targets, facts, root, n);
    let z = all_existing_issues(targets, facts, n);
    assert(c.issues == x + y + z);
    assert forall|s: Seq<char>| y.contains(s) || z.contains(s) implies #[trigger] c.issues.contains(s) by {
        if y.contains(s) {
            let k = choose|k: int| 0 <= k < y.len() && y[k] == s;
            assert(c.issues[x.len() + k] == s);
        } else {
            let k = choose|k: int| 0 <= k < z.len() && z[k] == s;
            assert(c.issues[x.len() + y.len() + k] == s);
        }
    }
    let p = path_issues(targets[i], t, root);
    let e = existing_issues(targets[i], t);
    if p.len() > 0 {
        assert(y.contains(p[0]));
    }
    if e.len() > 0 {
        assert(z.contains(e[0]));
        assert(z.contains(e[e.len() - 1]));
    }
}

// --- the course ---------------------------------------------------------------------

/// A dry run says what each write would do, behind what the plan says, and a
/// plan without writes says that there is nothing to do; neither writes. Any
/// other transaction opens with an empty list of results at the first write.
pub proof fn law_transactions_start_as_asked(plan: PlanModel, opts: OptionsModel, clock: Clock)
    ensures
        begun(plan, opts, clock) is Described <==> opts.dry_run,
        begun(plan, opts, clock) is Open <==> !opts.dry_run && plan.writes.len() > 0,
        begun(plan, opts, clock) matches BegunModel::Described(r) ==> {
            &&& r.dry_run
            &&& !r.committed
            &&& r.results.len() == 0
            &&& r.plan_id == opts.plan_id
            &&& r.receipt_path is None
            &&& r.messages.take(plan.messages.len() as int) == plan.messages
            &&& r.messages.len() == plan.messages.len() + plan.writes.len()
            &&& forall|i: int|
                0 <= i < plan.writes.len() ==> r.messages[plan.messages.len() + i] == "dry-run: would apply "@
                    + write_text(#[trigger] plan.writes[i])
        },
        begun(plan, opts, clock) matches BegunModel::Nothing { receipt, report } ==> {
            &&& !report.dry_run
            &&& report.committed
            &&& report.results.len() == 0
            &&& report.plan_id == opts.plan_id
            &&& report.messages == plan.messages.push("nothing to apply"@)
            &&& report.receipt_path == opts.receipt_path
            &&& receipt.receipt_path is None
            &&& receipt.messages == report.messages
            &&& receipt.committed
        },
        begun(plan, opts, clock) matches BegunModel::Open(t) ==> {
            &&& t.plan == plan
            &&& t.opts == opts
            &&& t.id == "tx-"@ + dec(clock.secs as nat) + "-"@ + dec(clock.nanos as nat)
            &&& t.next == 0
            &&& t.results.len() == 0
            &&& t.messages == plan.messages
            &&& t.journal == seq![
                EntryModel::Begin { id: t.id, plan_id: opts.plan_id, started_unix: clock.started_unix },
            ]
        },
{
    if let BegunModel::Described(r) = begun(plan, opts, clock) {
        assert(r.messages.take(plan.messages.len() as int) =~= plan.messages);
        assert forall|i: int| 0 <= i < plan.writes.len() implies r.messages[plan.messages.len() + i]
            == "dry-run: would apply "@ + write_text(#[trigger] plan.writes[i]) by {}
    }
}

/// The directory of a write that is passed over.
pub open spec fn dir_of(w: WriteModel) -> Seq<char> {
    match w {
        WriteModel::EarlyCpio { path, .. } => path,
        WriteModel::IntelFirmwareDir { dir, .. } => dir,
        WriteModel::AmdFirmwareDir { dir, .. } => dir,
    }
}

proof fn lemma_skip_messages(writes: Seq<WriteModel>, from: int, messages: Seq<Seq<char>>)
    requires
        0 <= from <= writes.len(),
    ensures
        ({
            let (at, all) = skipped(writes, from, messages);
            &&& from <= at <= writes.len()
            &&& all.len() == messages.len() + (at - from)
            &&& all.take(messages.len() as int) == messages
            &&& forall|k: int|
                from <= k < at ==> all[messages.len() + (k - from)] == skip_message(
                    dir_of(#[trigger] writes[k]),
                )
        }),
    decreases writes.len() - from,
{
    let (at, all) = skipped(writes, from, messages);
    if from < writes.len() && !(writes[from] is EarlyCpio) {
        let m = skip_message(dir_of(writes[from]));
        let more = messages.push(m);
        lemma_skip_messages(writes, from + 1, more);
        assert(all.take(messages.len() as int) =~= all.take(more.len() as int).take(messages.len() as int));
        assert(more.take(messages.len() as int) =~= messages);
        assert(all.take(more.len() as int)[messages.len() as int] == m);
        assert forall|k: int| from <= k < at implies all[messages.len() + (k - from)] == skip_message(
            dir_of(#[trigger] writes[k]),
        ) by {
            if k > from {
                assert(all[more.len() + (k - (from + 1))] == skip_message(dir_of(writes[k])));
            }
        }
    } else {
        assert(messages.take(messages.len() as int) =~= messages);
    }
}

/// Looking for the next image leaves a message for every directory that is
/// passed over, in order, and changes nothing else of the transaction but its
/// place in the plan.
pub proof fn law_passed_over_directories_are_named(t: TransactionModel)
    requires
        0 <= t.next <= t.plan.writes.len(),
    ensures
        ({
            let n = advanced(t);
            let count = n.messages.len() - t.messages.len();
            &&& n == (TransactionModel { next: n.next, messages: n.messages, ..t })
            &&& count >= 0
            &&& n.messages.take(t.messages.len() as int) == t.messages
            &&& n.next == t.next + count || n.next == t.next + count + 1
            &&& forall|k: int|
                t.next <= k < t.next + count ==> n.messages[t.messages.len() + (k - t.next)]
                    == "skipped firmware directory write to "@ + dir_of(#[trigger] t.plan.writes[k])
                    + " (not implemented in v0.1)"@
        }),
{
    lemma_skip_messages(t.plan.writes, t.next, t.messages);
}

/// What is recorded of an image is its path, its length, its digest and where
/// the previous contents went, in the results and in the journal alike; closing
/// adds the end of the transaction under its name. Neither changes anything
/// else.
pub proof fn law_writes_are_recorded(
    t: TransactionModel,
    path: Seq<char>,
    bytes: Seq<u8>,
    backup: Option<Seq<char>>,
)
    ensures
        ({
            let r = result_of(path, bytes, backup);
            let n = recorded(t, r);
            let c = committed(t);
            &&& r.path == path
            &&& r.bytes == bytes.len() as u64
            &&& r.sha256 == hex_bytes(sha256_of(bytes))
            &&& r.backup == backup
            &&& n.results == t.results.push(r)
            &&& n.journal == t.journal.push(
                EntryModel::Wrote {
                    path,
                    sha256: hex_bytes(sha256_of(bytes)),
                    bytes: bytes.len() as u64,
                    backup,
                },
            )
            &&& n == (TransactionModel { results: n.results, journal: n.journal, ..t })
            &&& c.journal == t.journal.push(EntryModel::Commit { id: t.id })
            &&& c == (TransactionModel { journal: c.journal, ..t })
        }),
{
}

/// What was read back passes exactly if it could be read and has the digest
/// that was recorded.
pub proof fn law_only_what_was_stored_passes(r: ResultModel, read: Result<Seq<u8>, Seq<char>>)
    ensures
        written_fault(r, read) is None <==> (read matches Ok(b) && hex_bytes(sha256_of(b)) == r.sha256),
        read matches Err(e) ==> written_fault(r, read) == Some(TransactionFault::Io { path: r.path, source: e }),
{
}

/// A report tells the transaction and the plan by name, what was written and
/// what was said, and that it was carried out unless it was a dry run.
pub proof fn law_reports_tell_what_was_done(
    opts: OptionsModel,
    id: Seq<char>,
    dry_run: bool,
    results: Seq<ResultModel>,
    messages: Seq<Seq<char>>,
    receipt: Option<Seq<char>>,
)
    ensures
        ({
            let r = report_model(opts, id, dry_run, results, messages, receipt);
            &&& r.schema_version == 1
            &&& r.command == "apply"@
            &&& r.transaction_id == id
            &&& r.plan_id == opts.plan_id
            &&& r.dry_run == dry_run
            &&& r.committed == !dry_run
            &&& r.results == results
            &&& r.messages == messages
            &&& r.journal_path == opts.journal_path
            &&& r.receipt_path == receipt
        }),
{
}

} // verus!
