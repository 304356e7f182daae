//! What holds of every transaction.

use vstd::prelude::*;
use crate::boot::content::{is_asked_for, law_only_what_was_asked_for_is_chosen, serves};
use crate::boot::early::{chosen, early_of};
use crate::catalog::collection::zipped;
use crate::digest::sha256_of;
use crate::number::hex_bytes;
use crate::policy::plan::{plan_of, InputModel, PlanModel, WriteModel};
use crate::transaction::apply::{
    advanced, begin_of, begun, committed, image_of, next_of, recorded, result_of, skipped,
    written_fault, wrote, BegunModel, Clock, OptionsModel, ResultModel, TransactionModel,
};
use crate::transaction::journal::EntryModel;
use crate::transaction::preflight::{
    all_existing_issues, all_path_issues, claim_issues, escapes, existing_issues, facts_at,
    path_issues, preflight_of, target_of, targets_of, RootModel, TargetModel,
};

verus! {

/// The journal opens with the transaction and then has one entry for each
/// result, in order.
pub open spec fn consistent(t: TransactionModel) -> bool {
    &&& 0 <= t.next
    &&& t.journal.len() == t.results.len() + 1
    &&& t.journal[0] matches EntryModel::Begin { id, plan_id, .. } && id == t.id && plan_id
        == t.opts.plan_id
    &&& forall|i: int|
        0 <= i < t.results.len() ==> t.journal[i + 1] == wrote(#[trigger] t.results[i])
}

/// A transaction opens consistent, and looking for the next write or recording
/// one keeps it so. Closing the journal adds the end of the transaction to it.
pub proof fn law_the_journal_follows_the_results(
    plan: PlanModel,
    opts: OptionsModel,
    clock: Clock,
    t: TransactionModel,
    r: ResultModel,
)
    requires
        consistent(t),
    ensures
        begun(plan, opts, clock) matches BegunModel::Open(first) ==> consistent(first),
        consistent(advanced(t)),
        consistent(recorded(t, r)),
        committed(t).journal == t.journal.push(EntryModel::Commit { id: t.id }),
        committed(t).results == t.results,
{
    lemma_skipped(t.plan.writes, t.next, t.messages);
    let after = recorded(t, r);
    assert forall|i: int| 0 <= i < after.results.len() implies after.journal[i + 1] == wrote(
        #[trigger] after.results[i],
    ) by {
        if i < t.results.len() {
            assert(after.results[i] == t.results[i]);
        }
    }
}

proof fn lemma_skipped(writes: Seq<WriteModel>, from: int, messages: Seq<Seq<char>>)
    requires
        0 <= from,
    ensures
        from <= skipped(writes, from, messages).0,
        from <= writes.len() ==> skipped(writes, from, messages).0 <= writes.len(),
        forall|k: int|
            from <= k < skipped(writes, from, messages).0 ==> !((#[trigger] writes[k]) is EarlyCpio),
        skipped(writes, from, messages).0 < writes.len() ==> writes[skipped(
            writes,
            from,
            messages,
        ).0] is EarlyCpio,
    decreases writes.len() - from,
{
    if from < writes.len() {
        match writes[from] {
            WriteModel::EarlyCpio { .. } => {},
            WriteModel::IntelFirmwareDir { dir, .. } => {
                lemma_skipped(
                    writes,
                    from + 1,
                    messages.push(crate::transaction::apply::skip_message(dir)),
                );
            },
            WriteModel::AmdFirmwareDir { dir, .. } => {
                lemma_skipped(
                    writes,
                    from + 1,
                    messages.push(crate::transaction::apply::skip_message(dir)),
                );
            },
        }
    }
}

/// No image is passed over: what comes next is the first image that was not
/// taken up yet, and when nothing comes, none is left.
pub proof fn law_every_image_is_taken_up(t: TransactionModel)
    requires
        0 <= t.next <= t.plan.writes.len(),
    ensures
        t.next <= advanced(t).next <= t.plan.writes.len(),
        match next_of(t) {
            Ok(Some((path, bytes))) => {
                let at = advanced(t).next - 1;
                &&& t.next <= at
                &&& t.plan.writes[at] matches WriteModel::EarlyCpio { path: p, .. } && p == path
                &&& forall|k: int| t.next <= k < at ==> !((#[trigger] t.plan.writes[k]) is EarlyCpio)
                &&& image_of(t.opts) matches Ok(image) && image.bytes == bytes
            },
            Ok(None) => forall|k: int|
                t.next <= k < t.plan.writes.len() ==> !((#[trigger] t.plan.writes[k]) is EarlyCpio),
            Err(_) => image_of(t.opts) is Err,
        },
{
    lemma_skipped(t.plan.writes, t.next, t.messages);
}

/// Nothing is written by a dry run or from an empty plan.
pub proof fn law_dry_runs_write_nothing(plan: PlanModel, opts: OptionsModel, clock: Clock)
    ensures
        opts.dry_run || plan.writes.len() == 0 <==> !(begun(plan, opts, clock) is Open),
        begun(plan, opts, clock) matches BegunModel::Described(r) ==> {
            &&& r.dry_run && !r.committed
            &&& r.results.len() == 0
            &&& r.messages.len() == plan.messages.len() + plan.writes.len()
        },
        begun(plan, opts, clock) matches BegunModel::Nothing { report, .. } ==> {
            &&& !report.dry_run && report.committed
            &&& report.results.len() == 0
        },
{
}

/// An image that is read back as it was stored passes, and one with another
/// digest does not.
pub proof fn law_stored_images_pass(
    path: Seq<char>,
    bytes: Seq<u8>,
    backup: Option<Seq<char>>,
    read: Seq<u8>,
)
    ensures
        written_fault(result_of(path, bytes, backup), Ok(bytes)) is None,
        written_fault(result_of(path, bytes, backup), Ok(read)) is None <==> hex_bytes(
            sha256_of(read),
        ) == hex_bytes(sha256_of(bytes)),
{
}

proof fn lemma_path_issues(
    targets: Seq<Seq<char>>,
    facts: Seq<TargetModel>,
    root: Option<RootModel>,
    n: nat,
    i: int,
)
    requires
        0 <= i < n <= targets.len(),
        all_path_issues(targets, facts, root, n).len() == 0,
    ensures
        path_issues(targets[i], facts_at(facts, i), root).len() == 0,
    decreases n,
{
    if i < n - 1 {
        lemma_path_issues(targets, facts, root, (n - 1) as nat, i);
    }
}

proof fn lemma_existing_issues(
    targets: Seq<Seq<char>>,
    facts: Seq<TargetModel>,
    n: nat,
    i: int,
)
    requires
        0 <= i < n <= targets.len(),
        all_existing_issues(targets, facts, n).len() == 0,
    ensures
        existing_issues(targets[i], facts_at(facts, i)).len() == 0,
    decreases n,
{
    if i < n - 1 {
        lemma_existing_issues(targets, facts, (n - 1) as nat, i);
    }
}

/// A transaction only starts where every target has a path, none is known to
/// lie outside the confinement root, and none is a symbolic link or in a
/// directory that cannot be written to.
pub proof fn law_only_safe_targets_are_written(
    plan: PlanModel,
    opts: OptionsModel,
    facts: Seq<TargetModel>,
    root: Option<RootModel>,
    clock: Clock,
    i: int,
)
    requires
        begin_of(plan, opts, facts, root, clock) is Ok,
        0 <= i < plan.writes.len(),
    ensures
        target_of(plan.writes[i]).len() > 0,
        !escapes(facts_at(facts, i), root),
        facts_at(facts, i).exists ==> !facts_at(facts, i).symlink && facts_at(
            facts,
            i,
        ).write_failure is None,
{
    let targets = targets_of(plan.writes);
    let checks = preflight_of(plan, facts, root);
    assert(checks.issues.len() == 0);
    assert(all_path_issues(targets, facts, root, targets.len()).len() == 0);
    assert(all_existing_issues(targets, facts, targets.len()).len() == 0);
    lemma_path_issues(targets, facts, root, targets.len(), i);
    lemma_existing_issues(targets, facts, targets.len(), i);
    assert(targets[i] == target_of(plan.writes[i]));
}

/// An evaluated plan never claims changes without listing them.
pub proof fn law_evaluated_plans_are_coherent(input: InputModel)
    ensures
        claim_issues(plan_of(input)).len() == 0,
{
    crate::policy::law::law_changes_are_listed(input);
}

/// The image that a transaction hands out is that of an early build from its
/// catalog for exactly the processors of its filter, with parent directories and
/// the best patches only; an empty filter is none. So with a filter every patch
/// in the image serves one of its processors.
pub proof fn law_images_are_built_for_the_filter(t: TransactionModel)
    requires
        next_of(t) is Ok,
        next_of(t)->Ok_0 is Some,
    ensures
        ({
            let bytes = (next_of(t)->Ok_0->Some_0).1;
            let s = zipped(t.opts.catalog.patches, t.opts.catalog.payloads);
            let filter = if t.opts.filter_cpus.len() > 0 {
                Some(t.opts.filter_cpus)
            } else {
                None
            };
            &&& early_of(t.opts.catalog, filter, true, true) matches Ok(image) && image.bytes == bytes
            &&& t.opts.filter_cpus.len() > 0 ==> {
                let c = chosen(s, Some(t.opts.filter_cpus), true);
                &&& forall|k: int|
                    0 <= k < c.intel.len() ==> exists|i: int|
                        0 <= i < t.opts.filter_cpus.len() && serves(
                            (#[trigger] c.intel[k]).1.0,
                            #[trigger] t.opts.filter_cpus[i],
                        )
                &&& forall|k: int|
                    0 <= k < c.amd.len() ==> exists|i: int|
                        0 <= i < t.opts.filter_cpus.len() && serves(
                            (#[trigger] c.amd[k]).0,
                            #[trigger] t.opts.filter_cpus[i],
                        )
            }
        }),
{
    let s = zipped(t.opts.catalog.patches, t.opts.catalog.payloads);
    if t.opts.filter_cpus.len() > 0 {
        let cpus = Some(t.opts.filter_cpus);
        let c = chosen(s, cpus, true);
        law_only_what_was_asked_for_is_chosen(s, cpus, true);
        assert forall|k: int| 0 <= k < c.intel.len() implies exists|i: int|
            0 <= i < t.opts.filter_cpus.len() && serves(
                (#[trigger] c.intel[k]).1.0,
                #[trigger] t.opts.filter_cpus[i],
            ) by {
            assert(is_asked_for(c.intel[k].1, cpus));
        }
        assert forall|k: int| 0 <= k < c.amd.len() implies exists|i: int|
            0 <= i < t.opts.filter_cpus.len() && serves(
                (#[trigger] c.amd[k]).0,
                #[trigger] t.opts.filter_cpus[i],
            ) by {
            assert(is_asked_for(c.amd[k], cpus));
        }
    }
}

} // verus!
