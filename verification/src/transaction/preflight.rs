//! Checks before anything is written.

use vstd::prelude::*;
use crate::policy::plan::{writes_view, Plan, PlanModel, PlannedWrite, WriteModel};
use crate::text::{chars_of, str_eq, strings};
use crate::transaction::error::{TransactionError, TransactionFault};

verus! {

#[derive(Debug)]
pub struct PreflightReport {
    pub ok: bool,
    pub issues: Vec<String>,
    pub target_paths: Vec<String>,
}

/// The contents of a [`PreflightReport`].
#[verifier::ext_equal]
pub struct PreflightModel {
    pub ok: bool,
    pub issues: Seq<Seq<char>>,
    pub target_paths: Seq<Seq<char>>,
}

impl View for PreflightReport {
    type V = PreflightModel;

    open spec fn view(&self) -> PreflightModel {
        PreflightModel {
            ok: self.ok,
            issues: strings(self.issues@),
            target_paths: strings(self.target_paths@),
        }
    }
}

/// What the file system shows of a target.
#[derive(Debug)]
pub struct TargetFacts {
    /// The path is absolute.
    pub absolute: bool,
    /// The components of the path with every link resolved, or of its parent
    /// with its name behind; none where neither could be resolved.
    pub resolved: Option<Vec<String>>,
    /// Something is there. A link that leads nowhere is nothing.
    pub exists: bool,
    /// What is there is a symbolic link.
    pub symlink: bool,
    /// Creating a file beside what is there failed: the directory, and why.
    pub write_failure: Option<(String, String)>,
}

/// The contents of [`TargetFacts`].
#[verifier::ext_equal]
pub struct TargetModel {
    pub absolute: bool,
    pub resolved: Option<Seq<Seq<char>>>,
    pub exists: bool,
    pub symlink: bool,
    pub write_failure: Option<(Seq<char>, Seq<char>)>,
}

/// The view of a component list that may be missing.
pub open spec fn opt_components(c: Option<Vec<String>>) -> Option<Seq<Seq<char>>> {
    match c {
        Some(v) => Some(strings(v@)),
        None => None,
    }
}

impl View for TargetFacts {
    type V = TargetModel;

    open spec fn view(&self) -> TargetModel {
        TargetModel {
            absolute: self.absolute,
            resolved: opt_components(self.resolved),
            exists: self.exists,
            symlink: self.symlink,
            write_failure: match self.write_failure {
                Some(f) => Some((f.0@, f.1@)),
                None => None,
            },
        }
    }
}

impl TargetModel {
    /// Nothing is known of the target.
    pub open spec fn unknown() -> TargetModel {
        TargetModel {
            absolute: false,
            resolved: None,
            exists: false,
            symlink: false,
            write_failure: None,
        }
    }
}

pub open spec fn targets_view(v: Seq<TargetFacts>) -> Seq<TargetModel> {
    v.map_values(|t: TargetFacts| t@)
}

/// The directory that absolute targets must stay under.
#[derive(Debug)]
pub struct RootFacts {
    pub path: String,
    /// The components of the path with every link resolved, where it could be.
    pub resolved: Option<Vec<String>>,
}

/// The contents of [`RootFacts`].
#[verifier::ext_equal]
pub struct RootModel {
    pub path: Seq<char>,
    pub resolved: Option<Seq<Seq<char>>>,
}

impl View for RootFacts {
    type V = RootModel;

    open spec fn view(&self) -> RootModel {
        RootModel { path: self.path@, resolved: opt_components(self.resolved) }
    }
}

pub open spec fn opt_root(r: Option<&RootFacts>) -> Option<RootModel> {
    match r {
        Some(x) => Some(x@),
        None => None,
    }
}

// --- what is wrong ------------------------------------------------------------------

/// Where a write goes.
pub open spec fn target_of(w: WriteModel) -> Seq<char> {
    match w {
        WriteModel::EarlyCpio { path, .. } => path,
        WriteModel::IntelFirmwareDir { dir, .. } => dir,
        WriteModel::AmdFirmwareDir { dir, .. } => dir,
    }
}

pub open spec fn targets_of(writes: Seq<WriteModel>) -> Seq<Seq<char>> {
    writes.map_values(|w: WriteModel| target_of(w))
}

/// One path leads with all the components of the other.
pub open spec fn is_under(path: Seq<Seq<char>>, root: Seq<Seq<char>>) -> bool {
    root.len() <= path.len() && forall|i: int|
        0 <= i < root.len() ==> #[trigger] root[i] == path[i]
}

/// An absolute target is known to lie outside the root.
pub open spec fn escapes(t: TargetModel, root: Option<RootModel>) -> bool {
    &&& t.absolute
    &&& root is Some
    &&& t.resolved is Some
    &&& (root->0).resolved is Some
    &&& !is_under(t.resolved->0, (root->0).resolved->0)
}

/// What is wrong with a target path. Relative paths may lead anywhere.
pub open spec fn path_issues(path: Seq<char>, t: TargetModel, root: Option<RootModel>) -> Seq<
    Seq<char>,
> {
    if path.len() == 0 {
        seq!["empty target path"@]
    } else if escapes(t, root) {
        seq!["path "@ + path + " escapes confinement root "@ + (root->0).path]
    } else {
        Seq::empty()
    }
}

/// What is wrong with what is at a target already.
pub open spec fn existing_issues(path: Seq<char>, t: TargetModel) -> Seq<Seq<char>> {
    if !t.exists {
        Seq::empty()
    } else {
        (if t.symlink {
            seq!["refusing to overwrite symlink "@ + path]
        } else {
            Seq::empty()
        }) + (match t.write_failure {
            Some(f) => seq!["cannot write to "@ + f.0 + ": "@ + f.1],
            None => Seq::empty(),
        })
    }
}

/// The facts about the target at a position.
pub open spec fn facts_at(facts: Seq<TargetModel>, i: int) -> TargetModel {
    if i < facts.len() {
        facts[i]
    } else {
        TargetModel::unknown()
    }
}

pub open spec fn all_path_issues(
    targets: Seq<Seq<char>>,
    facts: Seq<TargetModel>,
    root: Option<RootModel>,
    n: nat,
) -> Seq<Seq<char>>
    decreases n,
{
    if n == 0 {
        Seq::empty()
    } else {
        all_path_issues(targets, facts, root, (n - 1) as nat) + path_issues(
            targets[n - 1],
            facts_at(facts, n - 1),
            root,
        )
    }
}

pub open spec fn all_existing_issues(
    targets: Seq<Seq<char>>,
    facts: Seq<TargetModel>,
    n: nat,
) -> Seq<Seq<char>>
    decreases n,
{
    if n == 0 {
        Seq::empty()
    } else {
        all_existing_issues(targets, facts, (n - 1) as nat) + existing_issues(
            targets[n - 1],
            facts_at(facts, n - 1),
        )
    }
}

pub open spec fn claim_issues(plan: PlanModel) -> Seq<Seq<char>> {
    if plan.writes.len() == 0 && plan.would_change {
        seq!["plan claims changes but lists no writes"@]
    } else {
        Seq::empty()
    }
}

pub open spec fn preflight_of(
    plan: PlanModel,
    facts: Seq<TargetModel>,
    root: Option<RootModel>,
) -> PreflightModel {
    let targets = targets_of(plan.writes);
    let issues = claim_issues(plan) + all_path_issues(targets, facts, root, targets.len())
        + all_existing_issues(targets, facts, targets.len());
    PreflightModel { ok: issues.len() == 0, issues, target_paths: targets }
}

/// Texts with a separator between them.
pub open spec fn joined(parts: Seq<Seq<char>>, separator: Seq<char>) -> Seq<char>
    decreases parts.len(),
{
    if parts.len() == 0 {
        Seq::empty()
    } else if parts.len() == 1 {
        parts[0]
    } else {
        joined(parts.drop_last(), separator) + separator + parts.last()
    }
}

// --- checking -----------------------------------------------------------------------

fn add_issue(issues: &mut Vec<String>, text: String)
    ensures
        strings(final(issues)@) == strings(old(issues)@).push(text@),
{
    let ghost before = issues@;
    issues.push(text);
    assert(strings(issues@) =~= strings(before).push(text@));
}

/// Where the writes of a plan go.
pub fn target_paths(writes: &Vec<PlannedWrite>) -> (r: Vec<String>)
    ensures
        strings(r@) == targets_of(writes_view(writes@)),
{
    let mut out: Vec<String> = Vec::new();
    let ghost want = targets_of(writes_view(writes@));
    let mut i: usize = 0;
    while i < writes.len()
        invariant
            i <= writes@.len(),
            want == targets_of(writes_view(writes@)),
            strings(out@) =~= want.take(i as int),
        decreases writes@.len() - i,
    {
        let path = match &writes[i] {
            PlannedWrite::EarlyCpio { path, .. } => path.clone(),
            PlannedWrite::IntelFirmwareDir { dir, .. } => dir.clone(),
            PlannedWrite::AmdFirmwareDir { dir, .. } => dir.clone(),
        };
        assert(writes_view(writes@)[i as int] == writes@[i as int]@);
        assert(path@ == want[i as int]);
        add_issue(&mut out, path);
        i = i + 1;
    }
    assert(want.take(i as int) =~= want);
    out
}

fn stays_under(path: &Vec<String>, root: &Vec<String>) -> (r: bool)
    ensures
        r == is_under(strings(path@), strings(root@)),
{
    let ghost p = strings(path@);
    let ghost q = strings(root@);
    if root.len() > path.len() {
        return false;
    }
    let mut i: usize = 0;
    while i < root.len()
        invariant
            i <= root@.len() <= path@.len(),
            p == strings(path@),
            q == strings(root@),
            forall|k: int| 0 <= k < i ==> #[trigger] q[k] == p[k],
        decreases root@.len() - i,
    {
        assert(q[i as int] == root@[i as int]@);
        assert(p[i as int] == path@[i as int]@);
        if !str_eq(path[i].as_str(), root[i].as_str()) {
            return false;
        }
        i = i + 1;
    }
    true
}

/// What is wrong with a target path, appended to the issues.
fn check_path(
    path: &str,
    facts: Option<&TargetFacts>,
    root: Option<&RootFacts>,
    issues: &mut Vec<String>,
)
    ensures
        strings(final(issues)@) == strings(old(issues)@) + path_issues(
            path@,
            match facts {
                Some(f) => f@,
                None => TargetModel::unknown(),
            },
            opt_root(root),
        ),
{
    let ghost before = strings(issues@);
    let ghost t = match facts {
        Some(f) => f@,
        None => TargetModel::unknown(),
    };
    let chars = chars_of(path);
    if chars.len() == 0 {
        add_issue(issues, "empty target path".to_owned());
        assert(strings(issues@) =~= before + path_issues(path@, t, opt_root(root)));
        return;
    }
    if let (Some(f), Some(r)) = (facts, root) {
        if f.absolute {
            // Absolute paths must stay under confinement root when set.
            if let (Some(cpath), Some(croot)) = (&f.resolved, &r.resolved) {
                if !stays_under(cpath, croot) {
                    let mut m = "path ".to_owned();
                    m.append(path);
                    m.append(" escapes confinement root ");
                    m.append(r.path.as_str());
                    add_issue(issues, m);
                }
            }
        }
    }
    // Relative paths are fine (cwd-relative write).
    assert(strings(issues@) =~= before + path_issues(path@, t, opt_root(root)));
}

/// What is wrong with what is at a target already, appended to the issues.
fn check_existing(path: &str, facts: Option<&TargetFacts>, issues: &mut Vec<String>)
    ensures
        strings(final(issues)@) == strings(old(issues)@) + existing_issues(
            path@,
            match facts {
                Some(f) => f@,
                None => TargetModel::unknown(),
            },
        ),
{
    let ghost before = strings(issues@);
    if let Some(f) = facts {
        if f.exists {
            if f.symlink {
                let mut m = "refusing to overwrite symlink ".to_owned();
                m.append(path);
                add_issue(issues, m);
            }
            if let Some(failure) = &f.write_failure {
                let mut m = "cannot write to ".to_owned();
                m.append(failure.0.as_str());
                m.append(": ");
                m.append(failure.1.as_str());
                add_issue(issues, m);
            }
        }
        assert(strings(issues@) =~= before + existing_issues(path@, f@));
    }
    assert(strings(issues@) =~= before + existing_issues(
        path@,
        match facts {
            Some(f) => f@,
            None => TargetModel::unknown(),
        },
    ));
}

fn fact_at(facts: &[TargetFacts], i: usize) -> (r: Option<&TargetFacts>)
    ensures
        facts_at(targets_view(facts@), i as int) == match r {
            Some(f) => f@,
            None => TargetModel::unknown(),
        },
{
    if i < facts.len() {
        Some(&facts[i])
    } else {
        None
    }
}

/// Validate that a plan can be applied safely. The facts are those about the
/// targets of the plan's writes, in order.
pub fn preflight(plan: &Plan, facts: &[TargetFacts], confinement_root: Option<&RootFacts>) -> (r:
    PreflightReport)
    ensures
        r@ == preflight_of(plan@, targets_view(facts@), opt_root(confinement_root)),
{
    let mut issues: Vec<String> = Vec::new();
    assert(strings(issues@) =~= Seq::empty());
    let ghost known = targets_view(facts@);
    let ghost root = opt_root(confinement_root);
    if plan.writes.len() == 0 && plan.would_change {
        add_issue(&mut issues, "plan claims changes but lists no writes".to_owned());
    }
    assert(strings(issues@) =~= claim_issues(plan@));
    let targets = target_paths(&plan.writes);
    let ghost names = strings(targets@);
    let ghost claims = strings(issues@);
    let mut i: usize = 0;
    assert(claims =~= claims + all_path_issues(names, known, root, 0));
    while i < targets.len()
        invariant
            i <= targets@.len(),
            names == strings(targets@),
            known == targets_view(facts@),
            root == opt_root(confinement_root),
            strings(issues@) =~= claims + all_path_issues(names, known, root, i as nat),
        decreases targets@.len() - i,
    {
        assert(names[i as int] == targets@[i as int]@);
        check_path(targets[i].as_str(), fact_at(facts, i), confinement_root, &mut issues);
        i = i + 1;
        assert(all_path_issues(names, known, root, i as nat) == all_path_issues(
            names,
            known,
            root,
            (i - 1) as nat,
        ) + path_issues(names[i - 1], facts_at(known, i - 1), root));
    }
    let ghost paths = strings(issues@);
    let mut k: usize = 0;
    assert(paths =~= paths + all_existing_issues(names, known, 0));
    while k < targets.len()
        invariant
            k <= targets@.len(),
            names == strings(targets@),
            known == targets_view(facts@),
            strings(issues@) =~= paths + all_existing_issues(names, known, k as nat),
        decreases targets@.len() - k,
    {
        assert(names[k as int] == targets@[k as int]@);
        check_existing(targets[k].as_str(), fact_at(facts, k), &mut issues);
        k = k + 1;
        assert(all_existing_issues(names, known, k as nat) == all_existing_issues(
            names,
            known,
            (k - 1) as nat,
        ) + existing_issues(names[k - 1], facts_at(known, k - 1)));
    }
    let ok = issues.len() == 0;
    let r = PreflightReport { ok, issues, target_paths: targets };
    assert(r@.issues =~= preflight_of(plan@, known, root).issues);
    r
}

/// Map preflight failure into a hard error.
pub fn require_ok(report: &PreflightReport) -> (r: Result<(), TransactionError>)
    ensures
        match r {
            Ok(_) => report.ok,
            Err(e) => !report.ok && e@ == TransactionFault::Preflight(
                joined(report@.issues, "; "@),
            ),
        },
{
    if report.ok {
        return Ok(());
    }
    let ghost all = strings(report.issues@);
    let mut text = String::new();
    let mut i: usize = 0;
    assert(text@ =~= joined(all.take(0), "; "@));
    while i < report.issues.len()
        invariant
            i <= report.issues@.len(),
            all == strings(report.issues@),
            text@ =~= joined(all.take(i as int), "; "@),
            i == 0 ==> text@.len() == 0,
        decreases report.issues@.len() - i,
    {
        assert(all.take(i + 1).drop_last() =~= all.take(i as int));
        assert(all.take(i + 1).last() == report.issues@[i as int]@);
        if i > 0 {
            text.append("; ");
        }
        text.append(report.issues[i].as_str());
        i = i + 1;
    }
    assert(all.take(i as int) =~= all);
    Err(TransactionError::Preflight(text))
}

} // verus!
