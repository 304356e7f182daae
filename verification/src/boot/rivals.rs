//! Which AMD patches stay when only the best are wanted.

use vstd::prelude::*;
use crate::boot::early::{amd_step, chosen, first_for, wanted};
use crate::boot::law::{candidate, lemma_chosen_candidates, lemma_first_for};
use crate::catalog::collection::Held;
use crate::model::cpu::{CpuIdentity, CpuSignature, Vendor};
use crate::model::patch::{any_signature, first_primary, primary_of, ProcessorMatch};

verus! {

/// The patch is for the processor.
pub open spec fn is_for(p: Held, signature: CpuSignature) -> bool {
    any_signature(p.0.matches, signature)
}

/// The two patches are for the same processors.
pub open spec fn same_cpus(a: Held, b: Held) -> bool {
    forall|x: CpuSignature| #[trigger] is_for(a, x) <==> is_for(b, x)
}

/// Two candidates that have a processor in common have all in common.
pub open spec fn grouped(s: Seq<Held>, cpus: Option<Seq<CpuIdentity>>) -> bool {
    forall|a: Held, b: Held, x: CpuSignature|
        candidate(s, cpus, Vendor::Amd, a) && candidate(s, cpus, Vendor::Amd, b) && #[trigger] is_for(
            a,
            x,
        ) && #[trigger] is_for(b, x) ==> same_cpus(a, b)
}

/// The entry at position `k` is for the same processors and at least as new.
pub open spec fn supersedes(list: Seq<Held>, k: int, p: Held) -> bool {
    0 <= k < list.len() && same_cpus(list[k], p) && list[k].0.revision >= p.0.revision
}

/// An entry for the same processors, at least as new, is in the list.
pub open spec fn superseded(list: Seq<Held>, p: Held) -> bool {
    exists|k: int| supersedes(list, k, p)
}

/// No processor has two entries.
pub open spec fn one_per_cpu(list: Seq<Held>) -> bool {
    forall|i: int, j: int, x: CpuSignature|
        0 <= i < j < list.len() && #[trigger] is_for(list[i], x) ==> !#[trigger] is_for(list[j], x)
}

proof fn lemma_primary(m: Seq<ProcessorMatch>)
    ensures
        primary_of(m) matches Some(p) ==> any_signature(m, p.signature),
        primary_of(m) is None ==> m.len() == 0,
{
    lemma_first_primary(m);
    if m.len() > 0 {
        assert(m[0].signature == m[0].signature);
    }
}

proof fn lemma_first_primary(m: Seq<ProcessorMatch>)
    ensures
        first_primary(m) matches Some(p) ==> any_signature(m, p.signature),
    decreases m.len(),
{
    if m.len() > 0 {
        let rest = m.drop_first();
        lemma_first_primary(rest);
        assert(m[0].signature == m[0].signature);
        if let Some(p) = first_primary(rest) {
            let i = choose|i: int| 0 <= i < rest.len() && (#[trigger] rest[i]).signature == p.signature;
            assert(m[i + 1].signature == p.signature);
        }
    }
}

proof fn lemma_no_earlier(list: Seq<Held>, x: CpuSignature, from: int, k: int)
    requires
        0 <= from <= k < list.len(),
        is_for(list[k], x),
    ensures
        first_for(list, x, from) is Some,
    decreases list.len() - from,
{
    if !any_signature(list[from].0.matches, x) {
        lemma_no_earlier(list, x, from + 1, k);
    }
}

proof fn lemma_found(list: Seq<Held>, x: CpuSignature, from: int)
    requires
        0 <= from,
    ensures
        first_for(list, x, from) matches Some(i) ==> is_for(list[i], x),
    decreases list.len() - from,
{
    if from < list.len() {
        lemma_found(list, x, from + 1);
    }
}

/// A step without a rival: the patch is added, and no entry is for one of its
/// processors.
proof fn lemma_added(s: Seq<Held>, cpus: Option<Seq<CpuIdentity>>, list: Seq<Held>, p: Held)
    requires
        grouped(s, cpus),
        candidate(s, cpus, Vendor::Amd, p),
        forall|i: int| 0 <= i < list.len() ==> candidate(s, cpus, Vendor::Amd, #[trigger] list[i]),
        one_per_cpu(list),
        primary_of(p.0.matches) matches Some(m) ==> first_for(list, m.signature, 0) is None,
    ensures
        one_per_cpu(list.push(p)),
        superseded(list.push(p), p),
        forall|q: Held| superseded(list, q) ==> #[trigger] superseded(list.push(p), q),
{
    let new = list.push(p);
    lemma_primary(p.0.matches);
    assert forall|i: int, j: int, x: CpuSignature|
        0 <= i < j < new.len() && #[trigger] is_for(new[i], x) implies !#[trigger] is_for(
        new[j],
        x,
    ) by {
        assert(new[i] == list[i]);
        if j < list.len() {
            assert(new[j] == list[j]);
        } else if is_for(p, x) {
            let y = primary_of(p.0.matches)->0.signature;
            assert(same_cpus(list[i], p));
            assert(is_for(p, y));
            assert(is_for(list[i], y));
            lemma_no_earlier(list, y, 0, i);
        }
    }
    assert(supersedes(new, list.len() as int, p));
    assert forall|q: Held| superseded(list, q) implies #[trigger] superseded(new, q) by {
        let k = choose|k: int| supersedes(list, k, q);
        assert(supersedes(new, k, q));
    }
}

/// A step with an older rival: the patch takes its place.
proof fn lemma_replaced(
    s: Seq<Held>,
    cpus: Option<Seq<CpuIdentity>>,
    list: Seq<Held>,
    p: Held,
    at: int,
    y: CpuSignature,
)
    requires
        grouped(s, cpus),
        candidate(s, cpus, Vendor::Amd, p),
        forall|i: int| 0 <= i < list.len() ==> candidate(s, cpus, Vendor::Amd, #[trigger] list[i]),
        one_per_cpu(list),
        0 <= at < list.len(),
        is_for(list[at], y),
        is_for(p, y),
        list[at].0.revision < p.0.revision,
    ensures
        one_per_cpu(list.remove(at).push(p)),
        superseded(list.remove(at).push(p), p),
        forall|q: Held| superseded(list, q) ==> #[trigger] superseded(list.remove(at).push(p), q),
{
    let rest = list.remove(at);
    let new = rest.push(p);
    assert(same_cpus(list[at], p));
    assert forall|i: int, j: int, x: CpuSignature|
        0 <= i < j < new.len() && #[trigger] is_for(new[i], x) implies !#[trigger] is_for(
        new[j],
        x,
    ) by {
        let a = if i < at { i } else { i + 1 };
        assert(new[i] == list[a]);
        if j < rest.len() {
            let b = if j < at { j } else { j + 1 };
            assert(new[j] == list[b]);
        } else if is_for(p, x) {
            assert(is_for(list[at], x));
            if a < at {
                assert(!is_for(list[at], x));
            } else {
                assert(!is_for(list[a], x));
            }
        }
    }
    assert(supersedes(new, rest.len() as int, p));
    assert forall|q: Held| superseded(list, q) implies #[trigger] superseded(new, q) by {
        let k = choose|k: int| supersedes(list, k, q);
        if k == at {
            assert(supersedes(new, rest.len() as int, q));
        } else {
            let n = if k < at { k } else { k - 1 };
            assert(new[n] == list[k]);
            assert(supersedes(new, n, q));
        }
    }
}

proof fn lemma_best_amd(s: Seq<Held>, n: int, cpus: Option<Seq<CpuIdentity>>)
    requires
        grouped(s, cpus),
        0 <= n <= s.len(),
    ensures
        one_per_cpu(chosen(s.take(n), cpus, true).amd),
        forall|i: int|
            0 <= i < n && (#[trigger] s[i]).0.vendor == Vendor::Amd && wanted(s[i], cpus) ==> superseded(
                chosen(s.take(n), cpus, true).amd,
                s[i],
            ),
    decreases n,
{
    if n > 0 {
        lemma_best_amd(s, n - 1, cpus);
        lemma_chosen_candidates(s, n - 1, cpus, true);
        assert(s.take(n).drop_last() =~= s.take(n - 1));
        let p = s[n - 1];
        assert(s.take(n).last() == p);
        assert(s.contains(p));
        let list = chosen(s.take(n - 1), cpus, true).amd;
        let new = chosen(s.take(n), cpus, true).amd;
        if wanted(p, cpus) && p.0.vendor == Vendor::Amd {
            assert(new == amd_step(list, p, true));
            match primary_of(p.0.matches) {
                Some(m) => {
                    lemma_primary(p.0.matches);
                    lemma_first_for(list, m.signature, 0);
                    lemma_found(list, m.signature, 0);
                    match first_for(list, m.signature, 0) {
                        Some(at) => {
                            assert(candidate(s, cpus, Vendor::Amd, list[at]));
                            assert(is_for(p, m.signature) && is_for(list[at], m.signature));
                            assert(same_cpus(list[at], p));
                            if list[at].0.revision >= p.0.revision {
                                assert(supersedes(list, at, p));
                            } else {
                                lemma_replaced(s, cpus, list, p, at, m.signature);
                            }
                        },
                        None => {
                            lemma_added(s, cpus, list, p);
                        },
                    }
                },
                None => {
                    lemma_added(s, cpus, list, p);
                },
            }
        } else {
            assert(new == list);
        }
    }
}

/// With only the best wanted, the image holds one AMD patch per processor, and
/// for every wanted patch one for its processors that is at least as new. This
/// is so as long as no two candidates overlap in some processors and differ in
/// others: the newer of two such patches drives the other out, with the
/// processors that only the other is for.
pub proof fn law_best_only_keeps_the_newest_amd(
    s: Seq<Held>,
    cpus: Option<Seq<CpuIdentity>>,
    i: int,
)
    requires
        grouped(s, cpus),
        0 <= i < s.len(),
        s[i].0.vendor == Vendor::Amd,
        wanted(s[i], cpus),
    ensures
        one_per_cpu(chosen(s, cpus, true).amd),
        superseded(chosen(s, cpus, true).amd, s[i]),
{
    lemma_best_amd(s, s.len() as int, cpus);
    assert(s.take(s.len() as int) =~= s);
}

} // verus!
