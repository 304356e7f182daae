//! Choosing the best patch for a processor.

use vstd::prelude::*;
use crate::model::cpu::{CpuIdentity, Vendor};
use crate::model::patch::{
    any_signature, digest_eq, has_signature, metas_view, primary_of, refs_view, PatchMeta,
    PatchModel,
};
use crate::order::{
    is_sorted, law_sort_permutes, law_sort_sorts, lemma_same_members, lemma_sort_len, lemma_sort_map, order_of, sort, sort_by,
    Order, Ranking,
};
use crate::text::{str_less, text_less};

verus! {

/// Why a structurally valid patch was not selected.
#[derive(Debug, Clone, Copy, PartialEq, Eq, Structural)]
pub enum Rejection {
    WrongVendor,
    SignatureMismatch,
    PlatformMaskMismatch,
    PlatformIdUnknown,
    NotAMicrocodeImage,
    OlderThanRunning,
    SameAsRunning,
}

#[derive(Debug, Clone, PartialEq, Eq)]
pub struct Candidate<'a> {
    pub patch: &'a PatchMeta,
    pub rejection: Option<Rejection>,
}

/// Result of choosing the best patch for one CPU.
#[derive(Debug, Clone, PartialEq, Eq)]
pub struct SelectionOutcome<'a> {
    /// Highest-revision applicable patch, regardless of what is running.
    pub best: Option<&'a PatchMeta>,
    /// Every patch that applies to this CPU, newest first.
    pub applicable: Vec<&'a PatchMeta>,
    /// Applicable patches that tie with `best` on revision but differ in
    /// content. A non-empty value means the input set is self-contradictory.
    pub ambiguous_with: Vec<&'a PatchMeta>,
    /// All inputs annotated with why they were or were not applicable.
    pub considered: Vec<Candidate<'a>>,
}

/// The contents of a [`SelectionOutcome`].
#[verifier::ext_equal]
pub struct SelectionModel {
    pub best: Option<PatchModel>,
    pub applicable: Seq<PatchModel>,
    pub ambiguous_with: Seq<PatchModel>,
    pub considered: Seq<(PatchModel, Option<Rejection>)>,
}

pub open spec fn candidates_view(c: Seq<Candidate>) -> Seq<(PatchModel, Option<Rejection>)> {
    c.map_values(|x: Candidate| (x.patch@, x.rejection))
}

impl<'a> View for SelectionOutcome<'a> {
    type V = SelectionModel;

    open spec fn view(&self) -> SelectionModel {
        SelectionModel {
            best: match self.best {
                Some(p) => Some(p@),
                None => None,
            },
            applicable: refs_view(self.applicable@),
            ambiguous_with: refs_view(self.ambiguous_with@),
            considered: candidates_view(self.considered@),
        }
    }
}

impl<'a> SelectionOutcome<'a> {
    pub fn is_ambiguous(&self) -> (r: bool)
        ensures
            r == (self@.ambiguous_with.len() > 0),
    {
        self.ambiguous_with.len() > 0
    }
}

// --- what is selected ---------------------------------------------------------

/// The first reason for which a patch is not for a processor.
pub open spec fn rejection_of(patch: PatchModel, cpu: CpuIdentity) -> Option<Rejection> {
    if patch.vendor != cpu.vendor {
        Some(Rejection::WrongVendor)
    } else if !patch.loadable() {
        Some(Rejection::NotAMicrocodeImage)
    } else if !any_signature(patch.matches, cpu.signature) {
        Some(Rejection::SignatureMismatch)
    } else if cpu.vendor == Vendor::Intel && cpu.platform_mask is None {
        Some(Rejection::PlatformIdUnknown)
    } else if !patch.applies(cpu) {
        Some(Rejection::PlatformMaskMismatch)
    } else {
        None
    }
}

/// The number of one bits.
pub open spec fn ones(v: nat) -> nat
    decreases v,
{
    if v == 0 {
        0
    } else {
        v % 2 + ones(v / 2)
    }
}

/// How many platforms the primary pair names; unlimited without a pair.
pub open spec fn width_of(p: PatchModel) -> nat {
    match primary_of(p.matches) {
        Some(m) => ones(m.platform_mask.0 as nat),
        None => u32::MAX as nat,
    }
}

pub open spec fn date_key(p: PatchModel) -> int {
    match p.date {
        Some(d) => d.key(),
        None => 0,
    }
}

/// `a` is preferred to `b`: higher revision, then newer date, then narrower
/// platform mask, then smaller source, then smaller offset.
pub open spec fn preferred(a: PatchModel, b: PatchModel) -> bool {
    if a.revision != b.revision {
        a.revision > b.revision
    } else if date_key(a) != date_key(b) {
        date_key(a) > date_key(b)
    } else if width_of(a) != width_of(b) {
        width_of(a) < width_of(b)
    } else if a.origin.source != b.origin.source {
        text_less(a.origin.source, b.origin.source)
    } else {
        a.origin.offset < b.origin.offset
    }
}

pub open spec fn preference() -> spec_fn(PatchModel, PatchModel) -> bool {
    |a: PatchModel, b: PatchModel| preferred(a, b)
}

/// The patches that are not rejected, in the given order.
pub open spec fn applicable_of(patches: Seq<PatchModel>, cpu: CpuIdentity) -> Seq<PatchModel>
    decreases patches.len(),
{
    if patches.len() == 0 {
        Seq::empty()
    } else {
        let rest = applicable_of(patches.drop_last(), cpu);
        if rejection_of(patches.last(), cpu) is None {
            rest.push(patches.last())
        } else {
            rest
        }
    }
}

/// `other` has the revision of `best` but is not known to have its bytes.
pub open spec fn conflicts(best: PatchModel, other: PatchModel) -> bool {
    !(other.sha256 is Some && other.sha256 == best.sha256)
}

/// The patches of `rest` that conflict with `best`, up to the first one with
/// another revision.
pub open spec fn conflicting(best: PatchModel, rest: Seq<PatchModel>) -> Seq<PatchModel>
    decreases rest.len(),
{
    if rest.len() == 0 || rest[0].revision != best.revision {
        Seq::empty()
    } else {
        let tail = conflicting(best, rest.drop_first());
        if conflicts(best, rest[0]) {
            seq![rest[0]] + tail
        } else {
            tail
        }
    }
}

/// What selection yields for a list of patches and a processor.
pub open spec fn selection(patches: Seq<PatchModel>, cpu: CpuIdentity) -> SelectionModel {
    let applicable = sort_by(applicable_of(patches, cpu), preference());
    SelectionModel {
        best: if applicable.len() > 0 {
            Some(applicable[0])
        } else {
            None
        },
        applicable,
        ambiguous_with: if applicable.len() > 0 {
            conflicting(applicable[0], applicable.drop_first())
        } else {
            Seq::empty()
        },
        considered: patches.map_values(|p: PatchModel| (p, rejection_of(p, cpu))),
    }
}

// --- the order ----------------------------------------------------------------

/// The order of preference among patches.
pub struct Preference;

fn count_ones(v: u32) -> (r: u32)
    ensures
        r == ones(v as nat),
{
    let mut n: u32 = v;
    let mut c: u32 = 0;
    let ghost mut bound: nat = 32;
    assert(n <= crate::number::power(2, 32) - 1) by {
        reveal_with_fuel(crate::number::power, 33);
    }
    while n > 0
        invariant
            ones(v as nat) == c + ones(n as nat),
            c + bound <= 32,
            n < crate::number::power(2, bound),
        decreases n,
    {
        proof {
            assert(bound > 0) by {
                reveal_with_fuel(crate::number::power, 1);
            }
            assert(n / 2 < crate::number::power(2, (bound - 1) as nat)) by {
                reveal_with_fuel(crate::number::power, 2);
            }
            bound = (bound - 1) as nat;
        }
        c = c + n % 2;
        n = n / 2;
    }
    c
}

fn mask_width(p: &PatchMeta) -> (r: u32)
    ensures
        r == width_of(p@),
{
    match p.primary_match() {
        Some(m) => count_ones(m.platform_mask.raw()),
        None => u32::MAX,
    }
}

fn date_rank(p: &PatchMeta) -> (r: u32)
    ensures
        r == date_key(p@),
{
    match p.date {
        Some(d) => d.sort_key(),
        None => 0,
    }
}

/// Preference is transitive.
pub proof fn lemma_preferred_transitive(a: PatchModel, b: PatchModel, c: PatchModel)
    requires
        preferred(a, b),
        preferred(b, c),
    ensures
        preferred(a, c),
{
    let (x, y, z) = (a.origin.source, b.origin.source, c.origin.source);
    if text_less(x, y) && text_less(y, z) {
        crate::text::lemma_text_less_transitive(x, y, z);
    }
    crate::text::lemma_text_less_irreflexive(x);
    if x == z && text_less(x, y) && text_less(y, z) {
        crate::text::lemma_text_less_transitive(x, y, z);
    }
}

pub proof fn lemma_preferred_weak(a: PatchModel, b: PatchModel, c: PatchModel)
    requires
        !preferred(a, b),
        !preferred(b, c),
    ensures
        !preferred(a, c),
{
    let (x, y, z) = (a.origin.source, b.origin.source, c.origin.source);
    crate::text::lemma_text_less_total(x, y);
    crate::text::lemma_text_less_total(y, z);
    crate::text::lemma_text_less_irreflexive(x);
    crate::text::lemma_text_less_irreflexive(y);
    crate::text::lemma_text_less_irreflexive(z);
    if text_less(x, z) {
        if text_less(z, y) {
            crate::text::lemma_text_less_transitive(x, z, y);
        }
        if text_less(y, x) {
            crate::text::lemma_text_less_transitive(y, x, z);
        }
        if text_less(z, y) && text_less(y, x) {
            crate::text::lemma_text_less_transitive(z, y, x);
            crate::text::lemma_text_less_transitive(x, z, x);
        }
    }
    if x == z && text_less(y, x) && text_less(x, y) {
        crate::text::lemma_text_less_transitive(x, y, x);
    }
}

impl<'a> Ranking<&'a PatchMeta> for Preference {
    open spec fn less(a: &'a PatchMeta, b: &'a PatchMeta) -> bool {
        preferred(a@, b@)
    }

    proof fn irreflexive(a: &'a PatchMeta) {
        crate::text::lemma_text_less_irreflexive(a@.origin.source);
    }

    proof fn transitive(a: &'a PatchMeta, b: &'a PatchMeta, c: &'a PatchMeta) {
        lemma_preferred_transitive(a@, b@, c@);
    }

    proof fn weak(a: &'a PatchMeta, b: &'a PatchMeta, c: &'a PatchMeta) {
        lemma_preferred_weak(a@, b@, c@);
    }
}

impl<'a> Order<&'a PatchMeta> for Preference {
    fn is_less(a: &&'a PatchMeta, b: &&'a PatchMeta) -> (r: bool) {
        if a.revision != b.revision {
            return a.revision > b.revision;
        }
        let (ka, kb) = (date_rank(a), date_rank(b));
        if ka != kb {
            return ka > kb;
        }
        let (wa, wb) = (mask_width(a), mask_width(b));
        if wa != wb {
            return wa < wb;
        }
        if !crate::text::str_eq(a.origin.source.as_str(), b.origin.source.as_str()) {
            return str_less(a.origin.source.as_str(), b.origin.source.as_str());
        }
        a.origin.offset < b.origin.offset
    }
}

fn classify(patch: &PatchMeta, cpu: &CpuIdentity) -> (r: Option<Rejection>)
    ensures
        r == rejection_of(patch@, *cpu),
{
    if patch.vendor != cpu.vendor {
        return Some(Rejection::WrongVendor);
    }
    if !patch.is_loadable() {
        return Some(Rejection::NotAMicrocodeImage);
    }
    if !has_signature(patch.matches.as_slice(), cpu.signature) {
        return Some(Rejection::SignatureMismatch);
    }
    if cpu.vendor == Vendor::Intel && cpu.platform_mask.is_none() {
        return Some(Rejection::PlatformIdUnknown);
    }
    if !patch.applies_to(cpu) {
        return Some(Rejection::PlatformMaskMismatch);
    }
    None
}

/// Pure selection: no I/O, no side effects, fully deterministic.
///
/// Ordering rule, in priority order:
///   1. higher revision wins;
///   2. newer date wins (ties on revision should not happen, but do in the
///      wild when vendors re-release);
///   3. narrower platform mask wins (a targeted image beats a catch-all);
///   4. lexicographic origin, purely to make the result deterministic.
pub fn select_for_cpu<'a>(patches: &'a [PatchMeta], cpu: &CpuIdentity) -> (r: SelectionOutcome<'a>)
    ensures
        r@ == selection(metas_view(patches@), *cpu),
{
    let ghost models = metas_view(patches@);
    let mut considered: Vec<Candidate<'a>> = Vec::new();
    let mut found: Vec<&'a PatchMeta> = Vec::new();
    let mut i: usize = 0;
    while i < patches.len()
        invariant
            i <= patches@.len(),
            models == metas_view(patches@),
            refs_view(found@) =~= applicable_of(models.take(i as int), *cpu),
            considered@.len() == i,
            forall|k: int|
                0 <= k < i ==> (#[trigger] considered@[k]).patch@ == models[k] && considered@[k].rejection
                    == rejection_of(models[k], *cpu),
        decreases patches@.len() - i,
    {
        let patch: &'a PatchMeta = &patches[i];
        let rejection = classify(patch, cpu);
        assert(models.take(i + 1).drop_last() =~= models.take(i as int));
        assert(models.take(i + 1).last() == patch@);
        let ghost before = found@;
        if rejection.is_none() {
            found.push(patch);
            assert(refs_view(found@) =~= refs_view(before).push(patch@));
        }
        considered.push(Candidate { patch, rejection });
        i = i + 1;
    }
    assert(models.take(i as int) =~= models);
    let ghost unsorted = found@;
    let applicable = sort::<&'a PatchMeta, Preference>(found);
    proof {
        lemma_sort_map(
            unsorted,
            |p: &PatchMeta| p@,
            order_of::<&'a PatchMeta, Preference>(),
            preference(),
        );
        assert(refs_view(applicable@) == sort_by(applicable_of(models, *cpu), preference()));
    }
    let best: Option<&'a PatchMeta> = if applicable.len() > 0 {
        Some(applicable[0])
    } else {
        None
    };
    let mut ambiguous_with: Vec<&'a PatchMeta> = Vec::new();
    if let Some(top) = best {
        let ghost all = refs_view(applicable@);
        let mut k: usize = 1;
        assert(all.skip(1) =~= all.drop_first());
        assert(refs_view(ambiguous_with@) =~= Seq::empty());
        while k < applicable.len() && applicable[k].revision == top.revision
            invariant
                1 <= k <= applicable@.len(),
                all == refs_view(applicable@),
                refs_view(ambiguous_with@) + conflicting(top@, all.skip(k as int)) =~= conflicting(
                    top@,
                    all.drop_first(),
                ),
            decreases applicable@.len() - k,
        {
            let other = applicable[k];
            let ghost before = ambiguous_with@;
            assert(all.skip(k as int)[0] == other@);
            assert(all.skip(k as int).drop_first() =~= all.skip(k + 1));
            if !(other.sha256.is_some() && digest_eq(&other.sha256, &top.sha256)) {
                ambiguous_with.push(other);
                assert(refs_view(ambiguous_with@) =~= refs_view(before).push(other@));
            }
            k = k + 1;
        }
        assert(conflicting(top@, all.skip(k as int)) =~= Seq::empty()) by {
            if k < applicable.len() {
                assert(all.skip(k as int)[0] == applicable@[k as int]@);
            }
        }
        assert(refs_view(ambiguous_with@) =~= conflicting(top@, all.drop_first()));
    } else {
        assert(refs_view(ambiguous_with@) =~= Seq::empty());
    }
    let r = SelectionOutcome { best, applicable, ambiguous_with, considered };
    assert(r@.considered =~= selection(models, *cpu).considered);
    r
}

// --- laws -----------------------------------------------------------------------

proof fn lemma_applicable_members(patches: Seq<PatchModel>, cpu: CpuIdentity)
    ensures
        forall|i: int|
            0 <= i < applicable_of(patches, cpu).len() ==> patches.contains(
                #[trigger] applicable_of(patches, cpu)[i],
            ) && rejection_of(applicable_of(patches, cpu)[i], cpu) is None,
        forall|i: int|
            0 <= i < patches.len() && rejection_of(#[trigger] patches[i], cpu) is None
                ==> applicable_of(patches, cpu).contains(patches[i]),
    decreases patches.len(),
{
    if patches.len() > 0 {
        let front = patches.drop_last();
        lemma_applicable_members(front, cpu);
        let rest = applicable_of(front, cpu);
        let all = applicable_of(patches, cpu);
        assert forall|i: int| 0 <= i < all.len() implies patches.contains(#[trigger] all[i])
            && rejection_of(all[i], cpu) is None by {
            if i < rest.len() {
                assert(all[i] == rest[i]);
                let j = choose|j: int| 0 <= j < front.len() && front[j] == rest[i];
                assert(patches[j] == rest[i]);
            } else {
                assert(all[i] == patches[patches.len() - 1]);
            }
        }
        assert forall|i: int| 0 <= i < patches.len() && rejection_of(#[trigger] patches[i], cpu) is None implies all.contains(
            patches[i],
        ) by {
            if i < front.len() {
                assert(front[i] == patches[i]);
                let j = choose|j: int| 0 <= j < rest.len() && rest[j] == front[i];
                assert(all[j] == patches[i]);
            } else {
                assert(all[all.len() - 1] == patches[i]);
            }
        }
    }
}

impl Ranking<PatchModel> for Preference {
    open spec fn less(a: PatchModel, b: PatchModel) -> bool {
        preferred(a, b)
    }

    proof fn irreflexive(a: PatchModel) {
        crate::text::lemma_text_less_irreflexive(a.origin.source);
    }

    proof fn transitive(a: PatchModel, b: PatchModel, c: PatchModel) {
        lemma_preferred_transitive(a, b, c);
    }

    proof fn weak(a: PatchModel, b: PatchModel, c: PatchModel) {
        lemma_preferred_weak(a, b, c);
    }
}

proof fn lemma_applicable_sorted(patches: Seq<PatchModel>, cpu: CpuIdentity)
    ensures
        is_sorted(selection(patches, cpu).applicable, preference()),
        selection(patches, cpu).applicable.to_multiset() == applicable_of(patches, cpu).to_multiset(),
        selection(patches, cpu).applicable.len() == applicable_of(patches, cpu).len(),
{
    let found = applicable_of(patches, cpu);
    assert(preference() =~= order_of::<PatchModel, Preference>());
    law_sort_sorts::<PatchModel, Preference>(found);
    law_sort_permutes(found, preference());
    lemma_sort_len(found, preference());
}

/// The applicable patches are exactly those that nothing speaks against, each
/// as often as it was given.
pub proof fn law_applicable_are_the_unrejected(patches: Seq<PatchModel>, cpu: CpuIdentity, p: PatchModel)
    ensures
        selection(patches, cpu).applicable.contains(p) <==> (patches.contains(p) && rejection_of(p, cpu)
            is None),
        selection(patches, cpu).applicable.to_multiset() == applicable_of(patches, cpu).to_multiset(),
{
    let sorted = selection(patches, cpu).applicable;
    let found = applicable_of(patches, cpu);
    lemma_applicable_sorted(patches, cpu);
    lemma_applicable_members(patches, cpu);
    if sorted.contains(p) {
        lemma_same_members(sorted, found, p);
        let i = choose|i: int| 0 <= i < found.len() && found[i] == p;
        assert(patches.contains(found[i]));
    }
    if patches.contains(p) && rejection_of(p, cpu) is None {
        let i = choose|i: int| 0 <= i < patches.len() && patches[i] == p;
        assert(found.contains(patches[i]));
        lemma_same_members(found, sorted, p);
    }
}

/// The applicable patches stand newest first.
pub proof fn law_applicable_newest_first(patches: Seq<PatchModel>, cpu: CpuIdentity, i: int, j: int)
    requires
        0 <= i <= j < selection(patches, cpu).applicable.len(),
    ensures
        selection(patches, cpu).applicable[i].revision >= selection(patches, cpu).applicable[j].revision,
{
    lemma_applicable_sorted(patches, cpu);
    let sorted = selection(patches, cpu).applicable;
    if i < j {
        assert(!(preference())(sorted[j], sorted[i]));
    }
}

/// There is a best patch whenever a given one applies; it applies itself, and
/// no applicable patch is preferred to it or has a higher revision.
pub proof fn law_best_is_the_newest(patches: Seq<PatchModel>, cpu: CpuIdentity, p: PatchModel)
    requires
        patches.contains(p),
        rejection_of(p, cpu) is None,
    ensures
        selection(patches, cpu).best matches Some(best) && {
            &&& patches.contains(best)
            &&& rejection_of(best, cpu) is None
            &&& best.applies(cpu)
            &&& p.revision <= best.revision
            &&& !preferred(p, best)
        },
{
    let sorted = selection(patches, cpu).applicable;
    law_applicable_are_the_unrejected(patches, cpu, p);
    lemma_applicable_sorted(patches, cpu);
    let i = choose|i: int| 0 <= i < sorted.len() && sorted[i] == p;
    assert(sorted.contains(sorted[0]));
    law_applicable_are_the_unrejected(patches, cpu, sorted[0]);
    if i > 0 {
        assert(!(preference())(sorted[i], sorted[0]));
    } else {
        Preference::irreflexive(p);
    }
}

/// Nothing is selected where nothing applies: without the platform of an Intel
/// processor, and from test images.
pub proof fn law_nothing_is_guessed(patches: Seq<PatchModel>, cpu: CpuIdentity)
    requires
        (cpu.vendor == Vendor::Intel && cpu.platform_mask is None) || (forall|i: int|
            0 <= i < patches.len() ==> !(#[trigger] patches[i]).loadable()),
    ensures
        selection(patches, cpu).best is None,
        selection(patches, cpu).applicable.len() == 0,
        selection(patches, cpu).ambiguous_with.len() == 0,
{
    let sorted = selection(patches, cpu).applicable;
    if sorted.len() > 0 {
        assert(sorted.contains(sorted[0]));
        law_applicable_are_the_unrejected(patches, cpu, sorted[0]);
        let i = choose|i: int| 0 <= i < patches.len() && patches[i] == sorted[0];
        assert(patches[i].loadable());
    }
}

proof fn lemma_conflicting_members(best: PatchModel, rest: Seq<PatchModel>, i: int)
    requires
        0 <= i < conflicting(best, rest).len(),
    ensures
        conflicting(best, rest)[i].revision == best.revision,
        conflicts(best, conflicting(best, rest)[i]),
        rest.contains(conflicting(best, rest)[i]),
    decreases rest.len(),
{
    let tail = conflicting(best, rest.drop_first());
    let x = conflicting(best, rest)[i];
    if conflicts(best, rest[0]) {
        if i == 0 {
            assert(rest[0] == x);
        } else {
            lemma_conflicting_members(best, rest.drop_first(), i - 1);
            let k = choose|k: int| 0 <= k < rest.drop_first().len() && rest.drop_first()[k] == x;
            assert(rest[k + 1] == x);
        }
    } else {
        lemma_conflicting_members(best, rest.drop_first(), i);
        let k = choose|k: int| 0 <= k < rest.drop_first().len() && rest.drop_first()[k] == x;
        assert(rest[k + 1] == x);
    }
}

/// Every patch reported as ambiguous is applicable, has the revision of the
/// best one, and is not known to have the same bytes.
pub proof fn law_ambiguity_is_a_tie(patches: Seq<PatchModel>, cpu: CpuIdentity, i: int)
    requires
        0 <= i < selection(patches, cpu).ambiguous_with.len(),
    ensures
        selection(patches, cpu).best matches Some(best) && {
            let other = selection(patches, cpu).ambiguous_with[i];
            &&& other.revision == best.revision
            &&& conflicts(best, other)
            &&& selection(patches, cpu).applicable.contains(other)
        },
{
    let sorted = selection(patches, cpu).applicable;
    lemma_conflicting_members(sorted[0], sorted.drop_first(), i);
    let x = selection(patches, cpu).ambiguous_with[i];
    let k = choose|k: int| 0 <= k < sorted.drop_first().len() && sorted.drop_first()[k] == x;
    assert(sorted[k + 1] == x);
}

} // verus!
