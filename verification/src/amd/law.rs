//! Containers are deterministic and within the limits.

use vstd::prelude::*;
use crate::amd::container::{
    container_at, containers_from, containers_of, entries_in, lemma_container_length, section_at,
    sections_from, table_findings, with_tail, AmdPatchModel, ContainerModel, EquivalenceEntry,
};
use crate::amd::header::{magic, CONTAINER_HEADER_SIZE, SECTION_HEADER_SIZE, SECTION_TYPE_PATCH};
use crate::amd::writer::{
    built, distinct_cpus, emitted, entry_less, law_built_container_reads_back, law_table_is_keyed, patch_less,
    placed, readable_payload, strictly_sorted, with_entry, BuilderModel,
};
use crate::bytes::{has_bytes_at, le32, slice_of};
use crate::intel::validate::given;
use crate::model::limits::Limits;
use crate::model::validate::{finding, FindingCode, FindingModel};
use crate::number::dec;
use crate::order::{
    dedup_by, equal, is_strict, law_dedup_is_strict, law_dedup_keeps_members, law_sort_sorts,
    law_strict_order_is_canonical, lemma_sort_members, order_of, sort_by, Ranking,
};

verus! {

/// A patch of the builder: equivalence id, patch id and payload.
pub type Piece = (u16, u32, Seq<u8>);

/// The order of patches by equivalence id and patch id.
struct PieceOrder;

impl Ranking<Piece> for PieceOrder {
    open spec fn less(a: Piece, b: Piece) -> bool {
        patch_less(a, b)
    }

    proof fn irreflexive(a: Piece) {
    }

    proof fn transitive(a: Piece, b: Piece, c: Piece) {
    }

    proof fn weak(a: Piece, b: Piece, c: Piece) {
    }
}

/// The order of table entries.
struct EntryOrder;

impl Ranking<EquivalenceEntry> for EntryOrder {
    open spec fn less(a: EquivalenceEntry, b: EquivalenceEntry) -> bool {
        entry_less(a, b)
    }

    proof fn irreflexive(a: EquivalenceEntry) {
    }

    proof fn transitive(a: EquivalenceEntry, b: EquivalenceEntry, c: EquivalenceEntry) {
    }

    proof fn weak(a: EquivalenceEntry, b: EquivalenceEntry, c: EquivalenceEntry) {
    }
}

proof fn lemma_dedup_sorted(s: Seq<Piece>)
    requires
        forall|i: int, j: int|
            0 <= i < j < s.len() ==> !patch_less(#[trigger] s[j], #[trigger] s[i]),
    ensures
        ({
            let t = dedup_by(s, equal::<Piece>());
            forall|i: int, j: int|
                0 <= i < j < t.len() ==> !patch_less(#[trigger] t[j], #[trigger] t[i])
        }),
    decreases s.len(),
{
    if s.len() > 0 {
        let front = s.drop_last();
        assert forall|i: int, j: int| 0 <= i < j < front.len() implies !patch_less(
            #[trigger] front[j],
            #[trigger] front[i],
        ) by {
            assert(!patch_less(s[j], s[i]));
        }
        lemma_dedup_sorted(front);
        law_dedup_keeps_members(front);
        let t = dedup_by(front, equal::<Piece>());
        let u = dedup_by(s, equal::<Piece>());
        assert forall|i: int, j: int| 0 <= i < j < u.len() implies !patch_less(
            #[trigger] u[j],
            #[trigger] u[i],
        ) by {
            if j < t.len() {
                assert(!patch_less(t[j], t[i]));
            } else {
                assert(t.contains(t[i]));
                let k = choose|k: int| 0 <= k < front.len() && front[k] == t[i];
                assert(!patch_less(s[s.len() - 1], s[k]));
            }
        }
    }
}

proof fn lemma_sorted(patches: Seq<Piece>) -> (s: Seq<Piece>)
    ensures
        s == sort_by(patches, order_of::<Piece, PieceOrder>()),
        emitted(patches) == dedup_by(s, equal::<Piece>()),
        forall|i: int, j: int|
            0 <= i < j < s.len() ==> !patch_less(#[trigger] s[j], #[trigger] s[i]),
        forall|p: Piece| #[trigger] s.contains(p) <==> patches.contains(p),
{
    let s = sort_by(patches, order_of::<Piece, PieceOrder>());
    assert(order_of::<Piece, PieceOrder>() =~= |a: Piece, b: Piece| patch_less(a, b));
    law_sort_sorts::<Piece, PieceOrder>(patches);
    assert forall|i: int, j: int| 0 <= i < j < s.len() implies !patch_less(
        #[trigger] s[j],
        #[trigger] s[i],
    ) by {
        assert(!(order_of::<Piece, PieceOrder>())(s[j], s[i]));
    }
    lemma_sort_members(patches, order_of::<Piece, PieceOrder>());
    s
}

/// Patches are written in the order of their equivalence and patch ids, and
/// what is written is what was added.
pub proof fn law_patches_are_emitted_in_order(patches: Seq<Piece>)
    ensures
        forall|i: int, j: int|
            0 <= i < j < emitted(patches).len() ==> !patch_less(
                #[trigger] emitted(patches)[j],
                #[trigger] emitted(patches)[i],
            ),
        forall|p: Piece| #[trigger] emitted(patches).contains(p) <==> patches.contains(p),
{
    let s = lemma_sorted(patches);
    lemma_dedup_sorted(s);
    law_dedup_keeps_members(s);
    assert forall|p: Piece| #[trigger] emitted(patches).contains(p) <==> patches.contains(p) by {
        assert(s.contains(p) <==> patches.contains(p));
    }
}

/// No two different patches have the same equivalence and patch id.
pub open spec fn told_apart(patches: Seq<Piece>) -> bool {
    forall|i: int, j: int|
        0 <= i < patches.len() && 0 <= j < patches.len() && (#[trigger] patches[i]).0 == (
        #[trigger] patches[j]).0 && patches[i].1 == patches[j].1 ==> patches[i] == patches[j]
}

proof fn lemma_emitted_strict(patches: Seq<Piece>)
    requires
        told_apart(patches),
    ensures
        is_strict(emitted(patches), order_of::<Piece, PieceOrder>()),
{
    let s = lemma_sorted(patches);
    assert forall|i: int, j: int|
        0 <= i < s.len() && 0 <= j < s.len() && !PieceOrder::less(s[i], s[j]) && !PieceOrder::less(
            #[trigger] s[j],
            #[trigger] s[i],
        ) implies s[i] == s[j] by {
        assert(s.contains(s[i]) && s.contains(s[j]));
        assert(patches.contains(s[i]) && patches.contains(s[j]));
        let m = choose|m: int| 0 <= m < patches.len() && patches[m] == s[i];
        let n = choose|n: int| 0 <= n < patches.len() && patches[n] == s[j];
        assert(patches[m] == patches[n]);
    }
    law_dedup_is_strict::<Piece, PieceOrder>(s);
}

/// The same patches are told apart in any order.
proof fn lemma_told_apart(a: Seq<Piece>, b: Seq<Piece>)
    requires
        told_apart(a),
        forall|p: Piece| #[trigger] a.contains(p) <==> b.contains(p),
    ensures
        told_apart(b),
{
    assert forall|i: int, j: int|
        0 <= i < b.len() && 0 <= j < b.len() && (#[trigger] b[i]).0 == (#[trigger] b[j]).0
            && b[i].1 == b[j].1 implies b[i] == b[j] by {
        assert(b.contains(b[i]) && b.contains(b[j]));
        assert(a.contains(b[i]) && a.contains(b[j]));
        let m = choose|m: int| 0 <= m < a.len() && a[m] == b[i];
        let n = choose|n: int| 0 <= n < a.len() && a[n] == b[j];
        assert(a[m] == a[n]);
    }
}

proof fn lemma_same_emitted(a: Seq<Piece>, b: Seq<Piece>)
    requires
        told_apart(a),
        forall|p: Piece| #[trigger] a.contains(p) <==> b.contains(p),
    ensures
        emitted(a) == emitted(b),
{
    lemma_told_apart(a, b);
    lemma_emitted_strict(a);
    lemma_emitted_strict(b);
    law_patches_are_emitted_in_order(a);
    law_patches_are_emitted_in_order(b);
    let (x, y) = (emitted(a), emitted(b));
    assert forall|p: Piece| #[trigger] x.contains(p) <==> y.contains(p) by {
        assert(a.contains(p) <==> b.contains(p));
    }
    law_strict_order_is_canonical::<Piece, PieceOrder>(x, y);
}

/// A container does not depend on the order in which its patches and table
/// entries were added, nor on how often one was added.
pub proof fn law_container_ignores_insertion_order(a: BuilderModel, b: BuilderModel)
    requires
        a.wf(),
        b.wf(),
        told_apart(a.patches),
        forall|e: EquivalenceEntry| #[trigger]
            a.equivalence.contains(e) <==> b.equivalence.contains(e),
        forall|p: Piece| #[trigger] a.patches.contains(p) <==> b.patches.contains(p),
    ensures
        built(a) == built(b),
{
    law_strict_order_is_canonical::<EquivalenceEntry, EntryOrder>(a.equivalence, b.equivalence);
    lemma_same_emitted(a.patches, b.patches);
    if a.patches.len() > 0 {
        assert(a.patches.contains(a.patches[0]));
        assert(b.patches.contains(a.patches[0]));
    }
    if b.patches.len() > 0 {
        assert(b.patches.contains(b.patches[0]));
        assert(a.patches.contains(b.patches[0]));
    }
}

/// No two patches have the same equivalence and patch id.
pub open spec fn distinct_ids(patches: Seq<Piece>) -> bool {
    forall|i: int, j: int|
        0 <= i < j < patches.len() ==> (#[trigger] patches[i]).0 != (#[trigger] patches[j]).0
            || patches[i].1 != patches[j].1
}

/// Patches with different ids are all written, in strict order.
proof fn lemma_all_emitted(patches: Seq<Piece>)
    requires
        distinct_ids(patches),
    ensures
        emitted(patches).len() == patches.len(),
        forall|i: int, j: int|
            0 <= i < j < patches.len() ==> patch_less(
                #[trigger] emitted(patches)[i],
                #[trigger] emitted(patches)[j],
            ),
        forall|p: Piece| #[trigger] emitted(patches).contains(p) <==> patches.contains(p),
{
    let all = emitted(patches);
    lemma_emitted_strict(patches);
    law_patches_are_emitted_in_order(patches);
    assert forall|i: int, j: int| 0 <= i < j < all.len() implies patch_less(
        #[trigger] all[i],
        #[trigger] all[j],
    ) by {
        assert((order_of::<Piece, PieceOrder>())(all[i], all[j]));
    }
    assert(patches.no_duplicates());
    assert(all.no_duplicates());
    assert(all.to_set() =~= patches.to_set()) by {
        assert forall|p: Piece| all.to_set().contains(p) <==> patches.to_set().contains(p) by {
            assert(all.contains(p) <==> patches.contains(p));
        }
    }
    all.unique_seq_to_set();
    patches.unique_seq_to_set();
}

/// A container that was built from mappings of different processors and patches
/// with different ids reads back whole, and with a clean report: one container
/// over all the bytes, the mappings in ascending order of equivalence id and
/// processor, and every patch with its payload in ascending order of
/// equivalence id and patch id, none missing and none added.
pub proof fn law_distinct_container_reads_back(m: BuilderModel, limits: Limits)
    requires
        m.wf(),
        distinct_cpus(m.equivalence),
        distinct_ids(m.patches),
        forall|i: int| 0 <= i < m.equivalence.len() ==> !(#[trigger] m.equivalence[i]).is_terminator(),
        forall|i: int|
            0 <= i < m.patches.len() ==> readable_payload(
                (#[trigger] m.patches[i]).2,
                m.equivalence,
                limits,
            ),
        0 < m.patches.len() <= limits.max_patches,
        (m.equivalence.len() + 1) * 16 <= u32::MAX,
        (built(m)->Ok_0).len() <= limits.max_blob_bytes,
        (built(m)->Ok_0).len() <= usize::MAX,
    ensures
        built(m) is Ok,
        containers_of(built(m)->Ok_0, limits) matches Ok(cs) && {
            &&& cs.len() == 1
            &&& cs[0].offset == 0
            &&& cs[0].length == (built(m)->Ok_0).len()
            &&& cs[0].report.len() == 0
            &&& cs[0].equivalence == placed(m.equivalence)
            &&& strictly_sorted(cs[0].equivalence)
            &&& cs[0].patches.len() == m.patches.len()
            &&& forall|i: int|
                0 <= i < m.patches.len() ==> slice_of(
                    built(m)->Ok_0,
                    (#[trigger] cs[0].patches[i]).offset as int,
                    cs[0].patches[i].size as int,
                ) == Some(emitted(m.patches)[i].2)
        },
        emitted(m.patches).len() == m.patches.len(),
        forall|i: int, j: int|
            0 <= i < j < m.patches.len() ==> patch_less(
                #[trigger] emitted(m.patches)[i],
                #[trigger] emitted(m.patches)[j],
            ),
        forall|p: Piece| #[trigger] emitted(m.patches).contains(p) <==> m.patches.contains(p),
{
    let all = emitted(m.patches);
    lemma_all_emitted(m.patches);
    assert forall|i: int| 0 <= i < all.len() implies readable_payload(
        (#[trigger] all[i]).2,
        m.equivalence,
        limits,
    ) by {
        assert(all.contains(all[i]));
        let k = choose|k: int| 0 <= k < m.patches.len() && m.patches[k] == all[i];
        assert(readable_payload(m.patches[k].2, m.equivalence, limits));
    }
    law_built_container_reads_back(m, limits);
}

// --- limits -----------------------------------------------------------------------

/// Every patch is within the limits on its size and its signatures.
pub open spec fn small_patches(patches: Seq<AmdPatchModel>, limits: Limits) -> bool {
    forall|i: int|
        0 <= i < patches.len() ==> (#[trigger] patches[i]).size <= limits.max_patch_bytes
            && patches[i].signatures.len() <= limits.max_signatures_per_patch
}

/// Every patch of every container is within these limits.
pub open spec fn small_containers(cs: Seq<ContainerModel>, limits: Limits) -> bool {
    forall|i: int| 0 <= i < cs.len() ==> small_patches((#[trigger] cs[i]).patches, limits)
}

/// The number of patches in all containers.
pub open spec fn patch_total(cs: Seq<ContainerModel>) -> nat
    decreases cs.len(),
{
    if cs.len() == 0 {
        0
    } else {
        patch_total(cs.drop_last()) + cs.last().patches.len()
    }
}

proof fn lemma_small_sections(
    b: Seq<u8>,
    off: int,
    table: Seq<EquivalenceEntry>,
    limits: Limits,
    patches: Seq<AmdPatchModel>,
    report: Seq<FindingModel>,
)
    requires
        small_patches(patches, limits),
    ensures
        sections_from(b, off, table, limits, patches, report) matches Ok((all, _, _))
            ==> small_patches(all, limits),
    decreases b.len() - off,
{
    reveal(section_at);
    if 0 <= off < b.len() && !has_bytes_at(b, off, magic()) && b.len() - off >= SECTION_HEADER_SIZE
        && le32(b, off) == SECTION_TYPE_PATCH {
        if let Ok(patch) = section_at(b, off, table, limits) {
            let end = off + SECTION_HEADER_SIZE + le32(b, off + 4);
            lemma_small_sections(b, end, table, limits, patches.push(patch), report);
        }
    }
}

proof fn lemma_small_container(b: Seq<u8>, start: int, limits: Limits)
    ensures
        container_at(b, start, limits) matches Ok(c) ==> small_patches(c.patches, limits),
{
    reveal(container_at);
    let len = le32(b, start + 8);
    let from = start + CONTAINER_HEADER_SIZE;
    let table = entries_in(b, from, (len / 16) as nat);
    let report = given(
        len % 16 != 0,
        finding(
            FindingCode::BadTotalSize,
            start + 8,
            "equivalence table length "@ + dec(len as nat) + " is not a multiple of 16"@,
        ),
    ) + table_findings(b, from, from + len);
    lemma_small_sections(b, from + len, table, limits, Seq::empty(), report);
}

proof fn lemma_tail(cs: Seq<ContainerModel>, f: FindingModel, limits: Limits)
    requires
        small_containers(cs, limits),
    ensures
        small_containers(with_tail(cs, f), limits),
        patch_total(with_tail(cs, f)) == patch_total(cs),
{
    if cs.len() > 0 {
        let new = with_tail(cs, f);
        assert(new.drop_last() =~= cs.drop_last());
        assert forall|i: int| 0 <= i < new.len() implies small_patches(
            (#[trigger] new[i]).patches,
            limits,
        ) by {
            assert(new[i].patches == cs[i].patches);
        }
    }
}

proof fn lemma_limited_containers(
    b: Seq<u8>,
    off: int,
    limits: Limits,
    cs: Seq<ContainerModel>,
)
    requires
        small_containers(cs, limits),
        patch_total(cs) <= limits.max_patches,
    ensures
        containers_from(b, off, limits, cs, patch_total(cs) as int) matches Ok(all)
            ==> small_containers(all, limits) && patch_total(all) <= limits.max_patches,
    decreases b.len() - off,
{
    if 0 <= off < b.len() {
        if !has_bytes_at(b, off, magic()) {
            let f = finding(
                FindingCode::TrailingGarbage,
                off,
                ""@ + dec((b.len() - off) as nat) + " trailing bytes are not a new container"@,
            );
            lemma_tail(cs, f, limits);
        } else if let Ok(c) = container_at(b, off, limits) {
            lemma_small_container(b, off, limits);
            lemma_container_length(b, off, limits);
            let more = cs.push(c);
            assert(more.drop_last() =~= cs);
            if c.length > 0 && patch_total(more) <= limits.max_patches {
                lemma_limited_containers(b, off + c.length, limits, more);
            }
        }
    }
}

/// What is parsed is within the limits: in the size of the blob, in the number
/// of patches over all containers, and in the size of each patch and the number
/// of signatures that the equivalence table gives it.
pub proof fn law_containers_honour_limits(b: Seq<u8>, limits: Limits)
    requires
        containers_of(b, limits) is Ok,
    ensures
        b.len() <= limits.max_blob_bytes,
        small_containers(containers_of(b, limits)->Ok_0, limits),
        patch_total(containers_of(b, limits)->Ok_0) <= limits.max_patches,
{
    lemma_limited_containers(b, 0, limits, Seq::empty());
}

// --- order ------------------------------------------------------------------------

/// The patches of a container ascend by equivalence id and then by revision,
/// its table by equivalence id and then by processor; one more entry stands for
/// all with its processor and its id, and leaves all others as they are.
pub proof fn law_containers_ascend(
    patches: Seq<Piece>,
    m: BuilderModel,
    e: EquivalenceEntry,
    x: EquivalenceEntry,
)
    requires
        m.wf(),
    ensures
        forall|i: int, j: int|
            0 <= i < j < emitted(patches).len() ==> (#[trigger] emitted(patches)[i]).0 < (
            #[trigger] emitted(patches)[j]).0 || (emitted(patches)[i].0 == emitted(patches)[j].0
                && emitted(patches)[i].1 <= emitted(patches)[j].1),
        forall|i: int, j: int|
            0 <= i < j < m.equivalence.len() ==> (#[trigger] m.equivalence[i]).equiv_id < (
            #[trigger] m.equivalence[j]).equiv_id || (m.equivalence[i].equiv_id == m.equivalence[j].equiv_id
                && m.equivalence[i].installed_cpu.0 < m.equivalence[j].installed_cpu.0),
        with_entry(m.equivalence, e).contains(x) <==> x == e || (m.equivalence.contains(x) && !(x.equiv_id
            == e.equiv_id && x.installed_cpu == e.installed_cpu)),
        (BuilderModel { equivalence: with_entry(m.equivalence, e), ..m }).wf(),
        built(m) is Err <==> m.patches.len() == 0,
{
    law_patches_are_emitted_in_order(patches);
    law_table_is_keyed(m, e);
    assert forall|i: int, j: int| 0 <= i < j < m.equivalence.len() implies (
    #[trigger] m.equivalence[i]).equiv_id < (#[trigger] m.equivalence[j]).equiv_id || (
    m.equivalence[i].equiv_id == m.equivalence[j].equiv_id && m.equivalence[i].installed_cpu.0
        < m.equivalence[j].installed_cpu.0) by {
        assert(entry_less(m.equivalence[i], m.equivalence[j]));
    }
}

} // verus!
