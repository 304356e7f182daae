//! Machine-readable descriptions of catalogs.

use vstd::prelude::*;
use crate::catalog::collection::{vendors_of, Catalog, CatalogModel};
use crate::model::cpu::Vendor;
use crate::model::patch::{
    metas_view, primary_of, PatchMeta, PatchModel, ProcessorMatch, RuntimeUpdatePolicy,
};
use crate::number::{around_hex8, hex, hex_bytes, hex_bytes_text};
use crate::text::strings;

verus! {

/// Machine-readable description of a produced artifact or an ingested set.
/// This is part of the stable JSON contract.
#[derive(Debug)]
pub struct Manifest {
    pub manifest_version: u32,
    pub generator: String,
    pub entries: Vec<ManifestEntry>,
    pub totals: ManifestTotals,
}

#[derive(Debug)]
pub struct ManifestTotals {
    pub patch_count: usize,
    pub byte_count: u64,
    pub vendors: Vec<Vendor>,
}

#[derive(Debug)]
pub struct ManifestEntry {
    pub vendor: Vendor,
    pub signature: String,
    pub platform_mask: String,
    pub revision: String,
    pub date: Option<String>,
    pub size: u32,
    pub sha256: Option<String>,
    pub source: String,
    pub offset: u64,
    /// Extra signatures beyond the primary one.
    pub additional_signatures: Vec<String>,
    pub min_base_revision: Option<String>,
    pub min_runtime_revision: Option<String>,
}

/// The text of an optional string.
pub open spec fn opt_text(s: Option<String>) -> Option<Seq<char>> {
    match s {
        Some(t) => Some(t@),
        None => None,
    }
}

/// The contents of a [`ManifestEntry`].
#[verifier::ext_equal]
pub struct EntryDescription {
    pub vendor: Vendor,
    pub signature: Seq<char>,
    pub platform_mask: Seq<char>,
    pub revision: Seq<char>,
    pub date: Option<Seq<char>>,
    pub size: u32,
    pub sha256: Option<Seq<char>>,
    pub source: Seq<char>,
    pub offset: u64,
    pub additional_signatures: Seq<Seq<char>>,
    pub min_base_revision: Option<Seq<char>>,
    pub min_runtime_revision: Option<Seq<char>>,
}

impl View for ManifestEntry {
    type V = EntryDescription;

    open spec fn view(&self) -> EntryDescription {
        EntryDescription {
            vendor: self.vendor,
            signature: self.signature@,
            platform_mask: self.platform_mask@,
            revision: self.revision@,
            date: opt_text(self.date),
            size: self.size,
            sha256: opt_text(self.sha256),
            source: self.source@,
            offset: self.offset,
            additional_signatures: strings(self.additional_signatures@),
            min_base_revision: opt_text(self.min_base_revision),
            min_runtime_revision: opt_text(self.min_runtime_revision),
        }
    }
}

/// The contents of a [`Manifest`].
#[verifier::ext_equal]
pub struct ManifestModel {
    pub manifest_version: u32,
    pub generator: Seq<char>,
    pub entries: Seq<EntryDescription>,
    pub patch_count: int,
    pub byte_count: int,
    pub vendors: Seq<Vendor>,
}

pub open spec fn entries_view(v: Seq<ManifestEntry>) -> Seq<EntryDescription> {
    v.map_values(|e: ManifestEntry| e@)
}

impl View for Manifest {
    type V = ManifestModel;

    open spec fn view(&self) -> ManifestModel {
        ManifestModel {
            manifest_version: self.manifest_version,
            generator: self.generator@,
            entries: entries_view(self.entries@),
            patch_count: self.totals.patch_count as int,
            byte_count: self.totals.byte_count as int,
            vendors: self.totals.vendors@,
        }
    }
}

/// A number as `0x` and eight digits.
pub open spec fn revision_text(v: u32) -> Seq<char> {
    "0x"@ + hex(v as nat, 8) + ""@
}

/// Signature and platform mask, with a colon between them.
pub open spec fn pair_text(m: ProcessorMatch) -> Seq<char> {
    m.signature.signature_text() + ":"@ + m.platform_mask.mask_text()
}

/// The pairs that are not marked primary.
pub open spec fn extra_pairs(m: Seq<ProcessorMatch>) -> Seq<Seq<char>>
    decreases m.len(),
{
    if m.len() == 0 {
        Seq::empty()
    } else {
        let front = extra_pairs(m.drop_last());
        if m.last().primary {
            front
        } else {
            front.push(pair_text(m.last()))
        }
    }
}

/// The description of a patch.
pub open spec fn describe(p: PatchModel) -> EntryDescription {
    EntryDescription {
        vendor: p.vendor,
        signature: match primary_of(p.matches) {
            Some(m) => m.signature.signature_text(),
            None => Seq::empty(),
        },
        platform_mask: match primary_of(p.matches) {
            Some(m) => m.platform_mask.mask_text(),
            None => Seq::empty(),
        },
        revision: revision_text(p.revision),
        date: match p.date {
            Some(d) => Some(d.date_text()),
            None => None,
        },
        size: p.total_size,
        sha256: match p.sha256 {
            Some(d) => Some(hex_bytes(d)),
            None => None,
        },
        source: p.origin.source,
        offset: p.origin.offset,
        additional_signatures: extra_pairs(p.matches),
        min_base_revision: match p.min_base_revision {
            Some(v) => Some(revision_text(v)),
            None => None,
        },
        min_runtime_revision: match p.runtime_update {
            RuntimeUpdatePolicy::RequiresBaseRevision(v) => Some(revision_text(v)),
            RuntimeUpdatePolicy::Unspecified => None,
        },
    }
}

/// The sum of the sizes of patches.
pub open spec fn size_total(patches: Seq<PatchModel>) -> nat
    decreases patches.len(),
{
    if patches.len() == 0 {
        0
    } else {
        size_total(patches.drop_last()) + patches.last().total_size as nat
    }
}

proof fn lemma_size_prefix(patches: Seq<PatchModel>, n: int)
    requires
        0 <= n <= patches.len(),
    ensures
        size_total(patches.take(n)) <= size_total(patches),
    decreases patches.len() - n,
{
    if n < patches.len() {
        assert(patches.take(n + 1).drop_last() =~= patches.take(n));
        lemma_size_prefix(patches, n + 1);
    } else {
        assert(patches.take(n) =~= patches);
    }
}

/// A number as `0x` and eight digits.
pub fn revision_string(v: u32) -> (r: String)
    ensures
        r@ == revision_text(v),
{
    around_hex8("0x", v, "")
}

pub fn hex32(bytes: &[u8; 32]) -> (r: String)
    ensures
        r@ == hex_bytes(bytes@),
{
    hex_bytes_text(bytes.as_slice())
}

fn extra_signatures(m: &[ProcessorMatch]) -> (r: Vec<String>)
    ensures
        strings(r@) == extra_pairs(m@),
{
    let mut out: Vec<String> = Vec::new();
    assert(strings(out@) =~= extra_pairs(m@.take(0)));
    let mut i: usize = 0;
    while i < m.len()
        invariant
            i <= m@.len(),
            strings(out@) == extra_pairs(m@.take(i as int)),
        decreases m@.len() - i,
    {
        assert(m@.take(i + 1).drop_last() =~= m@.take(i as int));
        assert(m@.take(i + 1).last() == m@[i as int]);
        if !m[i].primary {
            let mut text = m[i].signature.to_string();
            text.append(":");
            text.append(m[i].platform_mask.to_string().as_str());
            let ghost before = out@;
            out.push(text);
            assert(strings(out@) =~= strings(before).push(text@));
        }
        i = i + 1;
    }
    assert(m@.take(i as int) =~= m@);
    out
}

impl ManifestEntry {
    pub fn from_meta(meta: &PatchMeta) -> (r: Self)
        ensures
            r@ == describe(meta@),
    {
        let (signature, platform_mask) = match meta.primary_match() {
            Some(m) => (m.signature.to_string(), m.platform_mask.to_string()),
            None => (String::new(), String::new()),
        };
        let min_runtime = match meta.runtime_update {
            RuntimeUpdatePolicy::RequiresBaseRevision(v) => Some(revision_string(v)),
            RuntimeUpdatePolicy::Unspecified => None,
        };
        let date = match meta.date {
            Some(d) => Some(d.to_string()),
            None => None,
        };
        let sha256 = match meta.sha256 {
            Some(d) => Some(hex32(&d)),
            None => None,
        };
        let min_base = match meta.min_base_revision {
            Some(v) => Some(revision_string(v)),
            None => None,
        };
        let r = ManifestEntry {
            vendor: meta.vendor,
            signature,
            platform_mask,
            revision: revision_string(meta.revision),
            date,
            size: meta.total_size,
            sha256,
            source: meta.origin.source.clone(),
            offset: meta.origin.offset,
            additional_signatures: extra_signatures(meta.matches.as_slice()),
            min_base_revision: min_base,
            min_runtime_revision: min_runtime,
        };
        assert(r@ =~= describe(meta@));
        r
    }
}

impl Manifest {
    /// The manifest of a catalog.
    pub open spec fn of(m: CatalogModel, generator: Seq<char>) -> ManifestModel {
        ManifestModel {
            manifest_version: 1,
            generator,
            entries: m.patches.map_values(|p: PatchModel| describe(p)),
            patch_count: m.patches.len() as int,
            byte_count: size_total(m.patches) as int,
            vendors: vendors_of(m.patches),
        }
    }

    pub fn from_catalog(catalog: &Catalog, generator: &str) -> (r: Self)
        requires
            size_total(catalog@.patches) <= u64::MAX,
        ensures
            r@ == Manifest::of(catalog@, generator@),
    {
        let ghost all = catalog@.patches;
        let mut entries: Vec<ManifestEntry> = Vec::new();
        let mut byte_count: u64 = 0;
        let mut i: usize = 0;
        while i < catalog.patches.len()
            invariant
                i <= catalog.patches@.len(),
                all == metas_view(catalog.patches@),
                size_total(all) <= u64::MAX,
                byte_count == size_total(all.take(i as int)),
                entries@.len() == i,
                forall|k: int| 0 <= k < i ==> (#[trigger] entries@[k])@ == describe(all[k]),
            decreases catalog.patches@.len() - i,
        {
            assert(all.take(i + 1).drop_last() =~= all.take(i as int));
            assert(all.take(i + 1).last() == catalog.patches@[i as int]@);
            proof {
                lemma_size_prefix(all, i + 1);
            }
            entries.push(ManifestEntry::from_meta(&catalog.patches[i]));
            byte_count = byte_count + catalog.patches[i].total_size as u64;
            i = i + 1;
        }
        assert(all.take(i as int) =~= all);
        let r = Manifest {
            manifest_version: 1,
            generator: generator.to_owned(),
            totals: ManifestTotals {
                patch_count: entries.len(),
                byte_count,
                vendors: catalog.vendors(),
            },
            entries,
        };
        assert(r@ =~= Manifest::of(catalog@, generator@));
        r
    }
}

} // verus!
