//! Which firmware trees exist on the host.

use vstd::prelude::*;
use crate::linux::paths::{default_firmware_paths, firmware_paths};
use crate::text::{
    contains_text, file_name, is_final_name, reads_alike, slash_name, str_contains, strings, text_or_empty,
};

verus! {

/// Which firmware trees exist on the host.
#[derive(Debug)]
pub struct FirmwareTree {
    pub intel_dirs: Vec<String>,
    pub amd_dirs: Vec<String>,
    pub intel_files: usize,
    pub amd_files: usize,
}

/// The contents of a [`FirmwareTree`].
#[verifier::ext_equal]
pub struct TreeModel {
    pub intel_dirs: Seq<Seq<char>>,
    pub amd_dirs: Seq<Seq<char>>,
    pub intel_files: nat,
    pub amd_files: nat,
}

impl View for FirmwareTree {
    type V = TreeModel;

    open spec fn view(&self) -> TreeModel {
        TreeModel {
            intel_dirs: strings(self.intel_dirs@),
            amd_dirs: strings(self.amd_dirs@),
            intel_files: self.intel_files as nat,
            amd_files: self.amd_files as nat,
        }
    }
}

impl TreeModel {
    pub open spec fn empty() -> TreeModel {
        TreeModel {
            intel_dirs: Seq::empty(),
            amd_dirs: Seq::empty(),
            intel_files: 0,
            amd_files: 0,
        }
    }
}

impl Default for FirmwareTree {
    fn default() -> (r: Self)
        ensures
            r@ == TreeModel::empty(),
    {
        let r = FirmwareTree {
            intel_dirs: Vec::new(),
            amd_dirs: Vec::new(),
            intel_files: 0,
            amd_files: 0,
        };
        assert(r@ =~= TreeModel::empty());
        r
    }
}

/// A path, and the number of regular files in it if it is a directory.
#[derive(Debug)]
pub struct DirListing {
    pub path: String,
    pub files: Option<usize>,
}

/// The contents of a list of [`DirListing`]s.
pub open spec fn listings_view(v: Seq<DirListing>) -> Seq<(Seq<char>, Option<usize>)> {
    v.map_values(|d: DirListing| (d.path@, d.files))
}

/// The number of files over all directories.
pub open spec fn files_total(v: Seq<(Seq<char>, Option<usize>)>) -> nat
    decreases v.len(),
{
    if v.len() == 0 {
        0
    } else {
        files_total(v.drop_last()) + match v.last().1 {
            Some(n) => n as nat,
            None => 0,
        }
    }
}

/// The tree with one more directory. One whose name tells no vendor counts as
/// Intel's.
pub open spec fn with_dir(tree: TreeModel, path: Seq<char>, name: Seq<char>, files: nat) -> TreeModel {
    if !contains_text(name, "intel"@) && contains_text(name, "amd"@) {
        TreeModel {
            amd_dirs: tree.amd_dirs.push(path),
            amd_files: tree.amd_files + files,
            ..tree
        }
    } else {
        TreeModel {
            intel_dirs: tree.intel_dirs.push(path),
            intel_files: tree.intel_files + files,
            ..tree
        }
    }
}

/// The tree that a list of paths with the given final names shows.
pub open spec fn tree_of(v: Seq<(Seq<char>, Option<usize>)>, names: Seq<Seq<char>>) -> TreeModel
    decreases v.len(),
{
    if v.len() == 0 {
        TreeModel::empty()
    } else {
        let front = tree_of(v.drop_last(), names);
        match v.last().1 {
            Some(n) => with_dir(front, v.last().0, names[v.len() - 1], n as nat),
            None => front,
        }
    }
}

/// The texts are the final names of the paths on some system.
pub open spec fn are_named(v: Seq<(Seq<char>, Option<usize>)>, names: Seq<Seq<char>>) -> bool {
    &&& names.len() == v.len()
    &&& forall|i: int|
        0 <= i < v.len() ==> is_final_name(#[trigger] names[i], v[i].0) && (reads_alike(v[i].0) ==> names[i]
            == text_or_empty(slash_name(v[i].0)))
}

/// The final names of the paths where the slash separates.
pub open spec fn slash_names(v: Seq<(Seq<char>, Option<usize>)>) -> Seq<Seq<char>> {
    Seq::new(v.len(), |i: int| text_or_empty(slash_name(v[i].0)))
}

/// The tree that the default paths show. Their names are the same on every
/// system.
pub open spec fn default_tree(counts: Seq<Option<usize>>) -> TreeModel {
    tree_of(default_listing(counts), slash_names(default_listing(counts)))
}

/// The default paths with what was found at each; no finding is no directory.
pub open spec fn default_listing(counts: Seq<Option<usize>>) -> Seq<(Seq<char>, Option<usize>)> {
    Seq::new(
        firmware_paths().len(),
        |i: int|
            (
                firmware_paths()[i],
                if i < counts.len() {
                    counts[i]
                } else {
                    None
                },
            ),
    )
}

proof fn lemma_tree_total(v: Seq<(Seq<char>, Option<usize>)>, names: Seq<Seq<char>>)
    ensures
        tree_of(v, names).intel_files + tree_of(v, names).amd_files == files_total(v),
    decreases v.len(),
{
    if v.len() > 0 {
        lemma_tree_total(v.drop_last(), names);
    }
}

proof fn lemma_total_grows(v: Seq<(Seq<char>, Option<usize>)>, n: int)
    requires
        0 <= n <= v.len(),
    ensures
        files_total(v.take(n)) <= files_total(v),
    decreases v.len() - n,
{
    if n < v.len() {
        lemma_total_grows(v, n + 1);
        assert(v.take(n + 1).drop_last() =~= v.take(n));
    } else {
        assert(v.take(n) =~= v);
    }
}

fn listed(path: String, files: Option<usize>) -> (r: DirListing)
    ensures
        r.path@ == path@,
        r.files == files,
{
    DirListing { path, files }
}

/// Report which of the default firmware paths are present. For each of them in
/// order, `counts` holds the number of files in it, if it is a directory.
pub fn probe_firmware_tree(counts: &[Option<usize>]) -> (r: FirmwareTree)
    requires
        files_total(default_listing(counts@)) <= usize::MAX,
    ensures
        r@ == default_tree(counts@),
{
    let paths = default_firmware_paths();
    let mut dirs: Vec<DirListing> = Vec::new();
    let mut i: usize = 0;
    while i < paths.len()
        invariant
            i <= paths@.len(),
            strings(paths@) == firmware_paths(),
            listings_view(dirs@) =~= default_listing(counts@).take(i as int),
        decreases paths@.len() - i,
    {
        assert(strings(paths@).len() == paths@.len());
        let files = if i < counts.len() {
            counts[i]
        } else {
            None
        };
        let ghost before = dirs@;
        dirs.push(listed(paths[i].clone(), files));
        assert(strings(paths@)[i as int] == paths@[i as int]@);
        assert(listings_view(dirs@) =~= listings_view(before).push((paths@[i as int]@, files)));
        i = i + 1;
    }
    assert(default_listing(counts@).take(i as int) =~= default_listing(counts@));
    let r = probe_paths(dirs.as_slice());
    proof {
        let v = default_listing(counts@);
        let names = choose|names: Seq<Seq<char>>|
            are_named(v, names) && r@ == #[trigger] tree_of(v, names);
        lemma_defaults_read_alike();
        assert forall|i: int| 0 <= i < v.len() implies names[i] == #[trigger] slash_names(v)[i] by {
            assert(reads_alike(firmware_paths()[i]));
            assert(v[i].0 == firmware_paths()[i]);
        }
        assert(names =~= slash_names(v));
    }
    r
}

/// The default paths hold nothing that Windows reads in its own way.
proof fn lemma_defaults_read_alike()
    ensures
        forall|i: int| 0 <= i < firmware_paths().len() ==> reads_alike(#[trigger] firmware_paths()[i]),
{
    reveal_strlit("/lib/firmware/intel-ucode");
    reveal_strlit("/lib/firmware/amd-ucode");
    reveal_strlit("/usr/lib/firmware/intel-ucode");
    reveal_strlit("/usr/lib/firmware/amd-ucode");
    reveal_strlit("/usr/share/misc/intel-microcode");
}

/// Report which of the paths are firmware directories, and of which vendor. The
/// vendor is told by the final name of a path, and what that is depends on the
/// system for a path that Windows reads in its own way.
pub fn probe_paths(dirs: &[DirListing]) -> (r: FirmwareTree)
    requires
        files_total(listings_view(dirs@)) <= usize::MAX,
    ensures
        exists|names: Seq<Seq<char>>|
            are_named(listings_view(dirs@), names) && r@ == #[trigger] tree_of(
                listings_view(dirs@),
                names,
            ),
{
    let mut names: Vec<String> = Vec::new();
    let mut i: usize = 0;
    while i < dirs.len()
        invariant
            i <= dirs@.len(),
            names@.len() == i,
            are_named(listings_view(dirs@).take(i as int), strings(names@)),
        decreases dirs@.len() - i,
    {
        let name = match file_name(dirs[i].path.as_str()) {
            Some(n) => n,
            None => {
                let empty = String::new();
                assert(empty@ =~= Seq::empty());
                empty
            },
        };
        let ghost before = names@;
        names.push(name);
        proof {
            let v = listings_view(dirs@).take(i + 1);
            let all = strings(names@);
            assert(all =~= strings(before).push(name@));
            assert forall|k: int| 0 <= k < v.len() implies is_final_name(#[trigger] all[k], v[k].0) && (
            reads_alike(v[k].0) ==> all[k] == text_or_empty(slash_name(v[k].0))) by {
                if k < i {
                    assert(strings(before)[k] == all[k]);
                    assert(listings_view(dirs@).take(i as int)[k] == v[k]);
                }
            }
        }
        i = i + 1;
    }
    assert(listings_view(dirs@).take(i as int) =~= listings_view(dirs@));
    probe_named(dirs, names.as_slice())
}

/// Report which of the paths are firmware directories, and of which vendor,
/// when the final name of each is known.
pub fn probe_named(dirs: &[DirListing], names: &[String]) -> (r: FirmwareTree)
    requires
        files_total(listings_view(dirs@)) <= usize::MAX,
        names@.len() == dirs@.len(),
    ensures
        r@ == tree_of(listings_view(dirs@), strings(names@)),
{
    let ghost all = listings_view(dirs@);
    let mut tree = FirmwareTree::default();
    let mut i: usize = 0;
    while i < dirs.len()
        invariant
            i <= dirs@.len(),
            all == listings_view(dirs@),
            files_total(all) <= usize::MAX,
            names@.len() == dirs@.len(),
            tree@ == tree_of(all.take(i as int), strings(names@)),
        decreases dirs@.len() - i,
    {
        let dir = &dirs[i];
        proof {
            assert(all.take(i + 1).drop_last() =~= all.take(i as int));
            assert(all.take(i + 1).last() == all[i as int]);
            lemma_total_grows(all, i + 1);
            lemma_tree_total(all.take(i as int), strings(names@));
        }
        if let Some(count) = dir.files {
            let name = &names[i];
            let path = dir.path.clone();
            if !str_contains(name.as_str(), "intel") && str_contains(name.as_str(), "amd") {
                let ghost before = tree.amd_dirs@;
                tree.amd_dirs.push(path);
                assert(strings(tree.amd_dirs@) =~= strings(before).push(path@));
                tree.amd_files = tree.amd_files + count;
            } else {
                // Generic trees are counted with Intel's.
                let ghost before = tree.intel_dirs@;
                tree.intel_dirs.push(path);
                assert(strings(tree.intel_dirs@) =~= strings(before).push(path@));
                tree.intel_files = tree.intel_files + count;
            }
        }
        i = i + 1;
    }
    assert(all.take(i as int) =~= all);
    tree
}

/// Every file that is counted is counted once, for one vendor.
pub proof fn law_files_are_counted_once(v: Seq<(Seq<char>, Option<usize>)>, names: Seq<Seq<char>>)
    ensures
        tree_of(v, names).intel_files + tree_of(v, names).amd_files == files_total(v),
{
    lemma_tree_total(v, names);
}

} // verus!
