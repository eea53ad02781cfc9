//! The browsing tree: one directory level at a time, sorted, each entry
//! annotated with the rules' verdict and the gitignore flag.
use crate::models::{ScanLimits, TreeNode};
use crate::pathing::{depth_from_root, file_name_or_fallback, name_or, is_surfaced_rel, path_strip, relative_unix_path, segment_count, unix_rel};
use crate::rules::{may_decide, Decision, RuleEngine};
use crate::selection::depth_warning;
use crate::sorting::{entry_order, is_permutation, sort_order, SortKey};
use crate::text::{push_decimal, push_str, string_of};
use std::cmp::Ordering;
use vstd::prelude::*;

verus! {

/// The nodes of one directory level, with the warnings raised.
#[derive(Debug)]
pub struct ScanBatch {
    pub nodes: Vec<TreeNode>,
    pub warnings: Vec<String>,
}

/// The warning for a listing cut at the file limit.
pub open spec fn listing_warning(max_files: nat) -> Seq<char> {
    "Reached maxFiles limit ("@ + crate::text::decimal(max_files) + "). Remaining entries were skipped."@
}

/// The entries of one directory as they are read, up to the file limit.
pub struct DirListing {
    entries: Vec<(String, bool)>,
    warnings: Vec<String>,
    max_files: usize,
    full: bool,
}

impl DirListing {
    pub closed spec fn entries_view(&self) -> Seq<(Seq<char>, bool)> {
        self.entries@.map_values(|e: (String, bool)| (e.0@, e.1))
    }

    pub closed spec fn warnings_view(&self) -> Seq<String> {
        self.warnings@
    }

    pub closed spec fn is_full(&self) -> bool {
        self.full
    }

    pub closed spec fn max_files(&self) -> nat {
        self.max_files as nat
    }

    pub closed spec fn wf(&self) -> bool {
        &&& !self.full ==> self.entries.len() < self.max_files || self.entries.len() == 0
        &&& self.full ==> self.entries.len() >= 1 && self.warnings@.len() == 1
            && self.warnings@[0]@ == listing_warning(self.max_files as nat)
        &&& !self.full ==> self.warnings@.len() == 0
    }

    /// An empty listing bounded by the file limit.
    pub fn new(limits: &ScanLimits) -> (r: DirListing)
        ensures
            r.wf(),
            r.entries_view().len() == 0,
            r.max_files() == limits.max_files,
            !r.is_full(),
            r.warnings_view().len() == 0,
    {
        DirListing { entries: Vec::new(), warnings: Vec::new(), max_files: limits.max_files, full: false }
    }

    /// Records one entry (its absolute path and whether it is a directory);
    /// returns whether to go on reading. Reaching the file limit raises the
    /// warning and ends the listing.
    pub fn push(&mut self, abs_path: String, is_dir: bool) -> (more: bool)
        requires
            old(self).wf(),
        ensures
            final(self).wf(),
            final(self).max_files() == old(self).max_files(),
            old(self).is_full() ==> *final(self) == *old(self) && !more,
            !old(self).is_full() ==> final(self).entries_view() == old(self).entries_view().push(
                (abs_path@, is_dir),
            ) && more == !final(self).is_full() && final(self).is_full() == (old(
                self,
            ).entries_view().len() + 1 >= old(self).max_files()),
            final(self).is_full() ==> final(self).warnings_view().len() == 1
                && final(self).warnings_view()[0]@ == listing_warning(final(self).max_files()),
            !final(self).is_full() ==> final(self).warnings_view().len() == 0,
    {
        if self.full {
            return false;
        }
        self.entries.push((abs_path, is_dir));
        assert(self.entries@.map_values(|e: (String, bool)| (e.0@, e.1)) =~= old(self).entries@.map_values(
            |e: (String, bool)| (e.0@, e.1),
        ).push((abs_path@, is_dir)));
        if self.entries.len() >= self.max_files {
            let mut w = String::new();
            push_str(&mut w, "Reached maxFiles limit (");
            push_decimal(&mut w, self.max_files as u64);
            push_str(&mut w, "). Remaining entries were skipped.");
            assert(w@ =~= listing_warning(self.max_files as nat));
            self.warnings.push(w);
            self.full = true;
            return false;
        }
        true
    }
}

/// The node of an entry of the listing: its path relative to the root, not
/// yet expanded, with its verdict and gitignore flag.
pub open spec fn node_of(root: Seq<char>, abs: Seq<char>, is_dir: bool, n: TreeNode) -> bool {
    &&& path_strip(root, abs) is Some
    &&& n.path@ == unix_rel(path_strip(root, abs)->0)
    &&& n.name@ == name_or(abs, n.path@)
    &&& n.is_dir == is_dir
    &&& n.children_count == (if is_dir {
        None::<usize>
    } else {
        Some(0usize)
    })
    &&& n.children@.len() == 0
}

/// The nodes are the listing's entries, each once, in the canonical order,
/// with verdicts that the rules may give.
pub open spec fn listing_nodes(
    root: Seq<char>,
    entries: Seq<(Seq<char>, bool)>,
    engine: RuleEngine,
    nodes: Seq<TreeNode>,
) -> bool {
    &&& nodes.len() == entries.len()
    &&& exists|perm: Seq<usize>|
        is_permutation(perm, entries.len()) && forall|k: int|
            0 <= k < nodes.len() ==> node_of(
                root,
                entries[perm[k] as int].0,
                entries[perm[k] as int].1,
                #[trigger] nodes[k],
            ) && sorted_at(entries, perm, k)
    &&& forall|k: int|
        0 <= k < nodes.len() ==> is_surfaced_rel((#[trigger] nodes[k]).path@) && may_decide(
            engine.rules(),
            nodes[k].path@,
            nodes[k].is_dir,
            if nodes[k].included_by_rules {
                Decision::Include
            } else {
                Decision::Exclude
            },
        ) && (!engine.rules().gitignore_on ==> !nodes[k].ignored_by_gitignore)
}

/// Entry `perm[k]` stands in canonical order before every later one.
pub open spec fn sorted_at(entries: Seq<(Seq<char>, bool)>, perm: Seq<usize>, k: int) -> bool {
    forall|j: int|
        k < j < perm.len() ==> entry_order(
            entries[perm[k] as int].0,
            entries[perm[k] as int].1,
            entries[perm[j] as int].0,
            entries[perm[j] as int].1,
        ) != Ordering::Greater
}

/// Builds the nodes of one listed directory: the entries sorted in the
/// canonical order, each with its relative path, name, verdict and gitignore
/// flag. Fails for an entry outside the root.
pub fn scan_single_level(root: &str, listing: DirListing, engine: &RuleEngine) -> (r: Result<
    ScanBatch,
    String,
>)
    requires
        engine.wf(),
    ensures
        r is Ok ==> listing_nodes(root@, listing.entries_view(), *engine, r->Ok_0.nodes@)
            && r->Ok_0.warnings@ == listing.warnings_view(),
        (forall|i: int|
            0 <= i < listing.entries_view().len() ==> path_strip(
                root@,
                (#[trigger] listing.entries_view()[i]).0,
            ) is Some) ==> r is Ok,
{
    let entries = &listing.entries;
    let ghost ev = listing.entries_view();
    let mut keys: Vec<SortKey> = Vec::new();
    let mut i: usize = 0;
    while i < entries.len()
        invariant
            i <= entries.len(),
            ev == entries@.map_values(|e: (String, bool)| (e.0@, e.1)),
            keys.len() == i,
            forall|k: int|
                0 <= k < i ==> (#[trigger] keys@[k]).wf() && keys@[k].raw@ == ev[k].0 && keys@[k].is_dir
                    == ev[k].1,
        decreases entries.len() - i,
    {
        keys.push(SortKey::new(entries[i].0.as_str(), entries[i].1));
        i = i + 1;
    }
    let perm = sort_order(&keys);
    let mut nodes: Vec<TreeNode> = Vec::new();
    let mut k: usize = 0;
    while k < perm.len()
        invariant
            k <= perm.len(),
            engine.wf(),
            ev == listing.entries_view(),
            ev == entries@.map_values(|e: (String, bool)| (e.0@, e.1)),
            keys.len() == entries.len(),
            is_permutation(perm@, entries.len() as nat),
            nodes.len() == k,
            forall|j: int|
                0 <= j < k ==> node_of(
                    root@,
                    ev[perm@[j] as int].0,
                    ev[perm@[j] as int].1,
                    #[trigger] nodes@[j],
                ) && is_surfaced_rel(nodes@[j].path@) && may_decide(
                    engine.rules(),
                    nodes@[j].path@,
                    nodes@[j].is_dir,
                    if nodes@[j].included_by_rules {
                        Decision::Include
                    } else {
                        Decision::Exclude
                    },
                ) && (!engine.rules().gitignore_on ==> !nodes@[j].ignored_by_gitignore),
        decreases perm.len() - k,
    {
        let e = &entries[perm[k]];
        let is_dir = e.1;
        proof {
            assert(perm@[k as int] < ev.len());
            assert(ev[perm@[k as int] as int].0 == e.0@);
            assert(listing.entries_view()[perm@[k as int] as int].0 == e.0@);
        }
        let rel = relative_unix_path(root, e.0.as_str())?;
        let name = file_name_or_fallback(e.0.as_str(), rel.as_str());
        let decision = engine.should_include(rel.as_str(), is_dir);
        let ignored = engine.gitignored(rel.as_str(), is_dir);
        let node = TreeNode {
            path: rel,
            name,
            is_dir,
            children_count: if is_dir {
                None
            } else {
                Some(0)
            },
            included_by_rules: matches!(decision, Decision::Include),
            ignored_by_gitignore: ignored,
            children: Vec::new(),
        };
        proof {
            assert(ev[perm@[k as int] as int].0 == e.0@);
        }
        nodes.push(node);
        k = k + 1;
    }
    proof {
        assert forall|k2: int| 0 <= k2 < nodes.len() implies sorted_at(ev, perm@, k2) by {
            assert forall|j: int| k2 < j < perm.len() implies entry_order(
                ev[perm@[k2] as int].0,
                ev[perm@[k2] as int].1,
                ev[perm@[j] as int].0,
                ev[perm@[j] as int].1,
            ) != Ordering::Greater by {
                assert(keys@[perm@[k2] as int].cmp_spec(&keys@[perm@[j] as int]) != Ordering::Greater);
            }
        }
        assert(is_permutation(perm@, ev.len()) && forall|k2: int|
            0 <= k2 < nodes.len() ==> node_of(
                root@,
                ev[perm@[k2] as int].0,
                ev[perm@[k2] as int].1,
                #[trigger] nodes@[k2],
            ) && sorted_at(ev, perm@, k2));
    }
    Ok(ScanBatch { nodes, warnings: listing.warnings })
}

/// The root node: path `.`, named after the root's final component (or
/// `workspace`), with its first level of children expanded.
pub fn scan_root(root: &str, listing: DirListing, engine: &RuleEngine) -> (r: Result<TreeNode, String>)
    requires
        engine.wf(),
    ensures
        r matches Ok(node) ==> node.path@ == seq!['.'] && node.name@ == name_or(root@, "workspace"@)
            && node.is_dir && node.included_by_rules
            && !node.ignored_by_gitignore && node.children_count == Some(node.children.len())
            && listing_nodes(root@, listing.entries_view(), *engine, node.children@),
        (forall|i: int|
            0 <= i < listing.entries_view().len() ==> path_strip(
                root@,
                (#[trigger] listing.entries_view()[i]).0,
            ) is Some) ==> r is Ok,
{
    let batch = scan_single_level(root, listing, engine)?;
    let n = batch.nodes.len();
    let dot = string_of(&vec!['.']);
    Ok(TreeNode {
        path: dot,
        name: file_name_or_fallback(root, "workspace"),
        is_dir: true,
        children_count: Some(n),
        included_by_rules: true,
        ignored_by_gitignore: false,
        children: batch.nodes,
    })
}

/// The children of a directory under the root: none, with the depth
/// warning, when the directory is at or below the depth limit; otherwise the
/// nodes of its listing.
pub fn scan_children(
    root: &str,
    dir_abs: &str,
    listing: DirListing,
    engine: &RuleEngine,
    limits: &ScanLimits,
) -> (r: Result<ScanBatch, String>)
    requires
        engine.wf(),
    ensures
        path_strip(root@, dir_abs@) is None ==> r is Err,
        r is Ok ==> path_strip(root@, dir_abs@) is Some,
        path_strip(root@, dir_abs@) is Some && segment_count(unix_rel(path_strip(root@, dir_abs@)->0))
            >= limits.max_depth ==> r is Ok,
        path_strip(root@, dir_abs@) is Some && (forall|i: int|
            0 <= i < listing.entries_view().len() ==> path_strip(
                root@,
                (#[trigger] listing.entries_view()[i]).0,
            ) is Some) ==> r is Ok,
        r is Ok && segment_count(unix_rel(path_strip(root@, dir_abs@)->0)) >= limits.max_depth
            ==> r->Ok_0.nodes@.len() == 0 && r->Ok_0.warnings@.len() == 1
            && r->Ok_0.warnings@[0]@ == depth_warning(limits.max_depth as nat),
        r is Ok && segment_count(unix_rel(path_strip(root@, dir_abs@)->0)) < limits.max_depth
            ==> listing_nodes(root@, listing.entries_view(), *engine, r->Ok_0.nodes@)
            && r->Ok_0.warnings@ == listing.warnings_view(),
{
    let depth = depth_from_root(root, dir_abs)?;
    if depth >= limits.max_depth {
        let mut w = String::new();
        push_str(&mut w, "Reached maxDepth limit (");
        push_decimal(&mut w, limits.max_depth as u64);
        push_str(&mut w, "). Skipped deeper traversal.");
        assert(w@ =~= depth_warning(limits.max_depth as nat));
        let mut warnings: Vec<String> = Vec::new();
        warnings.push(w);
        return Ok(ScanBatch { nodes: Vec::new(), warnings });
    }
    scan_single_level(root, listing, engine)
}


/// Listing a directory again gives the same entries: two node lists built
/// from the same listing have the same length and the same set of paths,
/// each in the canonical order.
pub proof fn lemma_rescan_same_paths(
    root: Seq<char>,
    entries: Seq<(Seq<char>, bool)>,
    e1: RuleEngine,
    e2: RuleEngine,
    a: Seq<TreeNode>,
    b: Seq<TreeNode>,
)
    requires
        listing_nodes(root, entries, e1, a),
        listing_nodes(root, entries, e2, b),
    ensures
        a.len() == b.len(),
        forall|i: int| 0 <= i < a.len() ==> exists|j: int| 0 <= j < b.len() && (#[trigger] b[j]).path@ == (#[trigger] a[i]).path@ && b[j].is_dir == a[i].is_dir,
{
    let pa = choose|perm: Seq<usize>|
        is_permutation(perm, entries.len()) && forall|k: int|
            0 <= k < a.len() ==> node_of(
                root,
                entries[perm[k] as int].0,
                entries[perm[k] as int].1,
                #[trigger] a[k],
            ) && sorted_at(entries, perm, k);
    let pb = choose|perm: Seq<usize>|
        is_permutation(perm, entries.len()) && forall|k: int|
            0 <= k < b.len() ==> node_of(
                root,
                entries[perm[k] as int].0,
                entries[perm[k] as int].1,
                #[trigger] b[k],
            ) && sorted_at(entries, perm, k);
    assert forall|i: int| 0 <= i < a.len() implies exists|j: int| 0 <= j < b.len() && (#[trigger] b[j]).path@ == (#[trigger] a[i]).path@ && b[j].is_dir == a[i].is_dir by {
        let x = pa[i];
        assert(node_of(root, entries[x as int].0, entries[x as int].1, a[i]));
        assert(pb.contains(x));
        let j = choose|j: int| 0 <= j < pb.len() && pb[j] == x;
        assert(node_of(root, entries[pb[j] as int].0, entries[pb[j] as int].1, b[j]));
    }
}

} // verus!
