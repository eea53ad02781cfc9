//! The selection walk: a state machine fed with the entries of a sorted,
//! depth-first traversal of the root, deciding what to descend into and which
//! files to export.
use crate::models::ScanLimits;
use crate::pathing::{is_surfaced_rel, path_strip, relative_unix_path, unix_rel};
use crate::rules::{may_decide, Decision, RuleEngine, RulesView};
use crate::sorting::{entry_order, is_permutation, sort_order, SortKey};
use crate::text::{decimal, push_decimal, push_str};
use std::cmp::Ordering;
use vstd::prelude::*;

verus! {

/// A file chosen for export.
#[derive(Debug)]
pub struct SelectedFile {
    pub abs_path: String,
    pub rel_path: String,
    pub size: u64,
}

impl SelectedFile {
    /// A copy of the record.
    pub fn duplicate(&self) -> (r: SelectedFile)
        ensures
            r == *self,
    {
        SelectedFile { abs_path: self.abs_path.clone(), rel_path: self.rel_path.clone(), size: self.size }
    }
}

/// The outcome of a selection walk.
#[derive(Debug)]
pub struct SelectionRun {
    pub files: Vec<SelectedFile>,
    pub included_files: usize,
    pub excluded_files: usize,
    pub warnings: Vec<String>,
}

/// One entry met by the traversal.
pub struct WalkEntry {
    pub abs_path: String,
    pub is_dir: bool,
    /// Components below the root (the root itself is at depth 0).
    pub depth: usize,
    /// For a directory: whether it has at least one entry.
    pub has_children: bool,
    /// For a file: its size in bytes.
    pub size: u64,
}

/// What the traversal does next.
#[derive(Clone, Copy, Debug, PartialEq, Eq, Structural)]
pub enum WalkStep {
    /// Go on, descending into this entry if it is a directory.
    Continue,
    /// Do not descend into this directory.
    SkipDir,
    /// End the traversal.
    Stop,
}

/// The warning for a traversal cut at the depth limit.
pub open spec fn depth_warning(max_depth: nat) -> Seq<char> {
    "Reached maxDepth limit ("@ + decimal(max_depth) + "). Skipped deeper traversal."@
}

/// The warning for a traversal cut at the file limit.
pub open spec fn files_warning(max_files: nat) -> Seq<char> {
    "Reached maxFiles limit ("@ + decimal(max_files) + "). Remaining files were skipped."@
}

fn depth_warning_text(max_depth: usize) -> (r: String)
    ensures
        r@ == depth_warning(max_depth as nat),
{
    let mut s = String::new();
    push_str(&mut s, "Reached maxDepth limit (");
    push_decimal(&mut s, max_depth as u64);
    push_str(&mut s, "). Skipped deeper traversal.");
    assert(s@ =~= depth_warning(max_depth as nat));
    s
}

fn files_warning_text(max_files: usize) -> (r: String)
    ensures
        r@ == files_warning(max_files as nat),
{
    let mut s = String::new();
    push_str(&mut s, "Reached maxFiles limit (");
    push_decimal(&mut s, max_files as u64);
    push_str(&mut s, "). Remaining files were skipped.");
    assert(s@ =~= files_warning(max_files as nat));
    s
}

/// The walk in progress.
pub struct SelectionWalk {
    root: String,
    engine: RuleEngine,
    limits: ScanLimits,
    files: Vec<SelectedFile>,
    included: usize,
    excluded: usize,
    warnings: Vec<String>,
    depth_warned: bool,
    stopped: bool,
}

/// Every selected file has a surfaced relative path that the rules admit.
pub open spec fn files_admitted(rules: RulesView, files: Seq<SelectedFile>) -> bool {
    forall|i: int|
        0 <= i < files.len() ==> is_surfaced_rel((#[trigger] files[i]).rel_path@) && may_decide(
            rules,
            files[i].rel_path@,
            false,
            Decision::Include,
        )
}

impl SelectionWalk {
    pub closed spec fn rules(&self) -> RulesView {
        self.engine.rules()
    }

    pub closed spec fn root_view(&self) -> Seq<char> {
        self.root@
    }

    pub closed spec fn limits_view(&self) -> ScanLimits {
        self.limits
    }

    pub closed spec fn files_view(&self) -> Seq<SelectedFile> {
        self.files@
    }

    pub closed spec fn included(&self) -> nat {
        self.included as nat
    }

    pub closed spec fn excluded(&self) -> nat {
        self.excluded as nat
    }

    pub closed spec fn warnings_view(&self) -> Seq<String> {
        self.warnings@
    }

    pub closed spec fn depth_warned(&self) -> bool {
        self.depth_warned
    }

    pub closed spec fn stopped(&self) -> bool {
        self.stopped
    }

    pub closed spec fn wf(&self) -> bool {
        &&& self.engine.wf()
        &&& self.included == self.files.len()
        &&& files_admitted(self.engine.rules(), self.files@)
        &&& (!self.stopped ==> self.included + self.excluded == 0 || self.included + self.excluded
            < self.limits.max_files)
        &&& self.included + self.excluded <= usize::MAX
    }

    /// What one accepted entry does to a running walk (`next` is the walk
    /// afterwards, `step` the answer).
    pub open spec fn visited(&self, next: &SelectionWalk, entry: &WalkEntry, step: WalkStep) -> bool {
        let warn_depth = entry.is_dir && entry.depth >= self.limits_view().max_depth
            && entry.has_children && !self.depth_warned();
        let w0 = self.warnings_view();
        let w1 = if warn_depth {
            w0.push(next.warnings_view()[w0.len() as int])
        } else {
            w0
        };
        &&& next.depth_warned() == (self.depth_warned() || warn_depth)
        &&& warn_depth ==> next.warnings_view().len() > w0.len()
            && next.warnings_view()[w0.len() as int]@ == depth_warning(
            self.limits_view().max_depth as nat,
        )
        &&& entry.depth == 0 ==> {
            &&& next.files_view() == self.files_view()
            &&& next.included() == self.included()
            &&& next.excluded() == self.excluded()
            &&& next.warnings_view() == w1
            &&& !next.stopped()
            &&& step == (if self.limits_view().max_depth == 0 {
                WalkStep::SkipDir
            } else {
                WalkStep::Continue
            })
        }
        &&& entry.depth > 0 && entry.is_dir ==> {
            let rel = unix_rel(path_strip(self.root_view(), entry.abs_path@)->0);
            &&& next.files_view() == self.files_view()
            &&& next.included() == self.included()
            &&& next.excluded() == self.excluded()
            &&& next.warnings_view() == w1
            &&& !next.stopped()
            &&& step == WalkStep::SkipDir ==> entry.depth >= self.limits_view().max_depth
                || may_decide(self.rules(), rel, true, Decision::Exclude)
            &&& step == WalkStep::Continue ==> entry.depth < self.limits_view().max_depth
                && may_decide(self.rules(), rel, true, Decision::Include)
            &&& step != WalkStep::Stop
        }
        &&& entry.depth > 0 && !entry.is_dir ==> {
            let rel = unix_rel(path_strip(self.root_view(), entry.abs_path@)->0);
            let counted = self.included() + self.excluded() + 1;
            let full = counted >= self.limits_view().max_files;
            &&& next.included() + next.excluded() == counted
            &&& ({
                &&& next.included() == self.included() + 1
                &&& next.files_view().len() == self.files_view().len() + 1
                &&& next.files_view().drop_last() == self.files_view()
                &&& next.files_view().last().abs_path == entry.abs_path
                &&& next.files_view().last().rel_path@ == rel
                &&& next.files_view().last().size == entry.size
                &&& may_decide(self.rules(), rel, false, Decision::Include)
            } || {
                &&& next.excluded() == self.excluded() + 1
                &&& next.files_view() == self.files_view()
                &&& may_decide(self.rules(), rel, false, Decision::Exclude)
            })
            &&& next.stopped() == full
            &&& full ==> step == WalkStep::Stop && next.warnings_view() == w1.push(
                next.warnings_view().last(),
            ) && next.warnings_view().last()@ == files_warning(self.limits_view().max_files as nat)
            &&& !full ==> step == WalkStep::Continue && next.warnings_view() == w1
        }
    }

    /// A walk over `root` (canonical), starting with the warnings that the
    /// rule engine raised.
    pub fn new(root: String, engine: RuleEngine, limits: ScanLimits) -> (r: SelectionWalk)
        requires
            engine.wf(),
        ensures
            r.wf(),
            r.rules() == engine.rules(),
            r.root_view() == root@,
            r.limits_view() == limits,
            r.files_view().len() == 0,
            r.included() == 0,
            r.excluded() == 0,
            r.warnings_view() == engine.warnings_view(),
            !r.depth_warned(),
            !r.stopped(),
    {
        let warnings = engine.warnings().clone();
        SelectionWalk {
            root,
            engine,
            limits,
            files: Vec::new(),
            included: 0,
            excluded: 0,
            warnings,
            depth_warned: false,
            stopped: false,
        }
    }

    /// Whether the walk has ended.
    pub fn is_stopped(&self) -> (r: bool)
        ensures
            r == self.stopped(),
    {
        self.stopped
    }

    /// Takes one entry of the traversal. The root itself is never selected;
    /// the first directory met at or below the depth limit that has entries
    /// raises the depth warning once; an excluded directory, or one at the
    /// depth limit, is not descended into; a file is selected or counted as
    /// excluded by the rules; reaching the file limit raises the files
    /// warning and ends the walk. Fails only for an entry outside the root.
    pub fn visit(&mut self, entry: &WalkEntry) -> (r: Result<WalkStep, String>)
        requires
            old(self).wf(),
        ensures
            final(self).wf(),
            final(self).rules() == old(self).rules(),
            final(self).root_view() == old(self).root_view(),
            final(self).limits_view() == old(self).limits_view(),
            old(self).stopped() ==> r == Ok::<WalkStep, String>(WalkStep::Stop) && *final(self)
                == *old(self),
            !old(self).stopped() && entry.depth > 0 && path_strip(
                old(self).root_view(),
                entry.abs_path@,
            ) is None ==> r is Err,
            r is Ok && !old(self).stopped() ==> old(self).visited(&*final(self), entry, r->Ok_0),
            !old(self).stopped() && (entry.depth == 0 || path_strip(
                old(self).root_view(),
                entry.abs_path@,
            ) is Some) ==> r is Ok,
    {
        if self.stopped {
            return Ok(WalkStep::Stop);
        }
        let ghost pre = *self;
        let warn_depth = entry.is_dir && entry.depth >= self.limits.max_depth && entry.has_children
            && !self.depth_warned;
        if warn_depth {
            self.warnings.push(depth_warning_text(self.limits.max_depth));
            self.depth_warned = true;
        }
        let ghost w1 = self.warnings@;
        assert(w1 == if warn_depth {
            pre.warnings@.push(w1[pre.warnings@.len() as int])
        } else {
            pre.warnings@
        });
        if entry.depth == 0 {
            let step = if self.limits.max_depth == 0 {
                WalkStep::SkipDir
            } else {
                WalkStep::Continue
            };
            assert(pre.visited(&*self, entry, step));
            return Ok(step);
        }
        let rel = relative_unix_path(self.root.as_str(), entry.abs_path.as_str())?;
        let decision = self.engine.should_include(rel.as_str(), entry.is_dir);
        if entry.is_dir {
            if matches!(decision, Decision::Exclude) || entry.depth >= self.limits.max_depth {
                assert(pre.visited(&*self, entry, WalkStep::SkipDir));
                return Ok(WalkStep::SkipDir);
            }
            assert(pre.visited(&*self, entry, WalkStep::Continue));
            return Ok(WalkStep::Continue);
        }
        match decision {
            Decision::Include => {
                let f = SelectedFile { abs_path: entry.abs_path.clone(), rel_path: rel, size: entry.size };
                self.files.push(f);
                self.included = self.included + 1;
                assert(self.files@.drop_last() =~= pre.files@);
            },
            Decision::Exclude => {
                self.excluded = self.excluded + 1;
            },
        }
        if self.included + self.excluded >= self.limits.max_files {
            self.warnings.push(files_warning_text(self.limits.max_files));
            self.stopped = true;
            assert(pre.visited(&*self, entry, WalkStep::Stop));
            return Ok(WalkStep::Stop);
        }
        assert(pre.visited(&*self, entry, WalkStep::Continue));
        Ok(WalkStep::Continue)
    }

    /// With a depth limit of 0 the walk does not descend into the root, so
    /// nothing is selected, and the depth warning is raised when the root has
    /// any entry.
    pub proof fn lemma_zero_depth_selects_nothing(
        &self,
        next: &SelectionWalk,
        root: &WalkEntry,
        step: WalkStep,
    )
        requires
            self.limits_view().max_depth == 0,
            self.files_view().len() == 0,
            !self.depth_warned(),
            root.depth == 0,
            root.is_dir,
            self.visited(next, root, step),
        ensures
            step == WalkStep::SkipDir,
            next.files_view().len() == 0,
            root.has_children ==> next.warnings_view().last()@ == depth_warning(0),
    {
    }

    /// The file that brings the count of files met to the limit ends the
    /// walk and raises the files warning.
    pub proof fn lemma_file_limit_stops(
        &self,
        next: &SelectionWalk,
        file: &WalkEntry,
        step: WalkStep,
    )
        requires
            !file.is_dir,
            file.depth > 0,
            self.included() + self.excluded() + 1 >= self.limits_view().max_files,
            self.visited(next, file, step),
        ensures
            step == WalkStep::Stop,
            next.stopped(),
            next.included() + next.excluded() == self.included() + self.excluded() + 1,
            next.warnings_view().last()@ == files_warning(self.limits_view().max_files as nat),
    {
    }

    /// The selection: the chosen files sorted by relative path
    /// (case-insensitive, then case-sensitive), with the counts and warnings.
    pub fn finish(self) -> (r: SelectionRun)
        requires
            self.wf(),
        ensures
            r.included_files == self.included(),
            r.included_files == r.files.len(),
            r.excluded_files == self.excluded(),
            r.warnings@ == self.warnings_view(),
            r.files.len() == self.files_view().len(),
            files_admitted(self.rules(), r.files@),
            exists|perm: Seq<usize>|
                is_permutation(perm, self.files_view().len()) && forall|i: int|
                    0 <= i < perm.len() ==> r.files@[i] == #[trigger] self.files_view()[perm[i] as int],
            forall|i: int, j: int|
                0 <= i < j < r.files.len() ==> entry_order(
                    #[trigger] r.files@[i].rel_path@,
                    false,
                    #[trigger] r.files@[j].rel_path@,
                    false,
                ) != Ordering::Greater,
    {
        let mut keys: Vec<SortKey> = Vec::new();
        let mut i: usize = 0;
        while i < self.files.len()
            invariant
                i <= self.files.len(),
                keys.len() == i,
                forall|k: int|
                    0 <= k < i ==> (#[trigger] keys@[k]).wf() && keys@[k].raw@ == self.files@[k].rel_path@
                        && !keys@[k].is_dir,
            decreases self.files.len() - i,
        {
            keys.push(SortKey::new(self.files[i].rel_path.as_str(), false));
            i = i + 1;
        }
        let perm = sort_order(&keys);
        let mut files: Vec<SelectedFile> = Vec::new();
        let mut k: usize = 0;
        while k < perm.len()
            invariant
                k <= perm.len(),
                is_permutation(perm@, self.files.len() as nat),
                keys.len() == self.files.len(),
                files.len() == k,
                forall|j: int| 0 <= j < k ==> files@[j] == #[trigger] self.files@[perm@[j] as int],
            decreases perm.len() - k,
        {
            files.push(self.files[perm[k]].duplicate());
            k = k + 1;
        }
        proof {
            assert forall|a: int, b: int| 0 <= a < b < files.len() implies entry_order(
                #[trigger] files@[a].rel_path@,
                false,
                #[trigger] files@[b].rel_path@,
                false,
            ) != Ordering::Greater by {
                assert(keys@[perm@[a] as int].cmp_spec(&keys@[perm@[b] as int]) != Ordering::Greater);
            }
            assert forall|a: int| 0 <= a < files.len() implies is_surfaced_rel(
                (#[trigger] files@[a]).rel_path@,
            ) && may_decide(self.rules(), files@[a].rel_path@, false, Decision::Include) by {
                assert(files@[a] == self.files@[perm@[a] as int]);
            }
        }
        SelectionRun {
            files,
            included_files: self.included,
            excluded_files: self.excluded,
            warnings: self.warnings,
        }
    }
}

} // verus!
