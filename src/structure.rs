//! The structure block: every directory above a selected file and every
//! selected file, once each, directories first, in the canonical order.
use crate::selection::SelectedFile;
use crate::sorting::{
    entry_le, entry_order, is_permutation, lemma_cmp_text_flip, lemma_entry_antisym, lemma_entry_le_trans,
    sort_order, sorted_by_keys, SortKey,
};
use crate::text::{chars_of, has_prefix, lower_of, push_str, string_of};
use std::cmp::Ordering;
use vstd::prelude::*;

verus! {

/// `p` is a directory above `rel`: `rel` cut just before one of its slashes.
pub open spec fn dir_prefix_of(p: Seq<char>, rel: Seq<char>) -> bool {
    p.len() < rel.len() && p.is_prefix_of(rel) && rel[p.len() as int] == '/'
}

/// `p` is listed for `rel`: one of its directories, or itself.
pub open spec fn entry_of(p: Seq<char>, rel: Seq<char>) -> bool {
    p == rel || dir_prefix_of(p, rel)
}

/// `p` is listed for some selected file.
pub open spec fn in_structure(files: Seq<SelectedFile>, p: Seq<char>) -> bool {
    exists|f: int| 0 <= f < files.len() && entry_of(p, #[trigger] files[f].rel_path@)
}

/// `p` is a directory above some selected file.
pub open spec fn structure_dir(files: Seq<SelectedFile>, p: Seq<char>) -> bool {
    exists|f: int| 0 <= f < files.len() && dir_prefix_of(p, #[trigger] files[f].rel_path@)
}

/// The entry of the root.
pub open spec fn dot() -> Seq<char> {
    seq!['.']
}

fn is_dot(p: &Vec<char>) -> (r: bool)
    ensures
        r == (p@ == dot()),
{
    let r = p.len() == 1 && p[0] == '.';
    assert(r ==> p@ =~= dot());
    r
}

fn copy_prefix(v: &Vec<char>, n: usize) -> (r: Vec<char>)
    requires
        n <= v.len(),
    ensures
        r@ == v@.subrange(0, n as int),
{
    let mut out: Vec<char> = Vec::new();
    let mut k: usize = 0;
    while k < n
        invariant
            k <= n <= v.len(),
            out@ == v@.subrange(0, k as int),
        decreases n - k,
    {
        out.push(v[k]);
        k = k + 1;
        assert(out@ =~= v@.subrange(0, k as int));
    }
    out
}

fn same_chars(a: &Vec<char>, b: &Vec<char>) -> (r: bool)
    ensures
        r == (a@ == b@),
{
    if a.len() != b.len() {
        return false;
    }
    let r = has_prefix(a, b);
    assert(r ==> a@ =~= b@);
    r
}

/// Every listed entry for the files processed so far, with its directory flag,
/// possibly repeated.
fn collect_occurrences(files: &Vec<SelectedFile>) -> (r: (Vec<Vec<char>>, Vec<bool>))
    ensures
        r.0.len() == r.1.len(),
        forall|k: int| 0 <= k < r.0.len() ==> (#[trigger] r.0@[k])@ != dot() && in_structure(files@, r.0@[k]@)
            && (r.1@[k] ==> structure_dir(files@, r.0@[k]@)),
        forall|p: Seq<char>| in_structure(files@, p) && p != dot() ==> exists|k: int| 0 <= k < r.0.len() && (#[trigger] r.0@[k])@ == p,
        forall|p: Seq<char>| structure_dir(files@, p) && p != dot() ==> exists|k: int| 0 <= k < r.0.len() && (#[trigger] r.0@[k])@ == p && r.1@[k],
{
    let mut paths: Vec<Vec<char>> = Vec::new();
    let mut dirs: Vec<bool> = Vec::new();
    let mut fi: usize = 0;
    while fi < files.len()
        invariant
            fi <= files.len(),
            paths.len() == dirs.len(),
            forall|k: int| 0 <= k < paths.len() ==> (#[trigger] paths@[k])@ != dot() && in_structure(files@, paths@[k]@)
                && (dirs@[k] ==> structure_dir(files@, paths@[k]@)),
            forall|p: Seq<char>, f: int| 0 <= f < fi && #[trigger] entry_of(p, files@[f].rel_path@) && p != dot() ==> exists|k: int| 0 <= k < paths.len() && (#[trigger] paths@[k])@ == p,
            forall|p: Seq<char>, f: int| 0 <= f < fi && #[trigger] dir_prefix_of(p, files@[f].rel_path@) && p != dot() ==> exists|k: int| 0 <= k < paths.len() && (#[trigger] paths@[k])@ == p && dirs@[k],
        decreases files.len() - fi,
    {
        let rel = chars_of(files[fi].rel_path.as_str());
        let ghost relv = rel@;
        let ghost start_p = paths@;
        let ghost start_d = dirs@;
        let mut i: usize = 0;
        while i < rel.len()
            invariant
                fi < files.len(),
                relv == rel@,
                relv == files@[fi as int].rel_path@,
                i <= rel.len(),
                paths.len() == dirs.len(),
                start_p.len() <= paths.len(),
                forall|k: int| 0 <= k < start_p.len() ==> paths@[k] == start_p[k] && dirs@[k] == start_d[k],
                forall|k: int| 0 <= k < paths.len() ==> (#[trigger] paths@[k])@ != dot() && in_structure(files@, paths@[k]@)
                    && (dirs@[k] ==> structure_dir(files@, paths@[k]@)),
                forall|p: Seq<char>| #[trigger] entry_of(p, relv) && p.len() < i && p != dot() ==> exists|k: int| 0 <= k < paths.len() && (#[trigger] paths@[k])@ == p
                    && (dir_prefix_of(p, relv) ==> dirs@[k]),
            decreases rel.len() - i,
        {
            let ghost before_p = paths@;
            let ghost before_d = dirs@;
            if rel[i] == '/' {
                let p = copy_prefix(&rel, i);
                proof {
                    assert(dir_prefix_of(p@, relv));
                    assert(structure_dir(files@, p@));
                    assert(in_structure(files@, p@));
                }
                if !is_dot(&p) {
                    paths.push(p);
                    dirs.push(true);
                }
            }
            proof {
                assert forall|k: int| 0 <= k < before_p.len() implies paths@[k] == before_p[k] && dirs@[k] == before_d[k] by {}
                assert forall|q: Seq<char>| #[trigger] entry_of(q, relv) && q.len() < i + 1 && q != dot() implies exists|k: int| 0 <= k < paths.len() && (#[trigger] paths@[k])@ == q
                    && (dir_prefix_of(q, relv) ==> dirs@[k]) by {
                    if q.len() < i {
                        let k = choose|k: int| 0 <= k < before_p.len() && (#[trigger] before_p[k])@ == q && (dir_prefix_of(q, relv) ==> before_d[k]);
                        assert(paths@[k]@ == q);
                    } else {
                        assert(q.len() < relv.len());
                        assert(q =~= relv.subrange(0, i as int));
                        assert(rel@[i as int] == '/');
                        let k = paths.len() - 1;
                        assert(paths@[k]@ == q);
                    }
                }
            }
            i = i + 1;
        }
        let ghost before_p = paths@;
        let ghost before_d = dirs@;
        let whole = copy_prefix(&rel, rel.len());
        proof {
            assert(whole@ =~= relv);
            assert(entry_of(relv, relv));
            assert(in_structure(files@, relv));
        }
        if !is_dot(&whole) {
            paths.push(whole);
            dirs.push(false);
        }
        proof {
            assert forall|k: int| 0 <= k < before_p.len() implies paths@[k] == before_p[k] && dirs@[k] == before_d[k] by {}
            assert forall|q: Seq<char>| #[trigger] entry_of(q, relv) && q != dot() implies exists|k: int| 0 <= k < paths.len() && (#[trigger] paths@[k])@ == q
                && (dir_prefix_of(q, relv) ==> dirs@[k]) by {
                if q.len() < relv.len() {
                    let k = choose|k: int| 0 <= k < before_p.len() && (#[trigger] before_p[k])@ == q && (dir_prefix_of(q, relv) ==> before_d[k]);
                    assert(paths@[k]@ == q);
                } else {
                    assert(q == relv);
                    let k = paths.len() - 1;
                    assert(paths@[k]@ == q);
                }
            }
        }
        proof {
            assert forall|p: Seq<char>, f: int| 0 <= f < fi + 1 && #[trigger] entry_of(p, files@[f].rel_path@) && p != dot() implies exists|k: int| 0 <= k < paths.len() && (#[trigger] paths@[k])@ == p by {
                if f == fi {
                    let k = choose|k: int| 0 <= k < paths.len() && (#[trigger] paths@[k])@ == p && (dir_prefix_of(p, relv) ==> dirs@[k]);
                } else {
                    let k = choose|k: int| 0 <= k < start_p.len() && (#[trigger] start_p[k])@ == p;
                    assert(paths@[k]@ == p);
                }
            }
            assert forall|p: Seq<char>, f: int| 0 <= f < fi + 1 && #[trigger] dir_prefix_of(p, files@[f].rel_path@) && p != dot() implies exists|k: int| 0 <= k < paths.len() && (#[trigger] paths@[k])@ == p && dirs@[k] by {
                if f == fi {
                    assert(entry_of(p, relv));
                    let k = choose|k: int| 0 <= k < paths.len() && (#[trigger] paths@[k])@ == p && (dir_prefix_of(p, relv) ==> dirs@[k]);
                } else {
                    let k = choose|k: int| 0 <= k < start_p.len() && (#[trigger] start_p[k])@ == p && start_d[k];
                    assert(paths@[k]@ == p && dirs@[k]);
                }
            }
        }
        fi = fi + 1;
    }
    let r = (paths, dirs);
    proof {
        assert forall|p: Seq<char>| in_structure(files@, p) && p != dot() implies exists|k: int| 0 <= k < r.0.len() && (#[trigger] r.0@[k])@ == p by {
            let f = choose|f: int| 0 <= f < files.len() && entry_of(p, #[trigger] files@[f].rel_path@);
            assert(entry_of(p, files@[f].rel_path@));
            let k = choose|k: int| 0 <= k < paths.len() && (#[trigger] paths@[k])@ == p;
            assert(r.0@[k]@ == p);
        }
        assert forall|p: Seq<char>| structure_dir(files@, p) && p != dot() implies exists|k: int| 0 <= k < r.0.len() && (#[trigger] r.0@[k])@ == p && r.1@[k] by {
            let f = choose|f: int| 0 <= f < files.len() && dir_prefix_of(p, #[trigger] files@[f].rel_path@);
            assert(dir_prefix_of(p, files@[f].rel_path@));
            let k = choose|k: int| 0 <= k < paths.len() && (#[trigger] paths@[k])@ == p && dirs@[k];
            assert(r.0@[k]@ == p && r.1@[k]);
        }
    }
    r
}

/// The paths are in strictly increasing canonical (file) order.
pub open spec fn strictly_sorted(paths: Seq<Vec<char>>) -> bool {
    forall|j: int, l: int|
        0 <= j < l < paths.len() ==> entry_order((#[trigger] paths[j])@, false, (#[trigger] paths[l])@, false)
            == Ordering::Less
}

proof fn lemma_less_irreflexive(p: Seq<char>)
    ensures
        entry_order(p, false, p, false) != Ordering::Less,
{
    lemma_cmp_text_flip(lower_of(p), lower_of(p));
    lemma_cmp_text_flip(p, p);
}

proof fn lemma_strict_push(paths: Seq<Vec<char>>, p: Vec<char>)
    requires
        strictly_sorted(paths),
        paths.len() > 0,
        entry_le(paths.last()@, false, p@, false),
        paths.last()@ != p@,
    ensures
        strictly_sorted(paths.push(p)),
{
    let lp = paths.last()@;
    let np = p@;
    if entry_order(lp, false, np, false) == Ordering::Equal {
        lemma_cmp_text_flip(lower_of(lp), lower_of(np));
        lemma_cmp_text_flip(lp, np);
    }
    let q = paths.push(p);
    assert forall|j: int, l: int| 0 <= j < l < q.len() implies entry_order((#[trigger] q[j])@, false, (#[trigger] q[l])@, false)
        == Ordering::Less by {
        if l == q.len() - 1 {
            if j < paths.len() - 1 {
                let pj = paths[j]@;
                assert(entry_order(pj, false, lp, false) == Ordering::Less);
                lemma_entry_le_trans(pj, false, lp, false, np, false);
                if entry_order(pj, false, np, false) == Ordering::Equal {
                    lemma_cmp_text_flip(lower_of(pj), lower_of(np));
                    lemma_cmp_text_flip(pj, np);
                    lemma_entry_antisym(lp, pj, false);
                }
            }
        } else {
            assert(q[j] == paths[j] && q[l] == paths[l]);
        }
    }
}

/// Appends an occurrence to the merged list: merged into the last entry
/// when it has the same path, appended otherwise.
fn merge_occurrence(paths: &mut Vec<Vec<char>>, dirs: &mut Vec<bool>, p: &Vec<char>, d: bool) -> (merged: bool)
    requires
        old(paths).len() == old(dirs).len(),
    ensures
        final(paths).len() == final(dirs).len(),
        merged ==> old(paths).len() > 0 && old(paths)@.last()@ == p@ && final(paths)@ == old(paths)@
            && final(dirs)@ == old(dirs)@.update(old(dirs).len() - 1, old(dirs)@.last() || d),
        !merged ==> (old(paths).len() == 0 || old(paths)@.last()@ != p@) && final(paths)@.len() == old(paths)@.len() + 1
            && final(paths)@.drop_last() == old(paths)@ && final(paths)@.last()@ == p@
            && final(dirs)@ == old(dirs)@.push(d),
{
    if paths.len() > 0 && same_chars(&paths[paths.len() - 1], p) {
        let last = paths.len() - 1;
        let nd = dirs[last] || d;
        dirs.set(last, nd);
        true
    } else {
        let ghost before = paths@;
        paths.push(copy_prefix(p, p.len()));
        dirs.push(d);
        assert(p@.subrange(0, p@.len() as int) =~= p@);
        assert(paths@.drop_last() =~= before);
        false
    }
}

/// The distinct entries listed for the files, each with its directory flag:
/// the occurrences sorted by path, equal paths merged.
fn distinct_entries(files: &Vec<SelectedFile>) -> (r: (Vec<Vec<char>>, Vec<bool>))
    ensures
        r.0.len() == r.1.len(),
        forall|j: int| 0 <= j < r.0.len() ==> (#[trigger] r.0@[j])@ != dot() && in_structure(files@, r.0@[j]@)
            && r.1@[j] == structure_dir(files@, r.0@[j]@),
        forall|p: Seq<char>| in_structure(files@, p) && p != dot() ==> exists|j: int| 0 <= j < r.0.len() && (#[trigger] r.0@[j])@ == p,
        forall|j: int, k: int| 0 <= j < k < r.0.len() ==> (#[trigger] r.0@[j])@ != (#[trigger] r.0@[k])@,
{
    let (occ, occ_dirs) = collect_occurrences(files);
    let mut keys: Vec<SortKey> = Vec::new();
    let mut k: usize = 0;
    while k < occ.len()
        invariant
            k <= occ.len(),
            keys.len() == k,
            forall|j: int| 0 <= j < k ==> (#[trigger] keys@[j]).wf() && keys@[j].raw@ == occ@[j]@ && !keys@[j].is_dir,
        decreases occ.len() - k,
    {
        let s = string_of(&occ[k]);
        keys.push(SortKey::new(s.as_str(), false));
        k = k + 1;
    }
    let perm = sort_order(&keys);
    let ghost ov: Seq<Seq<char>> = occ@.map_values(|v: Vec<char>| v@);
    let ghost od: Seq<bool> = occ_dirs@;
    let mut paths: Vec<Vec<char>> = Vec::new();
    let mut dirs: Vec<bool> = Vec::new();
    let ghost mut grp: Seq<int> = Seq::empty();
    let ghost mut src: Seq<int> = Seq::empty();
    let ghost mut dsrc: Seq<int> = Seq::empty();
    let mut m: usize = 0;
    while m < perm.len()
        invariant
            m <= perm.len(),
            is_permutation(perm@, occ.len() as nat),
            keys.len() == occ.len(),
            occ.len() == occ_dirs.len(),
            ov == occ@.map_values(|v: Vec<char>| v@),
            od == occ_dirs@,
            forall|j: int| 0 <= j < keys.len() ==> (#[trigger] keys@[j]).raw@ == ov[j] && !keys@[j].is_dir,
            sorted_by_keys(keys@, perm@),
            paths.len() == dirs.len(),
            src.len() == paths.len(),
            dsrc.len() == paths.len(),
            grp.len() == m,
            m == 0 <==> paths.len() == 0,
            m > 0 ==> paths@.last()@ == ov[perm@[m - 1] as int],
            strictly_sorted(paths@),
            forall|t: int| 0 <= t < m ==> 0 <= #[trigger] grp[t] < paths.len() && paths@[grp[t]]@ == ov[perm@[t] as int]
                && (od[perm@[t] as int] ==> dirs@[grp[t]]),
            forall|j: int| 0 <= j < paths.len() ==> 0 <= #[trigger] src[j] < m && paths@[j]@ == ov[perm@[src[j]] as int],
            forall|j: int| 0 <= j < paths.len() ==> (#[trigger] dirs@[j] ==> 0 <= dsrc[j] < m && paths@[j]@ == ov[perm@[dsrc[j]] as int]
                && od[perm@[dsrc[j]] as int]),
        decreases perm.len() - m,
    {
        let o = perm[m];
        let ghost bp = paths@;
        let ghost bd = dirs@;
        assert(occ@[o as int]@ == ov[o as int]);
        let merged = merge_occurrence(&mut paths, &mut dirs, &occ[o], occ_dirs[o]);
        proof {
            let n = paths.len() as int;
            if merged {
                grp = grp.push(n - 1);
                if od[o as int] && !bd[n - 1] {
                    dsrc = dsrc.update(n - 1, m as int);
                }
            } else {
                grp = grp.push(n - 1);
                src = src.push(m as int);
                dsrc = dsrc.push(m as int);
                if m > 0 {
                    let prev = perm@[m - 1];
                    assert(keys@[prev as int].cmp_spec(&keys@[o as int]) != Ordering::Greater);
                    lemma_strict_push(bp, paths@.last());
                    assert(bp.push(paths@.last()) =~= paths@);
                }
            }
            assert forall|t: int| 0 <= t < m + 1 implies 0 <= #[trigger] grp[t] < paths.len() && paths@[grp[t]]@ == ov[perm@[t] as int]
                && (od[perm@[t] as int] ==> dirs@[grp[t]]) by {
                if t < m {
                    assert(paths@[grp[t]] == bp[grp[t]]);
                }
            }
            assert forall|j: int| 0 <= j < paths.len() implies 0 <= #[trigger] src[j] < m + 1 && paths@[j]@ == ov[perm@[src[j]] as int] by {
                if j < bp.len() {
                    assert(paths@[j] == bp[j]);
                }
            }
            assert forall|j: int| 0 <= j < paths.len() && #[trigger] dirs@[j] implies 0 <= dsrc[j] < m + 1 && paths@[j]@ == ov[perm@[dsrc[j]] as int]
                && od[perm@[dsrc[j]] as int] by {
                if j < bp.len() {
                    assert(paths@[j] == bp[j]);
                }
            }
        }
        m = m + 1;
    }
    let r = (paths, dirs);
    let paths = &r.0;
    let dirs = &r.1;
    proof {
        assert forall|j: int| 0 <= j < paths.len() implies (#[trigger] paths@[j])@ != dot() && in_structure(files@, paths@[j]@)
            && dirs@[j] == structure_dir(files@, paths@[j]@) by {
            let o = perm@[src[j]];
            assert(occ@[o as int]@ == ov[o as int]);
            if dirs@[j] {
                let o2 = perm@[dsrc[j]];
                assert(occ@[o2 as int]@ == ov[o2 as int]);
            }
            if structure_dir(files@, paths@[j]@) {
                let kk = choose|kk: int| 0 <= kk < occ.len() && (#[trigger] occ@[kk])@ == paths@[j]@ && occ_dirs@[kk];
                assert(ov[kk] == occ@[kk]@);
                assert(perm@.contains(kk as usize));
                let t = choose|t: int| 0 <= t < perm.len() && perm@[t] == kk as usize;
                let j2 = grp[t];
                if j2 != j {
                    if j2 < j {
                        assert(entry_order(paths@[j2]@, false, paths@[j]@, false) == Ordering::Less);
                    } else {
                        assert(entry_order(paths@[j]@, false, paths@[j2]@, false) == Ordering::Less);
                    }
                    lemma_less_irreflexive(paths@[j]@);
                }
            }
        }
        assert forall|p: Seq<char>| in_structure(files@, p) && p != dot() implies exists|j: int| 0 <= j < paths.len() && (#[trigger] paths@[j])@ == p by {
            let kk = choose|kk: int| 0 <= kk < occ.len() && (#[trigger] occ@[kk])@ == p;
            assert(ov[kk] == occ@[kk]@);
            assert(perm@.contains(kk as usize));
            let t = choose|t: int| 0 <= t < perm.len() && perm@[t] == kk as usize;
            assert(m == perm.len());
            assert(0 <= grp[t] < paths.len());
            assert(ov[perm@[t] as int] == p);
            assert(paths@[grp[t]]@ == p);
            assert(r.0@[grp[t]]@ == p);
        }
        assert forall|j: int, l: int| 0 <= j < l < paths.len() implies (#[trigger] paths@[j])@ != (#[trigger] paths@[l])@ by {
            assert(entry_order(paths@[j]@, false, paths@[l]@, false) == Ordering::Less);
            lemma_less_irreflexive(paths@[j]@);
        }
    }
    r
}

/// `lines` is the structure listing of `files`: `.` first, then every
/// directory above a selected file and every selected file, once each,
/// directories first and otherwise in the canonical order.
pub open spec fn structure_listing(files: Seq<SelectedFile>, r: Seq<String>) -> bool {
    &&& r.len() >= 1
    &&& r[0]@ == dot()
    &&& forall|i: int| 1 <= i < r.len() ==> (#[trigger] r[i])@ != dot() && in_structure(files, r[i]@)
    &&& forall|p: Seq<char>| in_structure(files, p) && p != dot() ==> exists|i: int| 1 <= i < r.len() && (#[trigger] r[i])@ == p
    &&& forall|i: int, j: int| 1 <= i < j < r.len() ==> (#[trigger] r[i])@ != (#[trigger] r[j])@
    &&& forall|i: int, j: int|
        1 <= i < j < r.len() ==> entry_order(
            #[trigger] r[i]@,
            structure_dir(files, r[i]@),
            #[trigger] r[j]@,
            structure_dir(files, r[j]@),
        ) != Ordering::Greater
}

proof fn lemma_sorted_unique(files: Seq<SelectedFile>, a: Seq<Seq<char>>, b: Seq<Seq<char>>)
    requires
        forall|i: int, j: int| 0 <= i < j < a.len() ==> (#[trigger] a[i]) != (#[trigger] a[j]),
        forall|i: int, j: int| 0 <= i < j < b.len() ==> (#[trigger] b[i]) != (#[trigger] b[j]),
        forall|i: int, j: int| 0 <= i < j < a.len() ==> entry_le(#[trigger] a[i], structure_dir(files, a[i]), #[trigger] a[j], structure_dir(files, a[j])),
        forall|i: int, j: int| 0 <= i < j < b.len() ==> entry_le(#[trigger] b[i], structure_dir(files, b[i]), #[trigger] b[j], structure_dir(files, b[j])),
        forall|x: Seq<char>| a.contains(x) <==> b.contains(x),
    ensures
        a == b,
    decreases a.len(),
{
    if a.len() == 0 {
        if b.len() > 0 {
            assert(b.contains(b[0]));
        }
        assert(a =~= b);
    } else {
        assert(a.contains(a[0]));
        let k = choose|k: int| 0 <= k < b.len() && b[k] == a[0];
        assert(b.contains(b[0]));
        let l = choose|l: int| 0 <= l < a.len() && a[l] == b[0];
        if k > 0 {
            if l > 0 {
                let (x, y) = (a[0], b[0]);
                assert(entry_le(y, structure_dir(files, y), x, structure_dir(files, x)));
                assert(entry_le(x, structure_dir(files, x), y, structure_dir(files, y)));
                if structure_dir(files, x) == structure_dir(files, y) {
                    crate::sorting::lemma_entry_antisym(x, y, structure_dir(files, x));
                }
            }
        }
        assert(a[0] == b[0]);
        let (ta, tb) = (a.drop_first(), b.drop_first());
        assert forall|x: Seq<char>| ta.contains(x) <==> tb.contains(x) by {
            if ta.contains(x) {
                let i = choose|i: int| 0 <= i < ta.len() && ta[i] == x;
                assert(a[i + 1] == x);
                assert(a.contains(x));
                let j = choose|j: int| 0 <= j < b.len() && b[j] == x;
                assert(j != 0);
                assert(tb[j - 1] == x);
            }
            if tb.contains(x) {
                let i = choose|i: int| 0 <= i < tb.len() && tb[i] == x;
                assert(b[i + 1] == x);
                assert(b.contains(x));
                let j = choose|j: int| 0 <= j < a.len() && a[j] == x;
                assert(j != 0);
                assert(ta[j - 1] == x);
            }
        }
        assert forall|i: int, j: int| 0 <= i < j < ta.len() implies (#[trigger] ta[i]) != (#[trigger] ta[j]) by {
            assert(ta[i] == a[i + 1] && ta[j] == a[j + 1]);
        }
        assert forall|i: int, j: int| 0 <= i < j < tb.len() implies (#[trigger] tb[i]) != (#[trigger] tb[j]) by {
            assert(tb[i] == b[i + 1] && tb[j] == b[j + 1]);
        }
        assert forall|i: int, j: int| 0 <= i < j < ta.len() implies entry_le(#[trigger] ta[i], structure_dir(files, ta[i]), #[trigger] ta[j], structure_dir(files, ta[j])) by {
            assert(ta[i] == a[i + 1] && ta[j] == a[j + 1]);
        }
        assert forall|i: int, j: int| 0 <= i < j < tb.len() implies entry_le(#[trigger] tb[i], structure_dir(files, tb[i]), #[trigger] tb[j], structure_dir(files, tb[j])) by {
            assert(tb[i] == b[i + 1] && tb[j] == b[j + 1]);
        }
        lemma_sorted_unique(files, ta, tb);
        assert(a =~= seq![a[0]] + ta);
        assert(b =~= seq![b[0]] + tb);
    }
}

/// The structure listing of a set of files is unique: two listings of the
/// same files have the same lines, so the structure block is the same on
/// every run over the same selection.
pub proof fn lemma_structure_listing_unique(files: Seq<SelectedFile>, a: Seq<String>, b: Seq<String>)
    requires
        structure_listing(files, a),
        structure_listing(files, b),
    ensures
        a.len() == b.len(),
        forall|i: int| 0 <= i < a.len() ==> (#[trigger] a[i])@ == b[i]@,
{
    let va = a.drop_first().map_values(|s: String| s@);
    let vb = b.drop_first().map_values(|s: String| s@);
    assert forall|i: int, j: int| 0 <= i < j < va.len() implies (#[trigger] va[i]) != (#[trigger] va[j]) by {
        assert(va[i] == a[i + 1]@ && va[j] == a[j + 1]@);
    }
    assert forall|i: int, j: int| 0 <= i < j < vb.len() implies (#[trigger] vb[i]) != (#[trigger] vb[j]) by {
        assert(vb[i] == b[i + 1]@ && vb[j] == b[j + 1]@);
    }
    assert forall|i: int, j: int| 0 <= i < j < va.len() implies entry_le(#[trigger] va[i], structure_dir(files, va[i]), #[trigger] va[j], structure_dir(files, va[j])) by {
        assert(va[i] == a[i + 1]@ && va[j] == a[j + 1]@);
    }
    assert forall|i: int, j: int| 0 <= i < j < vb.len() implies entry_le(#[trigger] vb[i], structure_dir(files, vb[i]), #[trigger] vb[j], structure_dir(files, vb[j])) by {
        assert(vb[i] == b[i + 1]@ && vb[j] == b[j + 1]@);
    }
    assert forall|x: Seq<char>| va.contains(x) <==> vb.contains(x) by {
        if va.contains(x) {
            let i = choose|i: int| 0 <= i < va.len() && va[i] == x;
            assert(a[i + 1]@ == x);
            assert(in_structure(files, x) && x != dot());
            let j = choose|j: int| 1 <= j < b.len() && (#[trigger] b[j])@ == x;
            assert(vb[j - 1] == x);
        }
        if vb.contains(x) {
            let i = choose|i: int| 0 <= i < vb.len() && vb[i] == x;
            assert(b[i + 1]@ == x);
            assert(in_structure(files, x) && x != dot());
            let j = choose|j: int| 1 <= j < a.len() && (#[trigger] a[j])@ == x;
            assert(va[j - 1] == x);
        }
    }
    lemma_sorted_unique(files, va, vb);
    assert forall|i: int| 0 <= i < a.len() implies (#[trigger] a[i])@ == b[i]@ by {
        if i > 0 {
            assert(va[i - 1] == a[i]@);
            assert(vb[i - 1] == b[i]@);
        }
    }
}

/// The lines of the structure block: `.` first, then every directory above
/// a selected file and every selected file, once each, directories first and
/// otherwise in the canonical order.
pub fn build_structure_lines(files: &Vec<SelectedFile>) -> (r: Vec<String>)
    ensures
        structure_listing(files@, r@),
{
    let (paths, dirs) = distinct_entries(files);
    let mut keys: Vec<SortKey> = Vec::new();
    let mut k: usize = 0;
    while k < paths.len()
        invariant
            k <= paths.len(),
            paths.len() == dirs.len(),
            keys.len() == k,
            forall|j: int| 0 <= j < paths.len() ==> dirs@[j] == structure_dir(files@, (#[trigger] paths@[j])@),
            forall|j: int| 0 <= j < k ==> (#[trigger] keys@[j]).wf() && keys@[j].raw@ == paths@[j]@ && keys@[j].is_dir == structure_dir(files@, paths@[j]@),
        decreases paths.len() - k,
    {
        let s = string_of(&paths[k]);
        keys.push(SortKey::new(s.as_str(), dirs[k]));
        k = k + 1;
    }
    let perm = sort_order(&keys);
    let mut out: Vec<String> = Vec::new();
    out.push(string_of(&vec!['.']));
    let mut m: usize = 0;
    while m < perm.len()
        invariant
            m <= perm.len(),
            is_permutation(perm@, paths.len() as nat),
            keys.len() == paths.len(),
            out.len() == m + 1,
            out@[0]@ == dot(),
            forall|j: int| 0 <= j < m ==> (#[trigger] out@[j + 1])@ == paths@[perm@[j] as int]@,
        decreases perm.len() - m,
    {
        out.push(string_of(&paths[perm[m]]));
        m = m + 1;
    }
    proof {
        assert forall|i: int| 1 <= i < out.len() implies (#[trigger] out@[i])@ != dot() && in_structure(files@, out@[i]@) by {
            assert(out@[(i - 1) + 1]@ == paths@[perm@[i - 1] as int]@);
        }
        assert forall|p: Seq<char>| in_structure(files@, p) && p != dot() implies exists|i: int| 1 <= i < out.len() && (#[trigger] out@[i])@ == p by {
            let j = choose|j: int| 0 <= j < paths.len() && (#[trigger] paths@[j])@ == p;
            assert(perm@.contains(j as usize));
            let m2 = choose|m2: int| 0 <= m2 < perm.len() && perm@[m2] == j as usize;
            assert(out@[m2 + 1]@ == p);
        }
        assert forall|i: int, j: int| 1 <= i < j < out.len() implies (#[trigger] out@[i])@ != (#[trigger] out@[j])@ by {
            assert(out@[(i - 1) + 1]@ == paths@[perm@[i - 1] as int]@);
            assert(out@[(j - 1) + 1]@ == paths@[perm@[j - 1] as int]@);
            assert(perm@[i - 1] != perm@[j - 1]);
        }
        assert forall|i: int, j: int| 1 <= i < j < out.len() implies entry_order(
            #[trigger] out@[i]@,
            structure_dir(files@, out@[i]@),
            #[trigger] out@[j]@,
            structure_dir(files@, out@[j]@),
        ) != Ordering::Greater by {
            assert(out@[(i - 1) + 1]@ == paths@[perm@[i - 1] as int]@);
            assert(out@[(j - 1) + 1]@ == paths@[perm@[j - 1] as int]@);
            assert(keys@[perm@[i - 1] as int].cmp_spec(&keys@[perm@[j - 1] as int]) != Ordering::Greater);
        }
    }
    out
}

/// The structure block: its title, one line per entry, a blank line.
pub open spec fn structure_text(lines: Seq<String>) -> Seq<char>
    decreases lines.len(),
{
    if lines.len() == 0 {
        "=== STRUCTURE ===\n"@
    } else {
        structure_text(lines.drop_last()) + lines.last()@ + "\n"@
    }
}

proof fn lemma_structure_text_views(a: Seq<String>, b: Seq<String>)
    requires
        a.len() == b.len(),
        forall|i: int| 0 <= i < a.len() ==> (#[trigger] a[i])@ == b[i]@,
    ensures
        structure_text(a) == structure_text(b),
    decreases a.len(),
{
    if a.len() > 0 {
        assert forall|i: int| 0 <= i < a.drop_last().len() implies (#[trigger] a.drop_last()[i])@ == b.drop_last()[i]@ by {
            assert(a.drop_last()[i] == a[i] && b.drop_last()[i] == b[i]);
        }
        lemma_structure_text_views(a.drop_last(), b.drop_last());
        assert(a.last()@ == b.last()@);
    }
}

/// Two runs over the same selection write the same structure block.
pub proof fn lemma_structure_block_deterministic(files: Seq<SelectedFile>, a: Seq<String>, b: Seq<String>)
    requires
        structure_listing(files, a),
        structure_listing(files, b),
    ensures
        structure_text(a) == structure_text(b),
{
    lemma_structure_listing_unique(files, a, b);
    lemma_structure_text_views(a, b);
}

/// The text of the structure block for the selected files.
pub fn structure_block(files: &Vec<SelectedFile>) -> (r: String)
    ensures
        exists|lines: Seq<String>|
            #[trigger] structure_listing(files@, lines) && structure_text(lines) + "\n"@ == r@,
{
    let lines = build_structure_lines(files);
    let mut out = String::new();
    push_str(&mut out, "=== STRUCTURE ===\n");
    let mut i: usize = 0;
    while i < lines.len()
        invariant
            i <= lines.len(),
            out@ == structure_text(lines@.subrange(0, i as int)),
        decreases lines.len() - i,
    {
        push_str(&mut out, lines[i].as_str());
        push_str(&mut out, "\n");
        i = i + 1;
        assert(lines@.subrange(0, i as int).drop_last() =~= lines@.subrange(0, i - 1));
        assert(out@ =~= structure_text(lines@.subrange(0, i as int)));
    }
    assert(lines@.subrange(0, lines.len() as int) =~= lines@);
    push_str(&mut out, "\n");
    assert(structure_listing(files@, lines@) && structure_text(lines@) + "\n"@ == out@);
    out
}

} // verus!
