//! The one total order used wherever order is visible: directories first, then
//! case-folded path, then raw path.
use crate::text::{chars_of, cmp_text, compare_text, lower_of, lowercase};
use std::cmp::Ordering;
use vstd::prelude::*;

verus! {

/// The order of two entries: directories before files; otherwise by
/// lowercased path, ties broken by the raw path.
pub open spec fn entry_order(a: Seq<char>, a_dir: bool, b: Seq<char>, b_dir: bool) -> Ordering {
    if a_dir && !b_dir {
        Ordering::Less
    } else if !a_dir && b_dir {
        Ordering::Greater
    } else {
        let primary = cmp_text(lower_of(a), lower_of(b));
        if primary == Ordering::Equal {
            cmp_text(a, b)
        } else {
            primary
        }
    }
}

/// Compares two entries by the canonical order.
pub fn compare_entries(path_a: &str, is_dir_a: bool, path_b: &str, is_dir_b: bool) -> (r: Ordering)
    ensures
        r == entry_order(path_a@, is_dir_a, path_b@, is_dir_b),
{
    if is_dir_a && !is_dir_b {
        return Ordering::Less;
    }
    if !is_dir_a && is_dir_b {
        return Ordering::Greater;
    }
    let la = lowercase(path_a);
    let lb = lowercase(path_b);
    let primary = compare_text(&chars_of(la.as_str()), &chars_of(lb.as_str()));
    match primary {
        Ordering::Equal => compare_text(&chars_of(path_a), &chars_of(path_b)),
        _ => primary,
    }
}

/// A precomputed sort key: the raw path, its lowercase form and the
/// directory flag.
pub struct SortKey {
    pub raw: Vec<char>,
    pub lower: Vec<char>,
    pub is_dir: bool,
}

impl SortKey {
    /// The key was built from its raw path.
    pub open spec fn wf(&self) -> bool {
        self.lower@ == lower_of(self.raw@)
    }

    pub open spec fn cmp_spec(&self, other: &SortKey) -> Ordering {
        entry_order(self.raw@, self.is_dir, other.raw@, other.is_dir)
    }

    /// The key of a path.
    pub fn new(path: &str, is_dir: bool) -> (r: SortKey)
        ensures
            r.wf(),
            r.raw@ == path@,
            r.is_dir == is_dir,
    {
        let lower = lowercase(path);
        SortKey { raw: chars_of(path), lower: chars_of(lower.as_str()), is_dir }
    }

    fn compare(&self, other: &SortKey) -> (r: Ordering)
        requires
            self.wf(),
            other.wf(),
        ensures
            r == self.cmp_spec(other),
    {
        if self.is_dir && !other.is_dir {
            return Ordering::Less;
        }
        if !self.is_dir && other.is_dir {
            return Ordering::Greater;
        }
        let primary = compare_text(&self.lower, &other.lower);
        match primary {
            Ordering::Equal => compare_text(&self.raw, &other.raw),
            _ => primary,
        }
    }
}

/// `a` may stand before `b`.
pub open spec fn entry_le(a: Seq<char>, a_dir: bool, b: Seq<char>, b_dir: bool) -> bool {
    entry_order(a, a_dir, b, b_dir) != Ordering::Greater
}

pub proof fn lemma_cmp_text_flip(a: Seq<char>, b: Seq<char>)
    ensures
        (cmp_text(a, b) == Ordering::Less) == (cmp_text(b, a) == Ordering::Greater),
        (cmp_text(a, b) == Ordering::Equal) == (a == b),
    decreases a.len(),
{
    if a.len() > 0 && b.len() > 0 && (a[0] as u32) == (b[0] as u32) {
        lemma_cmp_text_flip(a.drop_first(), b.drop_first());
        vstd::utf8::char_u32_cast(a[0], a[0] as u32);
        vstd::utf8::char_u32_cast(b[0], b[0] as u32);
        if a.drop_first() == b.drop_first() {
            assert(a =~= seq![a[0]] + a.drop_first());
            assert(b =~= seq![b[0]] + b.drop_first());
        }
        if a == b {
            assert(a.drop_first() == b.drop_first());
        }
    } else if a.len() > 0 && b.len() > 0 {
        assert(a != b);
    } else if a.len() == 0 && b.len() == 0 {
        assert(a =~= b);
    }
}

pub proof fn lemma_cmp_text_trans(a: Seq<char>, b: Seq<char>, c: Seq<char>)
    requires
        cmp_text(a, b) != Ordering::Greater,
        cmp_text(b, c) != Ordering::Greater,
    ensures
        cmp_text(a, c) != Ordering::Greater,
        cmp_text(a, b) == Ordering::Less || cmp_text(b, c) == Ordering::Less ==> cmp_text(a, c) == Ordering::Less,
    decreases a.len(),
{
    if a.len() > 0 && b.len() > 0 && c.len() > 0 {
        if (a[0] as u32) == (b[0] as u32) && (b[0] as u32) == (c[0] as u32) {
            lemma_cmp_text_trans(a.drop_first(), b.drop_first(), c.drop_first());
        }
    }
}

pub proof fn lemma_entry_le_total(a: Seq<char>, ad: bool, b: Seq<char>, bd: bool)
    ensures
        entry_le(a, ad, b, bd) || entry_le(b, bd, a, ad),
{
    lemma_cmp_text_flip(lower_of(a), lower_of(b));
    lemma_cmp_text_flip(a, b);
    lemma_cmp_text_flip(lower_of(b), lower_of(a));
    lemma_cmp_text_flip(b, a);
}

pub proof fn lemma_entry_le_trans(
    a: Seq<char>,
    ad: bool,
    b: Seq<char>,
    bd: bool,
    c: Seq<char>,
    cd: bool,
)
    requires
        entry_le(a, ad, b, bd),
        entry_le(b, bd, c, cd),
    ensures
        entry_le(a, ad, c, cd),
{
    lemma_cmp_text_flip(lower_of(a), lower_of(b));
    lemma_cmp_text_flip(lower_of(b), lower_of(c));
    lemma_cmp_text_flip(lower_of(a), lower_of(c));
    lemma_cmp_text_flip(a, b);
    lemma_cmp_text_flip(b, c);
    lemma_cmp_text_flip(a, c);
    if ad == bd && bd == cd {
        let (la, lb, lc) = (lower_of(a), lower_of(b), lower_of(c));
        if cmp_text(la, lb) != Ordering::Greater && cmp_text(lb, lc) != Ordering::Greater {
            lemma_cmp_text_trans(la, lb, lc);
        }
        if cmp_text(la, lb) == Ordering::Equal && cmp_text(lb, lc) == Ordering::Equal {
            lemma_cmp_text_trans(a, b, c);
        }
    }
}

/// Two entries that may each stand before the other are the same entry.
pub proof fn lemma_entry_antisym(a: Seq<char>, b: Seq<char>, d: bool)
    requires
        entry_le(a, d, b, d),
        entry_le(b, d, a, d),
    ensures
        a == b,
{
    lemma_cmp_text_flip(lower_of(a), lower_of(b));
    lemma_cmp_text_flip(a, b);
}

/// The keys, in the order that `perm` lists them, are sorted.
pub open spec fn sorted_by_keys(keys: Seq<SortKey>, perm: Seq<usize>) -> bool {
    forall|i: int, j: int|
        0 <= i < j < perm.len() ==> #[trigger] keys[perm[i] as int].cmp_spec(&keys[perm[j] as int])
            != Ordering::Greater
}

/// `perm` lists each index below `n` exactly once.
pub open spec fn is_permutation(perm: Seq<usize>, n: nat) -> bool {
    &&& perm.len() == n
    &&& perm.no_duplicates()
    &&& forall|i: int| 0 <= i < perm.len() ==> #[trigger] perm[i] < n
    &&& forall|x: usize| x < n ==> #[trigger] perm.contains(x)
}

/// Key `x` may stand before key `y`.
pub open spec fn key_le(keys: Seq<SortKey>, x: usize, y: usize) -> bool {
    keys[x as int].cmp_spec(&keys[y as int]) != Ordering::Greater
}

/// `run` is sorted, without repeats, over indices in `lo..hi`, each of
/// which it lists.
pub open spec fn sorted_run(keys: Seq<SortKey>, run: Seq<usize>, lo: int, hi: int) -> bool {
    &&& run.len() == hi - lo
    &&& run.no_duplicates()
    &&& forall|k: int| 0 <= k < run.len() ==> lo <= #[trigger] run[k] < hi
    &&& forall|x: usize| lo <= x < hi ==> #[trigger] run.contains(x)
    &&& sorted_by_keys(keys, run)
}

proof fn lemma_key_le_trans(keys: Seq<SortKey>, x: usize, y: usize, z: usize)
    requires
        x < keys.len(),
        y < keys.len(),
        z < keys.len(),
        key_le(keys, x, y),
        key_le(keys, y, z),
    ensures
        key_le(keys, x, z),
{
    let (kx, ky, kz) = (keys[x as int], keys[y as int], keys[z as int]);
    lemma_entry_le_trans(kx.raw@, kx.is_dir, ky.raw@, ky.is_dir, kz.raw@, kz.is_dir);
}

proof fn lemma_key_le_total(keys: Seq<SortKey>, x: usize, y: usize)
    requires
        x < keys.len(),
        y < keys.len(),
    ensures
        key_le(keys, x, y) || key_le(keys, y, x),
{
    let (kx, ky) = (keys[x as int], keys[y as int]);
    lemma_entry_le_total(kx.raw@, kx.is_dir, ky.raw@, ky.is_dir);
}

/// Merges two sorted runs over adjacent index ranges.
fn merge_runs(keys: &Vec<SortKey>, a: &Vec<usize>, b: &Vec<usize>, lo: usize, mid: usize, hi: usize) -> (r: Vec<usize>)
    requires
        lo <= mid <= hi <= keys.len(),
        forall|i: int| 0 <= i < keys.len() ==> #[trigger] keys[i].wf(),
        sorted_run(keys@, a@, lo as int, mid as int),
        sorted_run(keys@, b@, mid as int, hi as int),
    ensures
        sorted_run(keys@, r@, lo as int, hi as int),
{
    let mut r: Vec<usize> = Vec::new();
    let mut i: usize = 0;
    let mut j: usize = 0;
    while i < a.len() || j < b.len()
        invariant
            lo <= mid <= hi <= keys.len(),
            forall|t: int| 0 <= t < keys.len() ==> #[trigger] keys[t].wf(),
            sorted_run(keys@, a@, lo as int, mid as int),
            sorted_run(keys@, b@, mid as int, hi as int),
            i <= a.len(),
            j <= b.len(),
            r.len() == i + j,
            r@.no_duplicates(),
            forall|k: int| 0 <= k < r.len() ==> #[trigger] a@.subrange(0, i as int).contains(r@[k]) || b@.subrange(0, j as int).contains(r@[k]),
            forall|x: usize| #[trigger] a@.subrange(0, i as int).contains(x) ==> r@.contains(x),
            forall|x: usize| #[trigger] b@.subrange(0, j as int).contains(x) ==> r@.contains(x),
            sorted_by_keys(keys@, r@),
            forall|k: int, p: int| 0 <= k < r.len() && i <= p < a.len() ==> key_le(keys@, #[trigger] r@[k], #[trigger] a@[p]),
            forall|k: int, q: int| 0 <= k < r.len() && j <= q < b.len() ==> key_le(keys@, #[trigger] r@[k], #[trigger] b@[q]),
        decreases a.len() + b.len() - i - j,
    {
        let take_a = if i < a.len() && j < b.len() {
            !matches!(keys[a[i]].compare(&keys[b[j]]), Ordering::Greater)
        } else {
            i < a.len()
        };
        let ghost r0 = r@;
        let ghost i0 = i as int;
        let ghost j0 = j as int;
        let x = if take_a { a[i] } else { b[j] };
        proof {
            if take_a {
                if j < b.len() {
                    assert(key_le(keys@, a@[i as int], b@[j as int]));
                }
            } else {
                if i < a.len() {
                    lemma_key_le_total(keys@, a@[i as int], b@[j as int]);
                    assert(key_le(keys@, b@[j as int], a@[i as int]));
                }
            }
            // x is new: it is not among the elements taken so far
            if r0.contains(x) {
                let k = choose|k: int| 0 <= k < r0.len() && r0[k] == x;
                if take_a {
                    if a@.subrange(0, i as int).contains(x) {
                        let p = choose|p: int| 0 <= p < i && a@.subrange(0, i as int)[p] == x;
                        assert(a@[p] == a@[i as int]);
                    } else {
                        let q = choose|q: int| 0 <= q < j && b@.subrange(0, j as int)[q] == x;
                        assert(b@[q] == x);
                    }
                } else {
                    if a@.subrange(0, i as int).contains(x) {
                        let p = choose|p: int| 0 <= p < i && a@.subrange(0, i as int)[p] == x;
                        assert(a@[p] == x);
                    } else {
                        let q = choose|q: int| 0 <= q < j && b@.subrange(0, j as int)[q] == x;
                        assert(b@[q] == b@[j as int]);
                    }
                }
            }
        }
        r.push(x);
        if take_a {
            i = i + 1;
        } else {
            j = j + 1;
        }
        proof {
            let ai = a@.subrange(0, i as int);
            let bj = b@.subrange(0, j as int);
            assert forall|k: int| 0 <= k < r.len() implies #[trigger] ai.contains(r@[k]) || bj.contains(r@[k]) by {
                if k < r0.len() {
                    if take_a {
                        let ai0 = a@.subrange(0, i - 1);
                        if ai0.contains(r0[k]) {
                            let p = choose|p: int| 0 <= p < ai0.len() && ai0[p] == r0[k];
                            assert(ai[p] == r0[k]);
                        } else {
                            assert(bj.contains(r0[k]));
                        }
                    } else {
                        let bj0 = b@.subrange(0, j - 1);
                        if bj0.contains(r0[k]) {
                            let q = choose|q: int| 0 <= q < bj0.len() && bj0[q] == r0[k];
                            assert(bj[q] == r0[k]);
                        } else {
                            assert(ai.contains(r0[k]));
                        }
                    }
                } else {
                    if take_a {
                        assert(ai[i - 1] == x);
                    } else {
                        assert(bj[j - 1] == x);
                    }
                }
            }
            assert forall|y: usize| #[trigger] ai.contains(y) implies r@.contains(y) by {
                let p = choose|p: int| 0 <= p < ai.len() && ai[p] == y;
                if take_a && p == i - 1 {
                    assert(r@[r.len() - 1] == y);
                } else {
                    assert(a@.subrange(0, i0)[p] == y);
                    assert(a@.subrange(0, i0).contains(y));
                    assert(r0.contains(y));
                    let k = choose|k: int| 0 <= k < r0.len() && r0[k] == y;
                    assert(r@[k] == y);
                }
            }
            assert forall|y: usize| #[trigger] bj.contains(y) implies r@.contains(y) by {
                let q = choose|q: int| 0 <= q < bj.len() && bj[q] == y;
                if !take_a && q == j - 1 {
                    assert(r@[r.len() - 1] == y);
                } else {
                    assert(b@.subrange(0, j0)[q] == y);
                    assert(b@.subrange(0, j0).contains(y));
                    assert(r0.contains(y));
                    let k = choose|k: int| 0 <= k < r0.len() && r0[k] == y;
                    assert(r@[k] == y);
                }
            }
            assert forall|k: int, p: int| 0 <= k < r.len() && i <= p < a.len() implies key_le(keys@, #[trigger] r@[k], #[trigger] a@[p]) by {
                if k == r.len() - 1 {
                    if take_a {
                        assert(key_le(keys@, a@[i - 1], a@[p]));
                    } else if i < a.len() {
                        assert(key_le(keys@, a@[i as int], a@[p]) || i as int == p);
                        if i as int != p {
                            lemma_key_le_trans(keys@, x, a@[i as int], a@[p]);
                        }
                    }
                }
            }
            assert forall|k: int, q: int| 0 <= k < r.len() && j <= q < b.len() implies key_le(keys@, #[trigger] r@[k], #[trigger] b@[q]) by {
                if k == r.len() - 1 {
                    if !take_a {
                        assert(key_le(keys@, b@[j - 1], b@[q]));
                    } else if j < b.len() {
                        if j as int != q {
                            assert(key_le(keys@, b@[j as int], b@[q]));
                            lemma_key_le_trans(keys@, x, b@[j as int], b@[q]);
                        }
                    }
                }
            }
            assert forall|s: int, t: int| 0 <= s < t < r.len() implies #[trigger] keys@[r@[s] as int].cmp_spec(&keys@[r@[t] as int]) != Ordering::Greater by {
                if t == r.len() - 1 {
                    if take_a {
                        assert(key_le(keys@, r0[s], a@[i - 1]));
                    } else {
                        assert(key_le(keys@, r0[s], b@[j - 1]));
                    }
                }
            }
            assert forall|s: int, t: int| 0 <= s < t < r.len() implies r@[s] != r@[t] by {
                if t == r.len() - 1 {
                    assert(r0[s] == r@[s]);
                }
            }
        }
    }
    proof {
        assert(a@.subrange(0, a.len() as int) =~= a@);
        assert(b@.subrange(0, b.len() as int) =~= b@);
        assert forall|k: int| 0 <= k < r.len() implies lo <= #[trigger] r@[k] < hi by {
            if a@.contains(r@[k]) {
                let p = choose|p: int| 0 <= p < a.len() && a@[p] == r@[k];
            } else {
                assert(b@.contains(r@[k]));
                let q = choose|q: int| 0 <= q < b.len() && b@[q] == r@[k];
            }
        }
        assert forall|x: usize| lo <= x < hi implies #[trigger] r@.contains(x) by {
            if x < mid {
                assert(a@.contains(x));
            } else {
                assert(b@.contains(x));
            }
        }
    }
    r
}

fn sort_range(keys: &Vec<SortKey>, lo: usize, hi: usize) -> (r: Vec<usize>)
    requires
        lo <= hi <= keys.len(),
        forall|i: int| 0 <= i < keys.len() ==> #[trigger] keys[i].wf(),
    ensures
        sorted_run(keys@, r@, lo as int, hi as int),
    decreases hi - lo,
{
    if hi - lo == 0 {
        let r: Vec<usize> = Vec::new();
        return r;
    }
    if hi - lo == 1 {
        let mut r: Vec<usize> = Vec::new();
        r.push(lo);
        assert(r@[0] == lo);
        assert(r@.contains(lo));
        return r;
    }
    let mid = lo + (hi - lo) / 2;
    let a = sort_range(keys, lo, mid);
    let b = sort_range(keys, mid, hi);
    merge_runs(keys, &a, &b, lo, mid, hi)
}

/// The order in which to list `keys`: a permutation of their indices under
/// which they are sorted (merge sort).
pub fn sort_order(keys: &Vec<SortKey>) -> (perm: Vec<usize>)
    requires
        forall|i: int| 0 <= i < keys.len() ==> #[trigger] keys[i].wf(),
    ensures
        is_permutation(perm@, keys.len() as nat),
        sorted_by_keys(keys@, perm@),
{
    sort_range(keys, 0, keys.len())
}

} // verus!
