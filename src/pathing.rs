//! Path text: relative POSIX paths, containment in the root, key
//! normalisation and the checks on user-supplied paths.
use crate::errors::{
    coded, coded_text, E_DIRPATH_NOT_DIR, E_OUTPUT_REQUIRED, E_PATH_OUTSIDE_ROOT,
    E_ROOT_INVALID, E_ROOT_NOT_DIR, E_ROOT_REQUIRED,
};
use crate::text::{chars_of, concat, string_of, trim, trim_chars};
use vstd::prelude::*;

verus! {

/// What `Path::strip_prefix` gives for `path` with `base` removed
/// component-wise, or `None` where `base` is not a prefix of `path`.
pub uninterp spec fn path_strip(base: Seq<char>, path: Seq<char>) -> Option<Seq<char>>;

/// What `Path::file_name` gives: the final component, or `None` where the
/// path ends in `..` or has no component.
pub uninterp spec fn path_file_name(path: Seq<char>) -> Option<Seq<char>>;

/// Relies on std's Path::strip_prefix (with to_string_lossy, which is the
/// identity on text that came from a `str`): the remainder of `path` after
/// the components of `base`, or `None` when `base` is not a prefix of it.
#[verifier::external_body]
fn strip_path_prefix(base: &str, path: &str) -> (r: Option<String>)
    ensures
        match r {
            Some(rel) => path_strip(base@, path@) == Some(rel@),
            None => path_strip(base@, path@) is None,
        },
{
    std::path::Path::new(path).strip_prefix(base).ok().map(|p| p.to_string_lossy().into_owned())
}

/// Relies on std's Path::file_name (with to_string_lossy, the identity on
/// text that came from a `str`).
#[verifier::external_body]
fn path_file_name_of(path: &str) -> (r: Option<String>)
    ensures
        match r {
            Some(name) => path_file_name(path@) == Some(name@),
            None => path_file_name(path@) is None,
        },
{
    std::path::Path::new(path).file_name().map(|n| n.to_string_lossy().into_owned())
}

/// Whether a path has a final file-name component.
pub fn has_file_name(path: &str) -> (r: bool)
    ensures
        r == path_file_name(path@) is Some,
{
    path_file_name_of(path).is_some()
}

/// Backslashes turned into forward slashes.
pub open spec fn slashes_forward(s: Seq<char>) -> Seq<char> {
    s.map_values(|c: char| if c == '\\' { '/' } else { c })
}

/// `s` begins with `./`.
pub open spec fn starts_dot_slash(s: Seq<char>) -> bool {
    s.len() >= 2 && s[0] == '.' && s[1] == '/'
}

/// Every leading `./` removed, as `trim_start_matches("./")` does.
pub open spec fn strip_dot_slash(s: Seq<char>) -> Seq<char>
    decreases s.len(),
{
    if starts_dot_slash(s) {
        strip_dot_slash(s.subrange(2, s.len() as int))
    } else {
        s
    }
}

/// Leading slashes removed.
pub open spec fn strip_lead_slashes(s: Seq<char>) -> Seq<char>
    decreases s.len(),
{
    if s.len() > 0 && s[0] == '/' {
        strip_lead_slashes(s.drop_first())
    } else {
        s
    }
}

/// Trailing slashes removed.
pub open spec fn strip_trail_slashes(s: Seq<char>) -> Seq<char>
    decreases s.len(),
{
    if s.len() > 0 && s.last() == '/' {
        strip_trail_slashes(s.drop_last())
    } else {
        s
    }
}

/// The POSIX form of a path relative to the root: forward slashes, no
/// leading `./`.
pub open spec fn unix_rel(rel: Seq<char>) -> Seq<char> {
    strip_dot_slash(slashes_forward(rel))
}

/// The normal form of a manual-selection key or a path compared with one:
/// trimmed, forward slashes, no leading `./`, no slash at either end.
pub open spec fn normal_key(s: Seq<char>) -> Seq<char> {
    strip_trail_slashes(strip_lead_slashes(unix_rel(trim(s))))
}

/// The path is in the form surfaced to callers: no backslash, no leading `./`.
pub open spec fn is_surfaced_rel(p: Seq<char>) -> bool {
    &&& !p.contains('\\')
    &&& !starts_dot_slash(p)
}

/// The message for a path outside the root.
pub open spec fn outside_root_error() -> Seq<char> {
    coded_text(E_PATH_OUTSIDE_ROOT@, "Path is outside of rootPath"@)
}

proof fn lemma_strip_dot_slash_suffix(s: Seq<char>)
    ensures
        strip_dot_slash(s).is_suffix_of(s),
        !starts_dot_slash(strip_dot_slash(s)),
    decreases s.len(),
{
    if starts_dot_slash(s) {
        let t = s.subrange(2, s.len() as int);
        lemma_strip_dot_slash_suffix(t);
        let r = strip_dot_slash(t);
        assert forall|k: int| 0 <= k < r.len() implies r[k] == s[s.len() - r.len() + k] by {
            assert(r[k] == t[t.len() - r.len() + k]);
        }
    }
}

/// A relative path in POSIX form has no backslash and does not begin with
/// `./`: so every path that the scan, the selection walk and the export
/// surface is in that form.
pub proof fn lemma_unix_rel_is_surfaced(rel: Seq<char>)
    ensures
        is_surfaced_rel(unix_rel(rel)),
{
    let f = slashes_forward(rel);
    lemma_strip_dot_slash_suffix(f);
    let r = strip_dot_slash(f);
    if r.contains('\\') {
        let k = choose|k: int| 0 <= k < r.len() && r[k] == '\\';
        assert(f[f.len() - r.len() + k] == '\\');
    }
}

fn replace_backslashes(v: &Vec<char>) -> (r: Vec<char>)
    ensures
        r@ == slashes_forward(v@),
{
    let mut out: Vec<char> = Vec::new();
    let mut i: usize = 0;
    while i < v.len()
        invariant
            i <= v.len(),
            out@ == slashes_forward(v@.subrange(0, i as int)),
        decreases v.len() - i,
    {
        let c = v[i];
        out.push(if c == '\\' { '/' } else { c });
        i = i + 1;
        assert(out@ =~= slashes_forward(v@.subrange(0, i as int)));
    }
    assert(v@.subrange(0, v.len() as int) =~= v@);
    out
}

fn copy_range(v: &Vec<char>, lo: usize, hi: usize) -> (r: Vec<char>)
    requires
        lo <= hi <= v.len(),
    ensures
        r@ == v@.subrange(lo as int, hi as int),
{
    let mut out: Vec<char> = Vec::new();
    let mut k = lo;
    while k < hi
        invariant
            lo <= k <= hi <= v.len(),
            out@ == v@.subrange(lo as int, k as int),
        decreases hi - k,
    {
        out.push(v[k]);
        k = k + 1;
        assert(out@ =~= v@.subrange(lo as int, k as int));
    }
    out
}

fn drop_dot_slashes(v: &Vec<char>) -> (r: Vec<char>)
    ensures
        r@ == strip_dot_slash(v@),
{
    let mut i: usize = 0;
    assert(v@.subrange(0, v.len() as int) =~= v@);
    while v.len() - i >= 2 && v[i] == '.' && v[i + 1] == '/'
        invariant
            i <= v.len(),
            strip_dot_slash(v@) == strip_dot_slash(v@.subrange(i as int, v.len() as int)),
        decreases v.len() - i,
    {
        let ghost t = v@.subrange(i as int, v.len() as int);
        assert(t.subrange(2, t.len() as int) =~= v@.subrange(i + 2, v.len() as int));
        i = i + 2;
    }
    copy_range(v, i, v.len())
}

fn drop_slashes_both_ends(v: &Vec<char>) -> (r: Vec<char>)
    ensures
        r@ == strip_trail_slashes(strip_lead_slashes(v@)),
{
    let mut i: usize = 0;
    assert(v@.subrange(0, v.len() as int) =~= v@);
    while i < v.len() && v[i] == '/'
        invariant
            i <= v.len(),
            strip_lead_slashes(v@) == strip_lead_slashes(v@.subrange(i as int, v.len() as int)),
        decreases v.len() - i,
    {
        let ghost t = v@.subrange(i as int, v.len() as int);
        assert(t.drop_first() =~= v@.subrange(i + 1, v.len() as int));
        i = i + 1;
    }
    let mut j: usize = v.len();
    assert(v@.subrange(i as int, v.len() as int).subrange(0, (j - i) as int) =~= v@.subrange(i as int, j as int));
    while j > i && v[j - 1] == '/'
        invariant
            i <= j <= v.len(),
            strip_trail_slashes(strip_lead_slashes(v@)) == strip_trail_slashes(v@.subrange(i as int, j as int)),
        decreases j,
    {
        let ghost t = v@.subrange(i as int, j as int);
        assert(t.drop_last() =~= v@.subrange(i as int, j - 1));
        j = j - 1;
    }
    proof {
        let t = v@.subrange(i as int, v.len() as int);
        if i < v.len() {
            assert(t[0] == v@[i as int]);
        }
    }
    copy_range(v, i, j)
}

/// The normal form of a manual-selection key (or of a path looked up among
/// the keys).
pub fn normalize_key(input: &str) -> (r: String)
    ensures
        r@ == normal_key(input@),
{
    let t = trim_chars(input);
    let f = replace_backslashes(&t);
    let d = drop_dot_slashes(&f);
    let s = drop_slashes_both_ends(&d);
    string_of(&s)
}

/// The path of `abs` relative to `root`, in POSIX form; fails when `abs` is
/// not under `root`.
pub fn relative_unix_path(root: &str, abs: &str) -> (r: Result<String, String>)
    ensures
        match path_strip(root@, abs@) {
            Some(rel) => r == Ok::<String, String>(r->Ok_0) && r->Ok_0@ == unix_rel(rel),
            None => r is Err && r->Err_0@ == outside_root_error(),
        },
        r is Ok ==> is_surfaced_rel(r->Ok_0@),
{
    match strip_path_prefix(root, abs) {
        Some(rel) => {
            let cs = chars_of(rel.as_str());
            let f = replace_backslashes(&cs);
            let d = drop_dot_slashes(&f);
            proof {
                lemma_unix_rel_is_surfaced(rel@);
            }
            Ok(string_of(&d))
        },
        None => Err(coded(E_PATH_OUTSIDE_ROOT, "Path is outside of rootPath")),
    }
}

/// Accepts a canonical path only when it lies under the root.
pub fn ensure_under_root(root: &str, canonical: &str) -> (r: Result<String, String>)
    ensures
        path_strip(root@, canonical@) is Some ==> r == Ok::<String, String>(r->Ok_0) && r->Ok_0@
            == canonical@,
        path_strip(root@, canonical@) is None ==> r is Err && r->Err_0@ == outside_root_error(),
{
    match strip_path_prefix(root, canonical) {
        Some(_) => Ok(string_of(&chars_of(canonical))),
        None => Err(coded(E_PATH_OUTSIDE_ROOT, "Path is outside of rootPath")),
    }
}

/// The final component of `path`, or `fallback` when it has none.
pub open spec fn name_or(path: Seq<char>, fallback: Seq<char>) -> Seq<char> {
    match path_file_name(path) {
        Some(name) => if name.len() > 0 {
            name
        } else {
            fallback
        },
        None => fallback,
    }
}

/// The final component of a path, or `fallback` when it has none.
pub fn file_name_or_fallback(path: &str, fallback: &str) -> (r: String)
    ensures
        r@ == name_or(path@, fallback@),
{
    match path_file_name_of(path) {
        Some(name) => {
            if name.as_str().is_empty() {
                string_of(&chars_of(fallback))
            } else {
                name
            }
        },
        None => string_of(&chars_of(fallback)),
    }
}

/// The number of non-empty `/`-separated segments of a path.
pub open spec fn segment_count(s: Seq<char>) -> nat
    decreases s.len(),
{
    if s.len() == 0 {
        0
    } else {
        segment_count(s.drop_last()) + if s.last() != '/' && (s.len() == 1 || s[s.len() - 2] == '/') {
            1nat
        } else {
            0nat
        }
    }
}

/// The depth of `target` below `root`: the number of components of the
/// relative path (both paths canonical, so no `.` or `..` components).
pub fn depth_from_root(root: &str, target: &str) -> (r: Result<usize, String>)
    ensures
        match path_strip(root@, target@) {
            Some(rel) => r == Ok::<usize, String>(r->Ok_0) && r->Ok_0 == segment_count(
                unix_rel(rel),
            ),
            None => r is Err && r->Err_0@ == outside_root_error(),
        },
{
    let rel = relative_unix_path(root, target)?;
    let cs = chars_of(rel.as_str());
    let mut count: usize = 0;
    let mut i: usize = 0;
    while i < cs.len()
        invariant
            i <= cs.len(),
            count == segment_count(cs@.subrange(0, i as int)),
            count <= i,
        decreases cs.len() - i,
    {
        let ghost pre = cs@.subrange(0, i as int);
        let starts = cs[i] != '/' && (i == 0 || cs[i - 1] == '/');
        if starts {
            count = count + 1;
        }
        i = i + 1;
        proof {
            let s = cs@.subrange(0, i as int);
            assert(s.drop_last() =~= pre);
        }
    }
    assert(cs@.subrange(0, cs.len() as int) =~= cs@);
    Ok(count)
}

/// Whether trimmed text is empty.
pub open spec fn is_blank(s: Seq<char>) -> bool {
    trim(s).len() == 0
}

/// The root path, trimmed; `[E_ROOT_REQUIRED]` when it is blank.
pub fn validate_root_path(root_path: &str) -> (r: Result<String, String>)
    ensures
        is_blank(root_path@) ==> r is Err && r->Err_0@ == coded_text(
            E_ROOT_REQUIRED@,
            "rootPath is required"@,
        ),
        !is_blank(root_path@) ==> r is Ok && r->Ok_0@ == trim(root_path@),
{
    let t = trim_chars(root_path);
    if t.len() == 0 {
        return Err(coded(E_ROOT_REQUIRED, "rootPath is required"));
    }
    Ok(string_of(&t))
}

/// The output path, trimmed; `[E_OUTPUT_REQUIRED]` when it is blank.
pub fn validate_output_path(output_path: &str) -> (r: Result<String, String>)
    ensures
        is_blank(output_path@) ==> r is Err && r->Err_0@ == coded_text(
            E_OUTPUT_REQUIRED@,
            "outputPath is required"@,
        ),
        !is_blank(output_path@) ==> r is Ok && r->Ok_0@ == trim(output_path@),
{
    let t = trim_chars(output_path);
    if t.len() == 0 {
        return Err(coded(E_OUTPUT_REQUIRED, "outputPath is required"));
    }
    Ok(string_of(&t))
}

/// What the file system said of a path that was resolved.
pub struct Resolved {
    /// The canonical (absolute, symlink-free) form, or the failure's text.
    pub canonical: Result<String, String>,
    pub is_dir: bool,
}

/// Accepts a resolved root: `[E_ROOT_INVALID]` when resolution failed,
/// `[E_ROOT_NOT_DIR]` when it is not a directory.
pub fn accept_root(resolved: Resolved) -> (r: Result<String, String>)
    ensures
        match resolved.canonical {
            Err(cause) => r is Err && r->Err_0@ == coded_text(
                E_ROOT_INVALID@,
                "Invalid rootPath: "@ + cause@,
            ),
            Ok(path) => if resolved.is_dir {
                r == Ok::<String, String>(path)
            } else {
                r is Err && r->Err_0@ == coded_text(E_ROOT_NOT_DIR@, "rootPath must be a directory"@)
            },
        },
{
    match resolved.canonical {
        Err(cause) => {
            let m = concat("Invalid rootPath: ", cause.as_str());
            Err(coded(E_ROOT_INVALID, m.as_str()))
        },
        Ok(path) => {
            if resolved.is_dir {
                Ok(path)
            } else {
                Err(coded(E_ROOT_NOT_DIR, "rootPath must be a directory"))
            }
        },
    }
}

/// Whether a requested directory is the root itself (`""` or `"."` once
/// trimmed).
pub fn names_root(dir_path: &str) -> (r: bool)
    ensures
        r == (trim(dir_path@).len() == 0 || trim(dir_path@) == seq!['.']),
{
    let t = trim_chars(dir_path);
    let r = t.len() == 0 || (t.len() == 1 && t[0] == '.');
    assert(r ==> (t@.len() == 0 || t@ =~= seq!['.']));
    r
}

/// Accepts a resolved directory below the root: the resolution's own error,
/// `[E_PATH_OUTSIDE_ROOT]` outside the root, `[E_DIRPATH_NOT_DIR]` when it
/// is not a directory.
pub fn resolve_dir_under_root(root: &str, resolved: Resolved) -> (r: Result<String, String>)
    ensures
        match resolved.canonical {
            Err(e) => r == Err::<String, String>(e),
            Ok(path) => if path_strip(root@, path@) is None {
                r is Err && r->Err_0@ == outside_root_error()
            } else if !resolved.is_dir {
                r is Err && r->Err_0@ == coded_text(E_DIRPATH_NOT_DIR@, "dirPath must be a directory"@)
            } else {
                r is Ok && r->Ok_0@ == path@
            },
        },
{
    let canonical = match resolved.canonical {
        Err(e) => return Err(e),
        Ok(p) => p,
    };
    let under = ensure_under_root(root, canonical.as_str())?;
    if !resolved.is_dir {
        return Err(coded(E_DIRPATH_NOT_DIR, "dirPath must be a directory"));
    }
    Ok(under)
}

} // verus!
