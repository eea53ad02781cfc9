//! Glob patterns, compiled and matched by the globset crate.
use crate::errors::{coded, coded_text, E_RULE_INVALID_GLOB};
use crate::text::concat;
use globset::{Glob, GlobSet};
use vstd::prelude::*;

verus! {

#[verifier::external_type_specification]
#[verifier::external_body]
pub struct ExGlob(globset::Glob);

#[verifier::external_type_specification]
#[verifier::external_body]
pub struct ExGlobSet(globset::GlobSet);

#[verifier::external_type_specification]
#[verifier::external_body]
pub struct ExGlobError(globset::Error);

/// Whether `Glob::new` accepts a pattern.
pub uninterp spec fn glob_parses(pattern: Seq<char>) -> bool;

/// Whether a glob built by `Glob::new` from `pattern` matches `path`.
pub uninterp spec fn glob_matches(pattern: Seq<char>, path: Seq<char>) -> bool;

/// Whether `GlobSet::new` builds a set from globs with these pattern texts.
pub uninterp spec fn glob_set_builds(patterns: Seq<Seq<char>>) -> bool;

/// The pattern text that a `Glob` holds (what `Glob::glob` returns).
pub uninterp spec fn glob_text(g: Glob) -> Seq<char>;

/// The patterns that a `GlobSet` holds, in the order given to it.
pub uninterp spec fn set_patterns(s: GlobSet) -> Seq<Seq<char>>;

/// Relies on globset's Glob::new: it parses the pattern with default options
/// and keeps the pattern text it was given.
#[verifier::external_body]
fn parse_glob(pattern: &str) -> (r: Result<Glob, globset::Error>)
    ensures
        r is Ok <==> glob_parses(pattern@),
        r is Ok ==> glob_text(r->Ok_0) == pattern@,
{
    Glob::new(pattern)
}

/// Relies on globset's GlobSet::new: on success the set holds the given
/// globs, in order. Whether it succeeds (the regex engine may refuse the
/// set) depends on the globs alone.
#[verifier::external_body]
fn build_glob_set(globs: &Vec<Glob>) -> (r: Result<GlobSet, globset::Error>)
    ensures
        r is Ok <==> glob_set_builds(globs@.map_values(|g: Glob| glob_text(g))),
        r is Ok ==> set_patterns(r->Ok_0) == globs@.map_values(|g: Glob| glob_text(g)),
{
    GlobSet::new(globs.iter())
}

/// Relies on globset's GlobSet::is_match: true when any glob of the set
/// matches the path.
#[verifier::external_body]
fn glob_set_is_match(set: &GlobSet, path: &str) -> (r: bool)
    ensures
        r == (exists|i: int|
            0 <= i < set_patterns(*set).len() && #[trigger] glob_matches(set_patterns(*set)[i], path@)),
{
    set.is_match(path)
}

/// Relies on globset::Error's Display: a description of the failure.
#[verifier::external_body]
fn glob_error_text(e: &globset::Error) -> String {
    e.to_string()
}

/// Some glob of `patterns` matches `path`.
pub open spec fn any_glob_matches(patterns: Seq<Seq<char>>, path: Seq<char>) -> bool {
    exists|i: int| 0 <= i < patterns.len() && #[trigger] glob_matches(patterns[i], path)
}

/// The text of each pattern.
pub open spec fn pattern_texts(patterns: Seq<String>) -> Seq<Seq<char>> {
    patterns.map_values(|p: String| p@)
}

/// A compiled, non-empty set of glob patterns.
pub struct GlobMatcher {
    set: GlobSet,
    patterns: Ghost<Seq<Seq<char>>>,
}

impl GlobMatcher {
    pub closed spec fn patterns(&self) -> Seq<Seq<char>> {
        self.patterns@
    }

    pub closed spec fn wf(&self) -> bool {
        set_patterns(self.set) == self.patterns@
    }

    /// Whether any pattern of the set matches the path.
    pub fn is_match(&self, path: &str) -> (r: bool)
        requires
            self.wf(),
        ensures
            r == any_glob_matches(self.patterns(), path@),
    {
        glob_set_is_match(&self.set, path)
    }
}

/// The message for a pattern that does not parse.
pub open spec fn invalid_glob_error(pattern: Seq<char>) -> Seq<char> {
    coded_text(E_RULE_INVALID_GLOB@, "Invalid glob '"@ + pattern + "': "@)
}

/// A list of patterns compiles: it is empty, or every pattern parses and
/// the set builds.
pub open spec fn globs_compile(patterns: Seq<String>) -> bool {
    patterns.len() == 0 || ((forall|i: int| 0 <= i < patterns.len() ==> glob_parses(#[trigger] patterns[i]@))
        && glob_set_builds(pattern_texts(patterns)))
}

/// Pattern `i` is the first one that does not parse.
pub open spec fn first_bad_glob(patterns: Seq<String>, i: int) -> bool {
    &&& 0 <= i < patterns.len()
    &&& !glob_parses(patterns[i]@)
    &&& forall|j: int| 0 <= j < i ==> glob_parses(#[trigger] patterns[j]@)
}

/// Compiles a list of patterns: `None` when it is empty; an
/// `[E_RULE_INVALID_GLOB]` error naming the first pattern that does not parse,
/// or when the set cannot be built.
pub fn compile_globset(patterns: &Vec<String>) -> (r: Result<Option<GlobMatcher>, String>)
    ensures
        patterns.len() == 0 <==> r matches Ok(None),
        r is Ok <==> globs_compile(patterns@),
        r matches Ok(Some(m)) ==> m.wf() && m.patterns() == pattern_texts(patterns@)
            && patterns.len() > 0,
        (forall|i: int| 0 <= i < patterns.len() ==> glob_parses(#[trigger] patterns@[i]@))
            || r is Err,
        r is Err ==> (exists|i: int|
            first_bad_glob(patterns@, i) && #[trigger] invalid_glob_error(patterns@[i]@).is_prefix_of(
                r->Err_0@,
            )) || (forall|i: int| 0 <= i < patterns.len() ==> glob_parses(#[trigger] patterns@[i]@))
            && coded_text(E_RULE_INVALID_GLOB@, "Failed to build glob matcher: "@).is_prefix_of(
            r->Err_0@,
        ),
{
    if patterns.len() == 0 {
        return Ok(None);
    }
    let mut globs: Vec<Glob> = Vec::new();
    let mut i: usize = 0;
    while i < patterns.len()
        invariant
            i <= patterns.len(),
            globs.len() == i,
            forall|j: int| 0 <= j < i ==> glob_parses(#[trigger] patterns@[j]@),
            forall|j: int| 0 <= j < i ==> glob_text(#[trigger] globs@[j]) == patterns@[j]@,
        decreases patterns.len() - i,
    {
        match parse_glob(patterns[i].as_str()) {
            Ok(g) => {
                globs.push(g);
            },
            Err(e) => {
                let head = concat("Invalid glob '", patterns[i].as_str());
                let head = concat(head.as_str(), "': ");
                let detail = glob_error_text(&e);
                let msg = concat(head.as_str(), detail.as_str());
                let r = coded(E_RULE_INVALID_GLOB, msg.as_str());
                proof {
                    let p = patterns@[i as int]@;
                    assert(invalid_glob_error(p).is_prefix_of(r@)) by {
                        assert(msg@ =~= "Invalid glob '"@ + p + "': "@ + detail@);
                        assert(r@ =~= invalid_glob_error(p) + detail@);
                    }
                    assert(first_bad_glob(patterns@, i as int));
                    let res: Result<Option<GlobMatcher>, String> = Err(r);
                    assert(first_bad_glob(patterns@, i as int) && invalid_glob_error(
                        patterns@[i as int]@,
                    ).is_prefix_of(res->Err_0@));
                }
                return Err(r);
            },
        }
        i = i + 1;
    }
    match build_glob_set(&globs) {
        Ok(set) => {
            assert(globs@.map_values(|g: Glob| glob_text(g)) =~= pattern_texts(patterns@));
            assert(set_patterns(set) =~= pattern_texts(patterns@));
            Ok(Some(GlobMatcher { set, patterns: Ghost(pattern_texts(patterns@)) }))
        },
        Err(e) => {
            assert(globs@.map_values(|g: Glob| glob_text(g)) =~= pattern_texts(patterns@));
            let detail = glob_error_text(&e);
            let msg = concat("Failed to build glob matcher: ", detail.as_str());
            let r = coded(E_RULE_INVALID_GLOB, msg.as_str());
            assert(r@ =~= coded_text(E_RULE_INVALID_GLOB@, "Failed to build glob matcher: "@)
                + detail@);
            Err(r)
        },
    }
}

} // verus!
