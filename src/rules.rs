//! The layered include/exclude decision.
use crate::globs::{any_glob_matches, compile_globset, globs_compile, pattern_texts, GlobMatcher};
use crate::models::{ExportConfig, ManualSelectionState};
use crate::pathing::normalize_key;
use crate::pathing::normal_key;
use crate::text::{chars_of, concat, has_prefix, has_suffix, lower_of, lowercase, string_of, trim, trim_chars};
use ignore::gitignore::Gitignore;
use vstd::prelude::*;

verus! {

#[verifier::external_type_specification]
#[verifier::external_body]
pub struct ExGitignore(ignore::gitignore::Gitignore);

/// A path that the gitignore matcher takes as lying under its root: no
/// backslash, no leading slash and no empty component (so stripping the
/// root leaves no leading separator behind, on any platform).
pub open spec fn matcher_safe(p: Seq<char>) -> bool {
    &&& !p.contains('\\')
    &&& (p.len() == 0 || p[0] != '/')
    &&& forall|i: int| 0 <= i < p.len() - 1 ==> !(p[i] == '/' && #[trigger] p[i + 1] == '/')
}

/// Relies on ignore's Gitignore::matched_path_or_any_parents, which panics on
/// a path that keeps a root once the matcher's root is stripped; what it
/// answers depends on the .gitignore files read when the matcher was built.
#[verifier::external_body]
fn gitignore_ignores(matcher: &Gitignore, path: &str, is_dir: bool) -> bool
    requires
        matcher_safe(path@),
{
    matcher.matched_path_or_any_parents(path, is_dir).is_ignore()
}

/// The verdict on a path.
#[derive(Clone, Copy, Debug, PartialEq, Eq, Structural)]
pub enum Decision {
    Include,
    Exclude,
}

/// What the rules of one request are, as values.
pub struct RulesView {
    pub include_globs: Seq<Seq<char>>,
    pub exclude_globs: Seq<Seq<char>>,
    pub include_ext: Seq<Seq<char>>,
    pub exclude_ext: Seq<Seq<char>>,
    pub manual: Seq<(Seq<char>, ManualSelectionState)>,
    pub gitignore_on: bool,
}

/// `.git` and everything below it.
pub open spec fn hard_excluded(p: Seq<char>) -> bool {
    let k = normal_key(p);
    k == seq!['.', 'g', 'i', 't'] || seq!['.', 'g', 'i', 't', '/'].is_prefix_of(k)
}

/// A manual key applies to a path equal to it or below it.
pub open spec fn key_covers(key: Seq<char>, path: Seq<char>) -> bool {
    key == path || (key.is_prefix_of(path) && path.len() > key.len() && path[key.len() as int] == '/')
}

/// The key length of a lookup result (0 when there is none).
pub open spec fn best_len(b: Option<(nat, ManualSelectionState)>) -> nat {
    match b {
        Some(x) => x.0,
        None => 0,
    }
}

/// The longest manual key covering `path` with its state (the later entry
/// among equal keys).
pub open spec fn manual_best(m: Seq<(Seq<char>, ManualSelectionState)>, path: Seq<char>) -> Option<
    (nat, ManualSelectionState),
>
    decreases m.len(),
{
    if m.len() == 0 {
        None
    } else {
        let prev = manual_best(m.drop_last(), path);
        let e = m.last();
        if key_covers(e.0, path) && (prev is None || e.0.len() >= best_len(prev)) {
            Some((e.0.len(), e.1))
        } else {
            prev
        }
    }
}

/// The manual state that governs `path`, if any key covers it.
pub open spec fn manual_state(m: Seq<(Seq<char>, ManualSelectionState)>, path: Seq<char>) -> Option<
    ManualSelectionState,
> {
    match manual_best(m, path) {
        Some(b) => Some(b.1),
        None => None,
    }
}

/// Some extension is a suffix of `s`.
pub open spec fn any_suffix(exts: Seq<Seq<char>>, s: Seq<char>) -> bool {
    exists|i: int| 0 <= i < exts.len() && #[trigger] exts[i].is_suffix_of(s)
}

/// The tiers before the gitignore one: `Some` verdict where one of them
/// decides, `None` where the path falls through to the gitignore tier.
pub open spec fn pre_decision(r: RulesView, rel: Seq<char>, is_dir: bool) -> Option<Decision> {
    if hard_excluded(rel) {
        Some(Decision::Exclude)
    } else if manual_state(r.manual, normal_key(rel)) == Some(ManualSelectionState::Include) {
        Some(Decision::Include)
    } else if manual_state(r.manual, normal_key(rel)) == Some(ManualSelectionState::Exclude) {
        Some(Decision::Exclude)
    } else {
        let glob_on = r.include_globs.len() > 0;
        let glob_hit = any_glob_matches(r.include_globs, rel);
        let ext_on = !is_dir && r.include_ext.len() > 0;
        let ext_hit = any_suffix(r.include_ext, lower_of(rel));
        if glob_on && !glob_hit {
            Some(Decision::Exclude)
        } else if ext_on && !ext_hit {
            Some(Decision::Exclude)
        } else if glob_on || ext_on {
            Some(Decision::Include)
        } else if !is_dir && any_suffix(r.exclude_ext, lower_of(rel)) {
            Some(Decision::Exclude)
        } else if any_glob_matches(r.exclude_globs, rel) {
            Some(Decision::Exclude)
        } else {
            None
        }
    }
}

/// The verdict on `rel`, where `ignored` is what the gitignore matcher says.
pub open spec fn decide(r: RulesView, rel: Seq<char>, is_dir: bool, ignored: bool) -> Decision {
    match pre_decision(r, rel, is_dir) {
        Some(d) => d,
        None => if r.gitignore_on && ignored {
            Decision::Exclude
        } else {
            Decision::Include
        },
    }
}

/// A verdict that `should_include` may give: the one for some answer of the
/// gitignore matcher.
pub open spec fn may_decide(r: RulesView, rel: Seq<char>, is_dir: bool, d: Decision) -> bool {
    exists|g: bool| d == #[trigger] decide(r, rel, is_dir, g)
}

/// A normalised extension: lowercase, with a leading dot.
pub open spec fn norm_ext(s: Seq<char>) -> Seq<char> {
    let l = lower_of(trim(s));
    if l.len() > 0 && l[0] == '.' {
        l
    } else {
        seq!['.'] + l
    }
}

/// The normalised extensions, blank ones dropped.
pub open spec fn norm_exts(items: Seq<String>) -> Seq<Seq<char>>
    decreases items.len(),
{
    if items.len() == 0 {
        Seq::empty()
    } else {
        let prev = norm_exts(items.drop_last());
        if lower_of(trim(items.last()@)).len() == 0 {
            prev
        } else {
            prev.push(norm_ext(items.last()@))
        }
    }
}

/// Manual selections with normalised keys.
pub open spec fn norm_manual(items: Seq<(String, ManualSelectionState)>) -> Seq<
    (Seq<char>, ManualSelectionState),
> {
    items.map_values(|e: (String, ManualSelectionState)| (normal_key(e.0@), e.1))
}

/// The rules that a configuration describes, given whether a gitignore
/// matcher was found.
pub open spec fn rules_of(config: ExportConfig, has_matcher: bool) -> RulesView {
    RulesView {
        include_globs: pattern_texts(config.include_globs@),
        exclude_globs: pattern_texts(config.exclude_globs@),
        include_ext: norm_exts(config.include_extensions@),
        exclude_ext: norm_exts(config.exclude_extensions@),
        manual: norm_manual(config.manual_selections@),
        gitignore_on: config.use_gitignore && has_matcher,
    }
}

/// Whether a path is the VCS metadata directory or lies below it.
pub fn is_hard_excluded(rel_path: &str) -> (r: bool)
    ensures
        r == hard_excluded(rel_path@),
{
    let k = chars_of(normalize_key(rel_path).as_str());
    let git: Vec<char> = vec!['.', 'g', 'i', 't'];
    let git_dir: Vec<char> = vec!['.', 'g', 'i', 't', '/'];
    let exact = k.len() == 4 && has_prefix(&k, &git);
    assert(exact ==> k@ =~= seq!['.', 'g', 'i', 't']);
    assert(k@ == seq!['.', 'g', 'i', 't'] ==> git@.is_prefix_of(k@));
    exact || has_prefix(&k, &git_dir)
}

/// Manual selections with their keys normalised.
pub fn normalize_manual_selections(source: &Vec<(String, ManualSelectionState)>) -> (r: Vec<
    (String, ManualSelectionState),
>)
    ensures
        r@.map_values(|e: (String, ManualSelectionState)| (e.0@, e.1)) == norm_manual(source@),
{
    let mut out: Vec<(String, ManualSelectionState)> = Vec::new();
    let mut i: usize = 0;
    while i < source.len()
        invariant
            i <= source.len(),
            out.len() == i,
            forall|k: int|
                0 <= k < i ==> (#[trigger] out@[k]).0@ == normal_key(source@[k].0@) && out@[k].1
                    == source@[k].1,
        decreases source.len() - i,
    {
        let key = normalize_key(source[i].0.as_str());
        out.push((key, source[i].1));
        i = i + 1;
    }
    assert(out@.map_values(|e: (String, ManualSelectionState)| (e.0@, e.1)) =~= norm_manual(
        source@,
    ));
    out
}

/// Extensions trimmed, lowercased and dotted; blank ones dropped.
pub fn normalize_extensions(items: &Vec<String>) -> (r: Vec<String>)
    ensures
        r@.map_values(|s: String| s@) == norm_exts(items@),
{
    let mut out: Vec<String> = Vec::new();
    let mut i: usize = 0;
    while i < items.len()
        invariant
            i <= items.len(),
            out@.map_values(|s: String| s@) == norm_exts(items@.subrange(0, i as int)),
        decreases items.len() - i,
    {
        let t = string_of(&trim_chars(items[i].as_str()));
        let lower = lowercase(t.as_str());
        let lc = chars_of(lower.as_str());
        let ghost pre = items@.subrange(0, i as int);
        let ghost next = items@.subrange(0, i + 1);
        assert(next.drop_last() =~= pre);
        assert(next.last() == items@[i as int]);
        assert(lc@ == lower_of(trim(items@[i as int]@)));
        if lc.len() > 0 {
            assert(norm_exts(next) == norm_exts(pre).push(norm_ext(items@[i as int]@)));
            if lc[0] == '.' {
                out.push(lower);
            } else {
                let dotted = concat(".", lower.as_str());
                proof {
                    reveal_strlit(".");
                    assert(dotted@ =~= seq!['.'] + lower@);
                }
                out.push(dotted);
            }
        }
        i = i + 1;
        assert(out@.map_values(|s: String| s@) =~= norm_exts(items@.subrange(0, i as int)));
    }
    assert(items@.subrange(0, items.len() as int) =~= items@);
    out
}

fn any_suffix_of(exts: &Vec<String>, s: &Vec<char>) -> (r: bool)
    ensures
        r == any_suffix(exts@.map_values(|e: String| e@), s@),
{
    let ghost views = exts@.map_values(|e: String| e@);
    let mut i: usize = 0;
    while i < exts.len()
        invariant
            i <= exts.len(),
            views == exts@.map_values(|e: String| e@),
            forall|k: int| 0 <= k < i ==> !(#[trigger] views[k]).is_suffix_of(s@),
        decreases exts.len() - i,
    {
        if has_suffix(s, &chars_of(exts[i].as_str())) {
            assert(views[i as int].is_suffix_of(s@));
            return true;
        }
        i = i + 1;
    }
    false
}

/// A path with backslashes turned into slashes and leading and repeated
/// slashes dropped, for the gitignore matcher.
fn matcher_path(rel: &str) -> (r: String)
    ensures
        matcher_safe(r@),
        matcher_safe(rel@) ==> r@ == rel@,
{
    let cs = chars_of(rel);
    let mut out: Vec<char> = Vec::new();
    let mut i: usize = 0;
    while i < cs.len()
        invariant
            i <= cs.len(),
            matcher_safe(out@),
            matcher_safe(cs@) ==> out@ == cs@.subrange(0, i as int),
        decreases cs.len() - i,
    {
        let c = if cs[i] == '\\' { '/' } else { cs[i] };
        let skip = c == '/' && (out.len() == 0 || out[out.len() - 1] == '/');
        proof {
            if matcher_safe(cs@) {
                assert(cs@[i as int] != '\\');
            }
        }
        if !skip {
            out.push(c);
            proof {
                if out@.contains('\\') {
                    let k = choose|k: int| 0 <= k < out@.len() && out@[k] == '\\';
                    assert(k < out@.len() - 1);
                }
            }
        } else {
            proof {
                if matcher_safe(cs@) {
                    if i > 0 {
                        assert(out@[out.len() - 1] == cs@[i - 1]);
                        assert(!(cs@[i - 1] == '/' && cs@[(i - 1) + 1] == '/'));
                    }
                }
            }
        }
        i = i + 1;
        assert(matcher_safe(cs@) ==> out@ =~= cs@.subrange(0, i as int));
    }
    assert(cs@.subrange(0, cs.len() as int) =~= cs@);
    string_of(&out)
}

/// The matcher for `.gitignore` files found under a root, with the warnings
/// raised while reading them.
pub struct GitignoreSet {
    pub matcher: Option<Gitignore>,
    pub warnings: Vec<String>,
}

/// The rule engine of one request.
pub struct RuleEngine {
    include_globs: Option<GlobMatcher>,
    exclude_globs: Option<GlobMatcher>,
    include_ext: Vec<String>,
    exclude_ext: Vec<String>,
    manual: Vec<(String, ManualSelectionState)>,
    gitignore: Option<Gitignore>,
    use_gitignore: bool,
    warnings: Vec<String>,
}

impl RuleEngine {
    pub closed spec fn rules(&self) -> RulesView {
        RulesView {
            include_globs: match self.include_globs {
                Some(m) => m.patterns(),
                None => Seq::empty(),
            },
            exclude_globs: match self.exclude_globs {
                Some(m) => m.patterns(),
                None => Seq::empty(),
            },
            include_ext: self.include_ext@.map_values(|e: String| e@),
            exclude_ext: self.exclude_ext@.map_values(|e: String| e@),
            manual: self.manual@.map_values(|e: (String, ManualSelectionState)| (e.0@, e.1)),
            gitignore_on: self.use_gitignore && self.gitignore is Some,
        }
    }

    pub closed spec fn wf(&self) -> bool {
        &&& (self.include_globs matches Some(m) ==> m.wf() && m.patterns().len() > 0)
        &&& (self.exclude_globs matches Some(m) ==> m.wf() && m.patterns().len() > 0)
    }

    pub closed spec fn warnings_view(&self) -> Seq<String> {
        self.warnings@
    }

    /// Builds the engine: compiles the globs (`[E_RULE_INVALID_GLOB]` on a
    /// pattern that does not parse), normalises extensions and manual keys,
    /// and keeps the gitignore matcher and its warnings when the config asks
    /// for them.
    pub fn from_config(config: &ExportConfig, gitignore: GitignoreSet) -> (r: Result<RuleEngine, String>)
        ensures
            r matches Ok(e) ==> e.wf() && e.rules() == rules_of(*config, gitignore.matcher is Some)
                && e.warnings_view() == (if config.use_gitignore {
                gitignore.warnings@
            } else {
                Seq::<String>::empty()
            }),
            r is Ok <==> globs_compile(config.include_globs@) && globs_compile(config.exclude_globs@),
            (exists|i: int|
                0 <= i < config.include_globs.len() && !crate::globs::glob_parses(
                    #[trigger] config.include_globs@[i]@,
                )) ==> r is Err,
            (exists|i: int|
                0 <= i < config.exclude_globs.len() && !crate::globs::glob_parses(
                    #[trigger] config.exclude_globs@[i]@,
                )) ==> r is Err,
            r is Err ==> crate::errors::coded_text(
                crate::errors::E_RULE_INVALID_GLOB@,
                Seq::empty(),
            ).is_prefix_of(r->Err_0@),
    {
        let include_globs = compile_globset(&config.include_globs)?;
        let exclude_globs = compile_globset(&config.exclude_globs)?;
        let include_ext = normalize_extensions(&config.include_extensions);
        let exclude_ext = normalize_extensions(&config.exclude_extensions);
        let manual = normalize_manual_selections(&config.manual_selections);
        let (matcher, warnings) = if config.use_gitignore {
            (gitignore.matcher, gitignore.warnings)
        } else {
            (None, Vec::new())
        };
        let e = RuleEngine {
            include_globs,
            exclude_globs,
            include_ext,
            exclude_ext,
            manual,
            gitignore: matcher,
            use_gitignore: config.use_gitignore,
            warnings,
        };
        assert(e.rules().include_globs =~= pattern_texts(config.include_globs@));
        assert(e.rules().exclude_globs =~= pattern_texts(config.exclude_globs@));
        assert(e.warnings_view() =~= (if config.use_gitignore {
            gitignore.warnings@
        } else {
            Seq::<String>::empty()
        }));
        Ok(e)
    }

    /// Warnings raised while the gitignore matcher was built.
    pub fn warnings(&self) -> (r: &Vec<String>)
        ensures
            r@ == self.warnings_view(),
    {
        &self.warnings
    }

    /// The manual state of the longest key covering the normalised path.
    fn manual_state_for(&self, rel_path: &str) -> (r: Option<ManualSelectionState>)
        ensures
            r == manual_state(self.rules().manual, normal_key(rel_path@)),
    {
        let key = chars_of(normalize_key(rel_path).as_str());
        let ghost m = self.rules().manual;
        let mut best: Option<(usize, ManualSelectionState)> = None;
        let mut i: usize = 0;
        while i < self.manual.len()
            invariant
                i <= self.manual.len(),
                m == self.rules().manual,
                m.len() == self.manual.len(),
                match manual_best(m.subrange(0, i as int), key@) {
                    Some(b) => best matches Some(x) && x.0 == b.0 && x.1 == b.1,
                    None => best is None,
                },
            decreases self.manual.len() - i,
        {
            let mk = chars_of(self.manual[i].0.as_str());
            let pre = has_prefix(&key, &mk);
            let covers = if mk.len() == key.len() {
                pre
            } else {
                mk.len() < key.len() && has_prefix(&key, &mk) && key[mk.len()] == '/'
            };
            proof {
                let e = m[i as int];
                assert(e.0 == mk@);
                if mk.len() == key.len() && pre {
                    assert(mk@ =~= key@);
                }
                assert(covers == key_covers(e.0, key@));
                assert(m.subrange(0, i + 1).drop_last() =~= m.subrange(0, i as int));
            }
            let better = match best {
                None => true,
                Some(b) => mk.len() >= b.0,
            };
            if covers && better {
                best = Some((mk.len(), self.manual[i].1));
            }
            i = i + 1;
        }
        assert(m.subrange(0, m.len() as int) =~= m);
        match best {
            Some(b) => Some(b.1),
            None => None,
        }
    }

    fn pre_decide(&self, rel_path: &str, is_dir: bool) -> (r: Option<Decision>)
        requires
            self.wf(),
        ensures
            r == pre_decision(self.rules(), rel_path@, is_dir),
    {
        if is_hard_excluded(rel_path) {
            return Some(Decision::Exclude);
        }
        match self.manual_state_for(rel_path) {
            Some(ManualSelectionState::Include) => {
                return Some(Decision::Include);
            },
            Some(ManualSelectionState::Exclude) => {
                return Some(Decision::Exclude);
            },
            _ => {},
        }
        let glob_on = self.include_globs.is_some();
        let glob_hit = match &self.include_globs {
            Some(m) => m.is_match(rel_path),
            None => false,
        };
        let lower = chars_of(lowercase(rel_path).as_str());
        let ext_on = !is_dir && self.include_ext.len() > 0;
        let ext_hit = ext_on && any_suffix_of(&self.include_ext, &lower);
        if glob_on && !glob_hit {
            return Some(Decision::Exclude);
        }
        if ext_on && !ext_hit {
            return Some(Decision::Exclude);
        }
        if glob_on || ext_on {
            return Some(Decision::Include);
        }
        if !is_dir && any_suffix_of(&self.exclude_ext, &lower) {
            return Some(Decision::Exclude);
        }
        let ex_hit = match &self.exclude_globs {
            Some(m) => m.is_match(rel_path),
            None => false,
        };
        if ex_hit {
            return Some(Decision::Exclude);
        }
        None
    }

    /// Whether the gitignore matcher, when in use, ignores the path (or one
    /// of its parent directories).
    pub fn gitignored(&self, rel_path: &str, is_dir: bool) -> (r: bool)
        ensures
            !self.rules().gitignore_on ==> !r,
    {
        match &self.gitignore {
            Some(gi) => {
                if self.use_gitignore {
                    let p = matcher_path(rel_path);
                    gitignore_ignores(gi, p.as_str(), is_dir)
                } else {
                    false
                }
            },
            None => false,
        }
    }

    /// The verdict on a path relative to the root: the first tier that
    /// resolves wins (hard exclude, manual, include globs, include
    /// extensions, exclude extensions, exclude globs, gitignore, include).
    pub fn should_include(&self, rel_path: &str, is_dir: bool) -> (r: Decision)
        requires
            self.wf(),
        ensures
            may_decide(self.rules(), rel_path@, is_dir, r),
            !self.rules().gitignore_on ==> r == decide(self.rules(), rel_path@, is_dir, false),
    {
        match self.pre_decide(rel_path, is_dir) {
            Some(d) => {
                assert(d == decide(self.rules(), rel_path@, is_dir, false));
                d
            },
            None => {
                let ignored = match &self.gitignore {
                    Some(gi) => {
                        if self.use_gitignore {
                            let p = matcher_path(rel_path);
                            gitignore_ignores(gi, p.as_str(), is_dir)
                        } else {
                            false
                        }
                    },
                    None => false,
                };
                let d = if ignored {
                    Decision::Exclude
                } else {
                    Decision::Include
                };
                assert(d == decide(self.rules(), rel_path@, is_dir, ignored));
                assert(!self.rules().gitignore_on ==> d == decide(self.rules(), rel_path@, is_dir, false));
                d
            },
        }
    }
}

/// Whatever other rules say, the VCS metadata directory and everything below
/// it is excluded; a manual `Include` does not change that.
pub proof fn lemma_hard_exclude_wins(r: RulesView, p: Seq<char>, is_dir: bool, ignored: bool)
    requires
        hard_excluded(p),
    ensures
        decide(r, p, is_dir, ignored) == Decision::Exclude,
{
}

/// A manual `Exclude` covering a path excludes it, even where include rules
/// match it.
pub proof fn lemma_manual_exclude_beats_include(
    r: RulesView,
    p: Seq<char>,
    is_dir: bool,
    ignored: bool,
)
    requires
        manual_state(r.manual, normal_key(p)) == Some(ManualSelectionState::Exclude),
    ensures
        decide(r, p, is_dir, ignored) == Decision::Exclude,
{
}

/// A manual `Include` covering a path includes it whatever the globs,
/// extensions and gitignore say, unless the path is hard-excluded.
pub proof fn lemma_manual_include_beats_rules(
    r: RulesView,
    p: Seq<char>,
    is_dir: bool,
    ignored: bool,
)
    requires
        !hard_excluded(p),
        manual_state(r.manual, normal_key(p)) == Some(ManualSelectionState::Include),
    ensures
        decide(r, p, is_dir, ignored) == Decision::Include,
{
}

/// Where no manual choice applies, a file that every active include rule
/// matches is included, whatever the exclude extensions, exclude globs and
/// gitignore say.
pub proof fn lemma_include_rules_beat_excludes(
    r: RulesView,
    p: Seq<char>,
    ignored: bool,
)
    requires
        !hard_excluded(p),
        manual_state(r.manual, normal_key(p)) is None || manual_state(r.manual, normal_key(p))
            == Some(ManualSelectionState::Inherit),
        r.include_globs.len() > 0 || r.include_ext.len() > 0,
        r.include_globs.len() > 0 ==> any_glob_matches(r.include_globs, p),
        r.include_ext.len() > 0 ==> any_suffix(r.include_ext, lower_of(p)),
    ensures
        decide(r, p, false, ignored) == Decision::Include,
{
}

} // verus!
