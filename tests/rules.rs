use ignore::gitignore::{Gitignore, GitignoreBuilder};
use workspace_export::models::{ExportConfig, LargeFileStrategy, ManualSelectionState, OutputFormat};
use workspace_export::rules::{
    is_hard_excluded, normalize_extensions, normalize_manual_selections, Decision, GitignoreSet,
    RuleEngine,
};
use workspace_export::pathing::normalize_key;

fn config() -> ExportConfig {
    ExportConfig {
        root_path: "/work".to_string(),
        use_gitignore: false,
        include_globs: vec![],
        exclude_globs: vec![],
        include_extensions: vec![],
        exclude_extensions: vec![],
        max_file_size_kb: 256,
        large_file_strategy: LargeFileStrategy::Truncate,
        manual_selections: vec![],
        output_format: OutputFormat::Txt,
    }
}

fn matcher(lines: &[&str]) -> Gitignore {
    let mut b = GitignoreBuilder::new("/work");
    for line in lines {
        b.add_line(None, line).unwrap();
    }
    b.build().unwrap()
}

fn no_gitignore() -> GitignoreSet {
    GitignoreSet { matcher: None, warnings: vec![] }
}

fn engine(config: &ExportConfig, gitignore: GitignoreSet) -> RuleEngine {
    RuleEngine::from_config(config, gitignore).unwrap()
}

#[test]
fn default_rules_include_everything_but_git() {
    let e = engine(&config(), no_gitignore());
    assert_eq!(e.should_include("src/main.rs", false), Decision::Include);
    assert_eq!(e.should_include("src", true), Decision::Include);
    assert_eq!(e.should_include(".git", true), Decision::Exclude);
    assert_eq!(e.should_include(".git/config", false), Decision::Exclude);
    assert_eq!(e.should_include(".github/workflows/ci.yml", false), Decision::Include);
}

#[test]
fn hard_exclude_uses_normalised_key() {
    assert!(is_hard_excluded(".git"));
    assert!(is_hard_excluded("./.git/"));
    assert!(is_hard_excluded("  .git\\objects\\ab "));
    assert!(!is_hard_excluded(".gitignore"));
    assert!(!is_hard_excluded("a/.git"));
}

#[test]
fn manual_include_on_git_config_does_not_include_it() {
    let mut c = config();
    c.manual_selections.push((".git/config".to_string(), ManualSelectionState::Include));
    c.manual_selections.push((".git".to_string(), ManualSelectionState::Include));
    let e = engine(&c, no_gitignore());
    assert_eq!(e.should_include(".git/config", false), Decision::Exclude);
    assert_eq!(e.should_include(".git", true), Decision::Exclude);
}

#[test]
fn include_glob_wins_over_exclude_extension_and_gitignore() {
    let mut c = config();
    c.use_gitignore = true;
    c.include_globs = vec!["*.ts".to_string()];
    c.exclude_extensions = vec![".ts".to_string()];
    let e = engine(&c, GitignoreSet { matcher: Some(matcher(&["*.ts"])), warnings: vec![] });
    assert_eq!(e.should_include("kept.ts", false), Decision::Include);
    assert!(e.gitignored("kept.ts", false));
    assert_eq!(e.should_include("other.js", false), Decision::Exclude);
}

#[test]
fn include_extension_wins_over_exclude_extension_and_gitignore() {
    let mut c = config();
    c.use_gitignore = true;
    c.include_extensions = vec![".ts".to_string()];
    c.exclude_extensions = vec![".ts".to_string()];
    let e = engine(&c, GitignoreSet { matcher: Some(matcher(&["kept.ts"])), warnings: vec![] });
    assert_eq!(e.should_include("kept.ts", false), Decision::Include);
    assert_eq!(e.should_include("KEPT.TS", false), Decision::Include);
    assert_eq!(e.should_include("notes.md", false), Decision::Exclude);
    assert_eq!(e.should_include("dir", true), Decision::Include);
}

#[test]
fn manual_exclude_beats_include_glob() {
    let mut c = config();
    c.include_globs = vec!["*.ts".to_string()];
    c.include_extensions = vec![".ts".to_string()];
    c.manual_selections.push(("file.ts".to_string(), ManualSelectionState::Exclude));
    let e = engine(&c, no_gitignore());
    assert_eq!(e.should_include("file.ts", false), Decision::Exclude);
    assert_eq!(e.should_include("other.ts", false), Decision::Include);
}

#[test]
fn manual_longest_key_wins_on_slash_boundaries() {
    let mut c = config();
    c.manual_selections.push(("src".to_string(), ManualSelectionState::Exclude));
    c.manual_selections.push(("./src/keep/".to_string(), ManualSelectionState::Include));
    c.manual_selections.push(("src\\keep\\inherit".to_string(), ManualSelectionState::Inherit));
    c.exclude_globs = vec!["**/*.log".to_string()];
    let e = engine(&c, no_gitignore());
    assert_eq!(e.should_include("src/a.rs", false), Decision::Exclude);
    assert_eq!(e.should_include("src", true), Decision::Exclude);
    assert_eq!(e.should_include("src/keep/a.log", false), Decision::Include);
    assert_eq!(e.should_include("src/keep/inherit/a.log", false), Decision::Exclude);
    assert_eq!(e.should_include("src/keep/inherit/a.rs", false), Decision::Include);
    assert_eq!(e.should_include("srcx/a.rs", false), Decision::Include);
}

#[test]
fn later_duplicate_manual_key_wins() {
    let mut c = config();
    c.manual_selections.push(("a.txt".to_string(), ManualSelectionState::Exclude));
    c.manual_selections.push(("./a.txt".to_string(), ManualSelectionState::Include));
    let e = engine(&c, no_gitignore());
    assert_eq!(e.should_include("a.txt", false), Decision::Include);
}

#[test]
fn exclude_rules_apply_without_include_rules() {
    let mut c = config();
    c.exclude_extensions = vec!["LOG".to_string(), "  ".to_string()];
    c.exclude_globs = vec!["target/**".to_string(), "target".to_string()];
    let e = engine(&c, no_gitignore());
    assert_eq!(e.should_include("debug.log", false), Decision::Exclude);
    assert_eq!(e.should_include("logs", true), Decision::Include);
    assert_eq!(e.should_include("target", true), Decision::Exclude);
    assert_eq!(e.should_include("target/x.o", false), Decision::Exclude);
    assert_eq!(e.should_include("src/lib.rs", false), Decision::Include);
}

#[test]
fn gitignore_is_weakest_and_only_when_enabled() {
    let mut c = config();
    c.use_gitignore = true;
    let gi = || GitignoreSet { matcher: Some(matcher(&["ignored.txt", "ignored_dir/"])), warnings: vec!["w".to_string()] };
    let e = engine(&c, gi());
    assert_eq!(e.should_include("ignored.txt", false), Decision::Exclude);
    assert_eq!(e.should_include("ignored_dir", true), Decision::Exclude);
    assert_eq!(e.should_include("ignored_dir/a.rs", false), Decision::Exclude);
    assert_eq!(e.should_include("normal.txt", false), Decision::Include);
    assert_eq!(e.warnings().len(), 1);
    c.manual_selections.push(("ignored.txt".to_string(), ManualSelectionState::Include));
    let e = engine(&c, gi());
    assert_eq!(e.should_include("ignored.txt", false), Decision::Include);
    c.use_gitignore = false;
    let e = engine(&c, gi());
    assert_eq!(e.should_include("ignored_dir/a.rs", false), Decision::Include);
    assert!(!e.gitignored("ignored.txt", false));
    assert_eq!(e.warnings().len(), 0);
}

#[test]
fn gitignore_matcher_tolerates_untidy_paths() {
    let mut c = config();
    c.use_gitignore = true;
    let e = engine(&c, GitignoreSet { matcher: Some(matcher(&["ignored.txt"])), warnings: vec![] });
    assert_eq!(e.should_include("/ignored.txt", false), Decision::Exclude);
    assert_eq!(e.should_include("a//ignored.txt", false), Decision::Exclude);
}

#[test]
fn invalid_glob_is_rejected_with_code() {
    let mut c = config();
    c.include_globs = vec!["ok/*.rs".to_string(), "a[".to_string()];
    let err = RuleEngine::from_config(&c, no_gitignore()).err().unwrap();
    assert!(err.starts_with("[E_RULE_INVALID_GLOB] Invalid glob 'a[': "));
    let mut c = config();
    c.exclude_globs = vec!["{a,b".to_string()];
    let err = RuleEngine::from_config(&c, no_gitignore()).err().unwrap();
    assert!(err.contains("E_RULE_INVALID_GLOB"));
}

#[test]
fn extensions_are_trimmed_lowercased_and_dotted() {
    let items = vec![" TS ".to_string(), ".Md".to_string(), "   ".to_string(), "".to_string(), "ÄB".to_string()];
    assert_eq!(normalize_extensions(&items), vec![".ts".to_string(), ".md".to_string(), ".äb".to_string()]);
}

#[test]
fn manual_keys_are_normalised() {
    let src = vec![(" ./src\\lib/ ".to_string(), ManualSelectionState::Include), ("///a//".to_string(), ManualSelectionState::Exclude)];
    let out = normalize_manual_selections(&src);
    assert_eq!(out[0].0, "src/lib");
    assert_eq!(out[0].1, ManualSelectionState::Include);
    assert_eq!(out[1].0, "a");
    assert_eq!(normalize_key("\t././a\\b\n"), "a/b");
    assert_eq!(normalize_key("./"), "");
}

#[test]
fn unicode_white_space_is_trimmed() {
    assert_eq!(normalize_key("\u{00A0}\u{3000}./src\u{2009}"), "src");
    assert_eq!(normalize_key("\u{200B}a"), "\u{200B}a");
}
