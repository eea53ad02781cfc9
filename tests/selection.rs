use ignore::gitignore::GitignoreBuilder;
use workspace_export::models::{ExportConfig, LargeFileStrategy, ManualSelectionState, OutputFormat, ScanLimits};
use workspace_export::rules::{GitignoreSet, RuleEngine};
use workspace_export::selection::{SelectionRun, SelectionWalk, WalkEntry, WalkStep};

fn config() -> ExportConfig {
    ExportConfig {
        root_path: "/root".to_string(),
        use_gitignore: false,
        include_globs: vec![],
        exclude_globs: vec![],
        include_extensions: vec![],
        exclude_extensions: vec![],
        max_file_size_kb: 1024,
        large_file_strategy: LargeFileStrategy::Truncate,
        manual_selections: vec![],
        output_format: OutputFormat::Txt,
    }
}

fn gitignore(lines: &[&str]) -> GitignoreSet {
    let mut b = GitignoreBuilder::new("/root");
    for line in lines {
        b.add_line(None, line).unwrap();
    }
    GitignoreSet { matcher: Some(b.build().unwrap()), warnings: vec![] }
}

fn dir(path: &str, depth: usize, has_children: bool) -> WalkEntry {
    WalkEntry { abs_path: format!("/root{}", path), is_dir: true, depth, has_children, size: 0 }
}

fn file(path: &str, depth: usize, size: u64) -> WalkEntry {
    WalkEntry { abs_path: format!("/root/{}", path), is_dir: false, depth, has_children: false, size }
}

/// Feeds entries in walk order, honouring SkipDir by leaving out the
/// entries below a skipped directory, and stopping on Stop.
fn walk(config: &ExportConfig, gi: GitignoreSet, limits: ScanLimits, entries: Vec<WalkEntry>) -> SelectionRun {
    let engine = RuleEngine::from_config(config, gi).unwrap();
    let mut w = SelectionWalk::new("/root".to_string(), engine, limits);
    let mut skipped: Option<String> = None;
    for e in entries.iter() {
        if let Some(s) = &skipped {
            if e.abs_path.starts_with(&format!("{}/", s)) {
                continue;
            }
            skipped = None;
        }
        match w.visit(e).unwrap() {
            WalkStep::Continue => {}
            WalkStep::SkipDir => skipped = Some(e.abs_path.clone()),
            WalkStep::Stop => break,
        }
    }
    w.finish()
}

fn rels(run: &SelectionRun) -> Vec<&str> {
    run.files.iter().map(|f| f.rel_path.as_str()).collect()
}

#[test]
fn manual_include_overrides_gitignore_but_not_hard_exclude() {
    let mut c = config();
    c.use_gitignore = true;
    c.manual_selections.push(("ignored.txt".to_string(), ManualSelectionState::Include));
    c.manual_selections.push((".git/config".to_string(), ManualSelectionState::Include));
    let entries = vec![
        dir("", 0, true),
        dir("/.git", 1, true),
        file(".git/config", 2, 8),
        file(".gitignore", 1, 12),
        file("ignored.txt", 1, 5),
    ];
    let run = walk(&c, gitignore(&["ignored.txt"]), ScanLimits::default(), entries);
    assert!(run.files.iter().any(|item| item.rel_path == "ignored.txt"));
    assert!(!run.files.iter().any(|item| item.rel_path.starts_with(".git/")));
}

#[test]
fn include_rules_override_exclude_and_gitignore_when_manual_is_inherit() {
    let mut c = config();
    c.use_gitignore = true;
    c.include_globs = vec!["*.txt".to_string()];
    c.exclude_globs = vec!["blocked.txt".to_string()];
    c.manual_selections.push(("ignored.txt".to_string(), ManualSelectionState::Inherit));
    c.manual_selections.push(("blocked.txt".to_string(), ManualSelectionState::Inherit));
    let entries = vec![
        dir("", 0, true),
        file(".gitignore", 1, 12),
        file("allowed.txt", 1, 7),
        file("blocked.txt", 1, 7),
        file("ignored.txt", 1, 7),
    ];
    let run = walk(&c, gitignore(&["ignored.txt"]), ScanLimits::default(), entries);
    assert_eq!(rels(&run), vec!["allowed.txt", "blocked.txt", "ignored.txt"]);
    assert_eq!(run.excluded_files, 1);
}

#[test]
fn emits_max_files_warning_when_limit_is_hit() {
    let entries = vec![dir("", 0, true), file("a.txt", 1, 1), file("b.txt", 1, 1), file("c.txt", 1, 1)];
    let limits = ScanLimits { max_files: 2, max_depth: 64 };
    let run = walk(&config(), GitignoreSet { matcher: None, warnings: vec![] }, limits, entries);
    assert_eq!(run.included_files + run.excluded_files, 2);
    assert!(run.warnings.iter().any(|warning| warning.contains("Reached maxFiles limit")));
    assert_eq!(run.warnings, vec!["Reached maxFiles limit (2). Remaining files were skipped.".to_string()]);
}

#[test]
fn emits_max_depth_warning_when_deeper_directories_exist() {
    let entries = vec![dir("", 0, true), dir("/level1", 1, true), dir("/level1/level2", 2, true), file("level1/level2/deep.txt", 3, 4)];
    let limits = ScanLimits { max_files: 100000, max_depth: 1 };
    let run = walk(&config(), GitignoreSet { matcher: None, warnings: vec![] }, limits, entries);
    assert_eq!(run.included_files, 0);
    assert!(run.warnings.iter().any(|warning| warning.contains("Reached maxDepth limit")));
    assert_eq!(run.warnings.len(), 1);
}

#[test]
fn zero_depth_selects_nothing_and_warns() {
    let engine = RuleEngine::from_config(&config(), GitignoreSet { matcher: None, warnings: vec![] }).unwrap();
    let mut w = SelectionWalk::new("/root".to_string(), engine, ScanLimits { max_files: 10, max_depth: 0 });
    assert_eq!(w.visit(&dir("", 0, true)).unwrap(), WalkStep::SkipDir);
    let run = w.finish();
    assert!(run.files.is_empty());
    assert_eq!(run.warnings, vec!["Reached maxDepth limit (0). Skipped deeper traversal.".to_string()]);
}

#[test]
fn zero_depth_without_children_does_not_warn() {
    let engine = RuleEngine::from_config(&config(), GitignoreSet { matcher: None, warnings: vec![] }).unwrap();
    let mut w = SelectionWalk::new("/root".to_string(), engine, ScanLimits { max_files: 10, max_depth: 0 });
    assert_eq!(w.visit(&dir("", 0, false)).unwrap(), WalkStep::SkipDir);
    assert!(w.finish().warnings.is_empty());
}

#[test]
fn excluded_directory_prunes_its_subtree() {
    let mut c = config();
    c.exclude_globs = vec!["node_modules".to_string()];
    let entries = vec![
        dir("", 0, true),
        dir("/node_modules", 1, true),
        file("node_modules/x.js", 2, 1),
        file("z.js", 1, 1),
    ];
    let run = walk(&c, GitignoreSet { matcher: None, warnings: vec![] }, ScanLimits::default(), entries);
    assert_eq!(rels(&run), vec!["z.js"]);
    assert_eq!(run.excluded_files, 0);
}

#[test]
fn selected_files_are_sorted_flat_and_case_folded() {
    let entries = vec![
        dir("", 0, true),
        dir("/ADir", 1, true),
        file("ADir/a.txt", 2, 1),
        dir("/bDir", 1, true),
        file("bDir/z.txt", 2, 1),
        file("Beta.txt", 1, 4),
        file("a.txt", 1, 9),
    ];
    let run = walk(&config(), GitignoreSet { matcher: None, warnings: vec![] }, ScanLimits::default(), entries);
    assert_eq!(rels(&run), vec!["a.txt", "ADir/a.txt", "bDir/z.txt", "Beta.txt"]);
    assert_eq!(run.included_files, 4);
    assert_eq!(run.files[0].size, 9);
    assert_eq!(run.files[0].abs_path, "/root/a.txt");
}

#[test]
fn entry_outside_root_fails_the_walk() {
    let engine = RuleEngine::from_config(&config(), GitignoreSet { matcher: None, warnings: vec![] }).unwrap();
    let mut w = SelectionWalk::new("/root".to_string(), engine, ScanLimits::default());
    let e = WalkEntry { abs_path: "/elsewhere/a".to_string(), is_dir: false, depth: 1, has_children: false, size: 1 };
    assert!(w.visit(&e).err().unwrap().contains("E_PATH_OUTSIDE_ROOT"));
}

#[test]
fn stopped_walk_ignores_further_entries() {
    let engine = RuleEngine::from_config(&config(), GitignoreSet { matcher: None, warnings: vec!["gi".to_string()] }).unwrap();
    let mut w = SelectionWalk::new("/root".to_string(), engine, ScanLimits { max_files: 1, max_depth: 5 });
    assert_eq!(w.visit(&file("a.txt", 1, 1)).unwrap(), WalkStep::Stop);
    assert!(w.is_stopped());
    assert_eq!(w.visit(&file("b.txt", 1, 1)).unwrap(), WalkStep::Stop);
    let run = w.finish();
    assert_eq!(run.included_files, 1);
    assert_eq!(run.warnings.len(), 1);
}

#[test]
fn gitignored_file_is_left_out_without_include_rules() {
    let mut c = config();
    c.use_gitignore = true;
    let entries = vec![dir("", 0, true), file(".gitignore", 1, 12), file("ignored.txt", 1, 1), file("normal.txt", 1, 1)];
    let run = walk(&c, gitignore(&["ignored.txt"]), ScanLimits::default(), entries);
    assert!(rels(&run).contains(&"normal.txt"));
    assert!(!rels(&run).contains(&"ignored.txt"));
    assert_eq!(run.excluded_files, 1);
}
