use ignore::gitignore::GitignoreBuilder;
use workspace_export::models::{ExportConfig, LargeFileStrategy, ManualSelectionState, OutputFormat, ScanLimits};
use workspace_export::rules::{GitignoreSet, RuleEngine};
use workspace_export::scanner::{scan_children, scan_root, scan_single_level, DirListing};

fn test_config() -> ExportConfig {
    ExportConfig {
        root_path: "/root".to_string(),
        use_gitignore: true,
        include_globs: vec![],
        exclude_globs: vec![],
        include_extensions: vec![],
        exclude_extensions: vec![],
        max_file_size_kb: 256,
        large_file_strategy: LargeFileStrategy::Truncate,
        manual_selections: vec![],
        output_format: OutputFormat::Txt,
    }
}

fn gitignore(lines: &[&str]) -> GitignoreSet {
    let mut b = GitignoreBuilder::new("/root");
    for line in lines {
        b.add_line(None, line).unwrap();
    }
    GitignoreSet { matcher: Some(b.build().unwrap()), warnings: vec![] }
}

fn listing(limits: &ScanLimits, entries: &[(&str, bool)]) -> DirListing {
    let mut l = DirListing::new(limits);
    for (p, d) in entries {
        if !l.push(p.to_string(), *d) {
            break;
        }
    }
    l
}

#[test]
fn scan_root_returns_first_level_and_keeps_directories_lazy() {
    let limits = ScanLimits::default();
    let engine = RuleEngine::from_config(&test_config(), GitignoreSet { matcher: None, warnings: vec![] }).unwrap();
    let tree = scan_root("/root", listing(&limits, &[("/root/root.txt", false), ("/root/a_dir", true)]), &engine).unwrap();
    assert_eq!(tree.path, ".");
    assert_eq!(tree.name, "root");
    assert_eq!(tree.children.len(), 2);
    assert_eq!(tree.children_count, Some(2));
    let dir_node = tree.children.iter().find(|node| node.is_dir).unwrap();
    assert_eq!(dir_node.children_count, None);
    assert!(dir_node.children.is_empty());
    assert_eq!(tree.children[0].path, "a_dir");
    assert_eq!(tree.children[1].path, "root.txt");
    assert_eq!(tree.children[1].children_count, Some(0));
}

#[test]
fn scan_root_marks_gitignored_entries_when_enabled() {
    let limits = ScanLimits::default();
    let mut config = test_config();
    config.use_gitignore = true;
    let engine = RuleEngine::from_config(&config, gitignore(&["ignored.txt", "ignored_dir/"])).unwrap();
    let l = listing(&limits, &[("/root/.gitignore", false), ("/root/ignored.txt", false), ("/root/normal.txt", false), ("/root/ignored_dir", true)]);
    let tree = scan_root("/root", l, &engine).unwrap();
    let ignored_file = tree.children.iter().find(|node| node.path == "ignored.txt").unwrap();
    let normal_file = tree.children.iter().find(|node| node.path == "normal.txt").unwrap();
    let ignored_dir = tree.children.iter().find(|node| node.path == "ignored_dir").unwrap();
    assert!(ignored_file.ignored_by_gitignore);
    assert!(ignored_dir.ignored_by_gitignore);
    assert!(!normal_file.ignored_by_gitignore);
    assert!(!ignored_file.included_by_rules);
    assert!(normal_file.included_by_rules);
}

#[test]
fn scan_root_hides_gitignored_entries_when_disabled() {
    let limits = ScanLimits::default();
    let mut config = test_config();
    config.use_gitignore = false;
    let engine = RuleEngine::from_config(&config, gitignore(&["ignored.txt"])).unwrap();
    let tree = scan_root("/root", listing(&limits, &[("/root/ignored.txt", false), ("/root/normal.txt", false)]), &engine).unwrap();
    let ignored_file = tree.children.iter().find(|node| node.path == "ignored.txt").unwrap();
    let normal_file = tree.children.iter().find(|node| node.path == "normal.txt").unwrap();
    assert!(!ignored_file.ignored_by_gitignore);
    assert!(!normal_file.ignored_by_gitignore);
}

#[test]
fn scan_root_include_rules_override_exclude_and_gitignore() {
    let limits = ScanLimits::default();
    let mut config = test_config();
    config.use_gitignore = true;
    config.include_extensions = vec![".ts".to_string()];
    config.exclude_extensions = vec![".ts".to_string()];
    let engine = RuleEngine::from_config(&config, gitignore(&["kept.ts"])).unwrap();
    let tree = scan_root("/root", listing(&limits, &[("/root/kept.ts", false)]), &engine).unwrap();
    let node = tree.children.iter().find(|item| item.path == "kept.ts").unwrap();
    assert!(node.ignored_by_gitignore);
    assert!(node.included_by_rules);
}

#[test]
fn scan_root_manual_selection_still_has_highest_priority() {
    let limits = ScanLimits::default();
    let mut config = test_config();
    config.include_extensions = vec![".ts".to_string()];
    config.exclude_extensions = vec![".ts".to_string()];
    config.manual_selections.push(("file.ts".to_string(), ManualSelectionState::Exclude));
    let engine = RuleEngine::from_config(&config, GitignoreSet { matcher: None, warnings: vec![] }).unwrap();
    let tree = scan_root("/root", listing(&limits, &[("/root/file.ts", false)]), &engine).unwrap();
    let node = tree.children.iter().find(|item| item.path == "file.ts").unwrap();
    assert!(!node.included_by_rules);
}

#[test]
fn scan_children_rejects_paths_outside_root() {
    let limits = ScanLimits::default();
    let engine = RuleEngine::from_config(&test_config(), GitignoreSet { matcher: None, warnings: vec![] }).unwrap();
    let result = scan_children("/root", "/outside", listing(&limits, &[]), &engine, &limits);
    assert!(result.is_err());
    assert!(result.err().unwrap().contains("E_PATH_OUTSIDE_ROOT"));
}

#[test]
fn scan_children_matches_the_parent_expansion() {
    let limits = ScanLimits::default();
    let engine = RuleEngine::from_config(&test_config(), GitignoreSet { matcher: None, warnings: vec![] }).unwrap();
    let entries = [("/root/src/b.rs", false), ("/root/src/A.rs", false), ("/root/src/mod", true)];
    let batch = scan_children("/root", "/root/src", listing(&limits, &entries), &engine, &limits).unwrap();
    let paths: Vec<&str> = batch.nodes.iter().map(|n| n.path.as_str()).collect();
    assert_eq!(paths, vec!["src/mod", "src/A.rs", "src/b.rs"]);
    let again = scan_single_level("/root", listing(&limits, &entries), &engine).unwrap();
    let again_paths: Vec<&str> = again.nodes.iter().map(|n| n.path.as_str()).collect();
    assert_eq!(paths, again_paths);
    assert_eq!(batch.nodes[1].name, "A.rs");
}

#[test]
fn scan_children_stops_at_depth_limit() {
    let engine = RuleEngine::from_config(&test_config(), GitignoreSet { matcher: None, warnings: vec![] }).unwrap();
    let limits = ScanLimits { max_files: 10, max_depth: 0 };
    let batch = scan_children("/root", "/root", listing(&limits, &[("/root/a", false)]), &engine, &limits).unwrap();
    assert!(batch.nodes.is_empty());
    assert_eq!(batch.warnings, vec!["Reached maxDepth limit (0). Skipped deeper traversal.".to_string()]);
    let limits = ScanLimits { max_files: 10, max_depth: 2 };
    let batch = scan_children("/root", "/root/a/b", listing(&limits, &[("/root/a/b/c", false)]), &engine, &limits).unwrap();
    assert!(batch.nodes.is_empty());
}

#[test]
fn listing_stops_at_file_limit() {
    let limits = ScanLimits { max_files: 2, max_depth: 64 };
    let mut l = DirListing::new(&limits);
    assert!(l.push("/root/a".to_string(), false));
    assert!(!l.push("/root/b".to_string(), false));
    assert!(!l.push("/root/c".to_string(), false));
    let engine = RuleEngine::from_config(&test_config(), GitignoreSet { matcher: None, warnings: vec![] }).unwrap();
    let batch = scan_single_level("/root", l, &engine).unwrap();
    assert_eq!(batch.nodes.len(), 2);
    assert_eq!(batch.warnings, vec!["Reached maxFiles limit (2). Remaining entries were skipped.".to_string()]);
}
