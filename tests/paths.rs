use std::cmp::Ordering;
use workspace_export::errors::{coded, read_error, write_error, E_DIRPATH_NOT_DIR, E_PATH_OUTSIDE_ROOT, E_ROOT_INVALID, E_ROOT_NOT_DIR, E_ROOT_REQUIRED};
use workspace_export::pathing::{
    accept_root, depth_from_root, ensure_under_root, file_name_or_fallback, names_root,
    relative_unix_path, resolve_dir_under_root, validate_output_path, validate_root_path, Resolved,
};
use workspace_export::sorting::compare_entries;

#[test]
fn canonicalize_dir_rejects_empty_root_path() {
    let result = validate_root_path("   ");
    assert!(result.is_err());
    assert!(result.err().unwrap().contains(E_ROOT_REQUIRED));
}

#[test]
fn canonicalize_dir_rejects_non_existing_root_path() {
    let result = accept_root(Resolved { canonical: Err("No such file or directory (os error 2)".to_string()), is_dir: false });
    assert!(result.is_err());
    assert!(result.err().unwrap().contains(E_ROOT_INVALID));
}

#[test]
fn ensure_under_root_rejects_outside_path() {
    let result = ensure_under_root("/tmp/root", "/tmp/outside/outside.txt");
    assert!(result.is_err());
    assert!(result.err().unwrap().contains(E_PATH_OUTSIDE_ROOT));
    assert_eq!(ensure_under_root("/tmp/root", "/tmp/root/a/b").unwrap(), "/tmp/root/a/b");
    assert!(ensure_under_root("/tmp/root", "/tmp/rootx/a").is_err());
}

#[test]
fn root_acceptance() {
    assert_eq!(validate_root_path("  /r \n").unwrap(), "/r");
    assert_eq!(accept_root(Resolved { canonical: Ok("/r".to_string()), is_dir: true }).unwrap(), "/r");
    let e = accept_root(Resolved { canonical: Ok("/r/f".to_string()), is_dir: false }).err().unwrap();
    assert_eq!(e, "[E_ROOT_NOT_DIR] rootPath must be a directory");
    assert!(e.contains(E_ROOT_NOT_DIR));
    let e = accept_root(Resolved { canonical: Err("gone".to_string()), is_dir: false }).err().unwrap();
    assert_eq!(e, "[E_ROOT_INVALID] Invalid rootPath: gone");
    assert_eq!(validate_output_path(" ").err().unwrap(), "[E_OUTPUT_REQUIRED] outputPath is required");
}

#[test]
fn relative_paths_are_posix_and_relative() {
    assert_eq!(relative_unix_path("/r", "/r/a/b.txt").unwrap(), "a/b.txt");
    assert_eq!(relative_unix_path("/r", "/r").unwrap(), "");
    assert_eq!(relative_unix_path("/r", "/r/a\\b.txt").unwrap(), "a/b.txt");
    let e = relative_unix_path("/r", "/s/a").err().unwrap();
    assert_eq!(e, "[E_PATH_OUTSIDE_ROOT] Path is outside of rootPath");
    let p = relative_unix_path("/r", "/r/x/./y").unwrap();
    assert!(!p.contains('\\') && !p.starts_with("./"));
}

#[test]
fn depth_counts_components() {
    assert_eq!(depth_from_root("/r", "/r").unwrap(), 0);
    assert_eq!(depth_from_root("/r", "/r/a").unwrap(), 1);
    assert_eq!(depth_from_root("/r", "/r/a/b/c").unwrap(), 3);
    assert!(depth_from_root("/r", "/q/a").is_err());
}

#[test]
fn file_names_and_fallbacks() {
    assert_eq!(file_name_or_fallback("/r/proj", "workspace"), "proj");
    assert_eq!(file_name_or_fallback("/", "workspace"), "workspace");
    assert_eq!(file_name_or_fallback("/r/..", "workspace"), "workspace");
}

#[test]
fn scan_children_rejects_file_path() {
    let r = resolve_dir_under_root("/r", Resolved { canonical: Ok("/r/file.txt".to_string()), is_dir: false });
    assert!(r.is_err());
    assert!(r.err().unwrap().contains(E_DIRPATH_NOT_DIR));
    let r = resolve_dir_under_root("/r", Resolved { canonical: Ok("/elsewhere".to_string()), is_dir: true });
    assert!(r.err().unwrap().contains(E_PATH_OUTSIDE_ROOT));
    let r = resolve_dir_under_root("/r", Resolved { canonical: Err("[E_IO_READ] x".to_string()), is_dir: false });
    assert_eq!(r.err().unwrap(), "[E_IO_READ] x");
    assert_eq!(resolve_dir_under_root("/r", Resolved { canonical: Ok("/r/d".to_string()), is_dir: true }).unwrap(), "/r/d");
    assert!(names_root(" . "));
    assert!(names_root(""));
    assert!(!names_root("./a"));
}

#[test]
fn canonical_order_puts_directories_first_then_case_folded() {
    assert_eq!(compare_entries("z", true, "a", false), Ordering::Less);
    assert_eq!(compare_entries("a", false, "z", true), Ordering::Greater);
    assert_eq!(compare_entries("a", false, "B", false), Ordering::Less);
    assert_eq!(compare_entries("B", false, "a", false), Ordering::Greater);
    assert_eq!(compare_entries("A", false, "a", false), Ordering::Less);
    assert_eq!(compare_entries("a", false, "a", false), Ordering::Equal);
    assert_eq!(compare_entries("a.txt", false, "ADir/a.txt", false), Ordering::Less);
}

#[test]
fn error_codes_are_bracketed() {
    assert_eq!(coded("E_X", "boom"), "[E_X] boom");
    assert_eq!(read_error("Failed to read directory", "denied"), "[E_IO_READ] Failed to read directory: denied");
    assert_eq!(write_error("Write failed", "full"), "[E_IO_WRITE] Write failed: full");
}
