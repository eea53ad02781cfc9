//! The request-scoped data: configuration, limits, tree nodes and results.
use vstd::prelude::*;

verus! {

/// What happens to a file larger than the size ceiling.
#[derive(Clone, Copy, Debug, PartialEq, Eq, Structural)]
pub enum LargeFileStrategy {
    Truncate,
    Skip,
}

/// A human's explicit choice for a path and everything below it.
#[derive(Clone, Copy, Debug, PartialEq, Eq, Structural)]
pub enum ManualSelectionState {
    Include,
    Exclude,
    Inherit,
}

/// The layout of the export; both forms are written as plain text.
#[derive(Clone, Copy, Debug, PartialEq, Eq, Structural)]
pub enum OutputFormat {
    Txt,
    Md,
}

/// The selection policy of one request.
#[derive(Clone, Debug)]
pub struct ExportConfig {
    pub root_path: String,
    pub use_gitignore: bool,
    pub include_globs: Vec<String>,
    pub exclude_globs: Vec<String>,
    pub include_extensions: Vec<String>,
    pub exclude_extensions: Vec<String>,
    pub max_file_size_kb: u64,
    pub large_file_strategy: LargeFileStrategy,
    /// Manual choices by path; where two keys normalise alike, the later wins.
    pub manual_selections: Vec<(String, ManualSelectionState)>,
    pub output_format: OutputFormat,
}

/// One entry of the browsing tree.
#[derive(Debug)]
pub struct TreeNode {
    pub path: String,
    pub name: String,
    pub is_dir: bool,
    /// `None` for a directory not yet expanded, `Some(0)` for a file.
    pub children_count: Option<usize>,
    pub included_by_rules: bool,
    pub ignored_by_gitignore: bool,
    pub children: Vec<TreeNode>,
}

#[derive(Clone, Debug)]
pub struct SelectionSummary {
    pub included_files: usize,
    pub excluded_files: usize,
    pub warnings: Vec<String>,
}

#[derive(Clone, Debug)]
pub struct PreviewMeta {
    pub included_files: usize,
    pub estimated_bytes: u64,
    pub estimated_tokens: Option<u64>,
    pub warnings: Vec<String>,
}

#[derive(Clone, Debug)]
pub struct ExportResult {
    pub output_path: String,
    pub exported_files: usize,
    pub skipped_files: usize,
    pub total_bytes_written: u64,
    pub notes: Vec<String>,
}

/// Bounds on one traversal: entries counted, and depth in path components.
#[derive(Clone, Copy, Debug)]
pub struct ScanLimits {
    pub max_files: usize,
    pub max_depth: usize,
}

pub const DEFAULT_MAX_FILES: usize = 100000;

pub const DEFAULT_MAX_DEPTH: usize = 64;

impl Default for ScanLimits {
    fn default() -> (r: ScanLimits)
        ensures
            r.max_files == DEFAULT_MAX_FILES,
            r.max_depth == DEFAULT_MAX_DEPTH,
    {
        ScanLimits { max_files: DEFAULT_MAX_FILES, max_depth: DEFAULT_MAX_DEPTH }
    }
}

} // verus!
