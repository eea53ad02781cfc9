//! The export: the decision for each file, the markers around its content,
//! the counters and notes, and the preview.
use crate::errors::{coded, coded_text, E_OUTPUT_EXISTS, E_OUTPUT_IS_DIR, E_OUTPUT_REQUIRED};
use crate::models::{ExportConfig, ExportResult, LargeFileStrategy, PreviewMeta, SelectionSummary};
use crate::pathing::{path_file_name, slashes_forward};
use crate::selection::{SelectedFile, SelectionRun};
use crate::text::{chars_of, decimal, push_decimal, push_str, string_of, trim, trim_chars};
use vstd::prelude::*;
use vstd::string::StringSliceAdditionalSpecFns;

verus! {

/// `b` begins with `p`.
pub open spec fn starts(b: Seq<u8>, p: Seq<u8>) -> bool {
    p.is_prefix_of(b)
}

/// What content_inspector calls binary: no byte order mark, and a NUL byte
/// among the first 1024 bytes or a PDF or PNG signature at the start.
pub open spec fn binary_content(b: Seq<u8>) -> bool {
    let bom = starts(b, seq![0xEFu8, 0xBB, 0xBF]) || starts(b, seq![0x00u8, 0x00, 0xFE, 0xFF])
        || starts(b, seq![0xFFu8, 0xFE, 0x00, 0x00]) || starts(b, seq![0xFEu8, 0xFF]) || starts(
        b,
        seq![0xFFu8, 0xFE],
    );
    let scan = if b.len() < 1024 {
        b
    } else {
        b.subrange(0, 1024)
    };
    !bom && (scan.contains(0u8) || starts(b, seq![0x25u8, 0x50, 0x44, 0x46]) || starts(
        b,
        seq![0x89u8, 0x50, 0x4E, 0x47],
    ))
}

/// Relies on content_inspector::inspect and ContentType::is_binary: a byte
/// order mark means text; otherwise a NUL byte among the first 1024 bytes,
/// or a `%PDF` or `\x89PNG` signature, means binary.
#[verifier::external_body]
fn probe_is_binary(probe: &[u8]) -> (r: bool)
    ensures
        r == binary_content(probe@),
{
    content_inspector::inspect(probe).is_binary()
}

/// The byte ceiling of a file: `max_file_size_kb * 1024`, saturating.
pub open spec fn max_bytes_of(kb: u64) -> u64 {
    if kb * 1024 > u64::MAX {
        u64::MAX
    } else {
        (kb * 1024) as u64
    }
}

/// The byte ceiling for a configuration.
pub fn max_bytes(kb: u64) -> (r: u64)
    ensures
        r == max_bytes_of(kb),
{
    if kb > u64::MAX / 1024 {
        u64::MAX
    } else {
        kb * 1024
    }
}

/// What to do with one selected file once it is open.
#[derive(Clone, Copy, Debug, PartialEq, Eq, Structural)]
pub enum FilePlan {
    /// Leave it out (a note says why).
    Skip,
    /// Write it, reading at most `cap` raw bytes when a cap is given.
    Write { cap: Option<u64> },
}

/// The plan for a file of `size` bytes whose first bytes are `probe`.
pub open spec fn file_plan(strategy: LargeFileStrategy, max: u64, size: u64, probe: Seq<u8>) -> FilePlan {
    if binary_content(probe) {
        FilePlan::Skip
    } else if strategy == LargeFileStrategy::Skip && size > max {
        FilePlan::Skip
    } else if strategy == LargeFileStrategy::Truncate && size > max {
        FilePlan::Write { cap: Some(max) }
    } else {
        FilePlan::Write { cap: None }
    }
}

/// A file exactly at the ceiling is written whole under either strategy.
pub proof fn lemma_size_at_ceiling_is_kept(strategy: LargeFileStrategy, max: u64, probe: Seq<u8>)
    requires
        !binary_content(probe),
    ensures
        file_plan(strategy, max, max, probe) == (FilePlan::Write { cap: None }),
{
}

/// `'rel'`.
pub open spec fn quoted(rel: Seq<char>) -> Seq<char> {
    seq!['\''] + rel + seq!['\'']
}

pub open spec fn open_failed_note(rel: Seq<char>, cause: Seq<char>) -> Seq<char> {
    "Skipped "@ + quoted(rel) + ": failed to open ("@ + cause + ")"@
}

pub open spec fn binary_note(rel: Seq<char>) -> Seq<char> {
    "Skipped "@ + quoted(rel) + ": binary file"@
}

pub open spec fn too_large_note(rel: Seq<char>) -> Seq<char> {
    "Skipped "@ + quoted(rel) + ": exceeds maxFileSizeKB"@
}

pub open spec fn truncated_note(rel: Seq<char>, max: u64) -> Seq<char> {
    "Truncated "@ + quoted(rel) + ": wrote first "@ + decimal(max as nat) + " bytes"@
}

/// The line that opens a file's block.
pub open spec fn file_header_text(rel: Seq<char>) -> Seq<char> {
    "=== FILE: "@ + rel + " ===\n"@
}

/// What follows a file's content: the final newline, the truncation marker
/// if any, the closing line and a blank line.
pub open spec fn file_footer_text(rel: Seq<char>, cap: Option<u64>) -> Seq<char> {
    "\n"@ + (match cap {
        Some(n) => "[TRUNCATED at "@ + decimal(n as nat) + " bytes]\n"@,
        None => Seq::empty(),
    }) + "=== END FILE: "@ + rel + " ===\n"@ + "\n"@
}

/// The line that opens a file's block.
pub fn file_header(rel: &str) -> (r: String)
    ensures
        r@ == file_header_text(rel@),
{
    let mut out = String::new();
    push_str(&mut out, "=== FILE: ");
    push_str(&mut out, rel);
    push_str(&mut out, " ===\n");
    assert(out@ =~= file_header_text(rel@));
    out
}

fn note_for(prefix: &str, rel: &str, suffix: &str) -> (r: String)
    ensures
        r@ == prefix@ + quoted(rel@) + suffix@,
{
    let mut out = String::new();
    push_str(&mut out, prefix);
    push_str(&mut out, "'");
    push_str(&mut out, rel);
    push_str(&mut out, "'");
    push_str(&mut out, suffix);
    proof {
        reveal_strlit("'");
    }
    assert(out@ =~= prefix@ + quoted(rel@) + suffix@);
    out
}

/// The counters and notes of an export in progress.
pub struct ExportTally {
    pub exported_files: usize,
    pub skipped_files: usize,
    pub total_bytes_written: u64,
    pub notes: Vec<String>,
}

/// `n + 1`, saturating.
pub open spec fn bump(n: usize) -> usize {
    if n < usize::MAX {
        (n + 1) as usize
    } else {
        n
    }
}

impl ExportTally {
    /// A tally that starts with the selection's warnings as notes.
    pub fn new(warnings: Vec<String>) -> (r: ExportTally)
        ensures
            r.exported_files == 0,
            r.skipped_files == 0,
            r.total_bytes_written == 0,
            r.notes@ == warnings@,
    {
        ExportTally { exported_files: 0, skipped_files: 0, total_bytes_written: 0, notes: warnings }
    }

    /// Counts the bytes of text written to the output (saturating).
    pub fn count_written(&mut self, text: &str)
        ensures
            final(self).exported_files == old(self).exported_files,
            final(self).skipped_files == old(self).skipped_files,
            final(self).notes@ == old(self).notes@,
            final(self).total_bytes_written as int == if old(self).total_bytes_written + (
            text.spec_bytes().len() as usize) > u64::MAX {
                u64::MAX as int
            } else {
                old(self).total_bytes_written + (text.spec_bytes().len() as usize)
            },
    {
        let n = text.len() as u64;
        self.total_bytes_written = self.total_bytes_written.saturating_add(n);
    }

    /// A file that could not be opened is skipped with a note.
    pub fn open_failed(&mut self, rel: &str, cause: &str)
        ensures
            final(self).skipped_files == bump(old(self).skipped_files),
            final(self).exported_files == old(self).exported_files,
            final(self).total_bytes_written == old(self).total_bytes_written,
            final(self).notes@.len() == old(self).notes@.len() + 1,
            final(self).notes@.drop_last() == old(self).notes@,
            final(self).notes@.last()@ == open_failed_note(rel@, cause@),
    {
        let head = note_for("Skipped ", rel, ": failed to open (");
        let mut n = head;
        push_str(&mut n, cause);
        push_str(&mut n, ")");
        assert(n@ =~= open_failed_note(rel@, cause@));
        self.skip_with(n);
    }

    fn skip_with(&mut self, note: String)
        ensures
            final(self).skipped_files == bump(old(self).skipped_files),
            final(self).exported_files == old(self).exported_files,
            final(self).total_bytes_written == old(self).total_bytes_written,
            final(self).notes@ == old(self).notes@.push(note),
    {
        if self.skipped_files < usize::MAX {
            self.skipped_files = self.skipped_files + 1;
        }
        self.notes.push(note);
    }

    /// Decides on an opened file from its size and its first bytes: binary
    /// content is skipped; under `Skip` a file over the ceiling is skipped;
    /// under `Truncate` it is written up to the ceiling; otherwise whole.
    pub fn plan_file(
        &mut self,
        rel: &str,
        size: u64,
        probe: &[u8],
        strategy: LargeFileStrategy,
        max: u64,
    ) -> (r: FilePlan)
        ensures
            r == file_plan(strategy, max, size, probe@),
            final(self).exported_files == old(self).exported_files,
            final(self).total_bytes_written == old(self).total_bytes_written,
            r == FilePlan::Skip ==> final(self).skipped_files == bump(old(self).skipped_files)
                && final(self).notes@.len() == old(self).notes@.len() + 1 && final(self).notes@.drop_last()
                == old(self).notes@ && final(self).notes@.last()@ == (if binary_content(probe@) {
                binary_note(rel@)
            } else {
                too_large_note(rel@)
            }),
            r != FilePlan::Skip ==> final(self).skipped_files == old(self).skipped_files
                && final(self).notes@ == old(self).notes@,
    {
        if probe_is_binary(probe) {
            let n = note_for("Skipped ", rel, ": binary file");
            self.skip_with(n);
            return FilePlan::Skip;
        }
        if matches!(strategy, LargeFileStrategy::Skip) && size > max {
            let n = note_for("Skipped ", rel, ": exceeds maxFileSizeKB");
            self.skip_with(n);
            return FilePlan::Skip;
        }
        if matches!(strategy, LargeFileStrategy::Truncate) && size > max {
            return FilePlan::Write { cap: Some(max) };
        }
        FilePlan::Write { cap: None }
    }

    /// Closes a written file's block: returns the text to write after its
    /// content, counts the file as exported, and notes a truncation.
    pub fn file_footer(&mut self, rel: &str, cap: Option<u64>) -> (r: String)
        ensures
            r@ == file_footer_text(rel@, cap),
            final(self).exported_files == bump(old(self).exported_files),
            final(self).skipped_files == old(self).skipped_files,
            final(self).total_bytes_written == old(self).total_bytes_written,
            cap is None ==> final(self).notes@ == old(self).notes@,
            cap matches Some(n) ==> final(self).notes@.len() == old(self).notes@.len() + 1
                && final(self).notes@.drop_last() == old(self).notes@ && final(self).notes@.last()@
                == truncated_note(rel@, n),
    {
        let mut out = String::new();
        push_str(&mut out, "\n");
        if let Some(n) = cap {
            push_str(&mut out, "[TRUNCATED at ");
            push_decimal(&mut out, n);
            push_str(&mut out, " bytes]\n");
            let mut note = note_for("Truncated ", rel, ": wrote first ");
            push_decimal(&mut note, n);
            push_str(&mut note, " bytes");
            assert(note@ =~= truncated_note(rel@, n));
            self.notes.push(note);
        }
        push_str(&mut out, "=== END FILE: ");
        push_str(&mut out, rel);
        push_str(&mut out, " ===\n");
        push_str(&mut out, "\n");
        assert(out@ =~= file_footer_text(rel@, cap));
        if self.exported_files < usize::MAX {
            self.exported_files = self.exported_files + 1;
        }
        out
    }

    /// The result of the export, with the output path in forward slashes.
    pub fn finish(self, output_path: &str) -> (r: ExportResult)
        ensures
            r.output_path@ == slashes_forward(output_path@),
            r.exported_files == self.exported_files,
            r.skipped_files == self.skipped_files,
            r.total_bytes_written == self.total_bytes_written,
            r.notes@ == self.notes@,
    {
        let cs = chars_of(output_path);
        let mut out: Vec<char> = Vec::new();
        let mut i: usize = 0;
        while i < cs.len()
            invariant
                i <= cs.len(),
                out@ == slashes_forward(cs@.subrange(0, i as int)),
            decreases cs.len() - i,
        {
            let c = cs[i];
            out.push(if c == '\\' { '/' } else { c });
            i = i + 1;
            assert(out@ =~= slashes_forward(cs@.subrange(0, i as int)));
        }
        assert(cs@.subrange(0, cs.len() as int) =~= cs@);
        ExportResult {
            output_path: string_of(&out),
            exported_files: self.exported_files,
            skipped_files: self.skipped_files,
            total_bytes_written: self.total_bytes_written,
            notes: self.notes,
        }
    }
}

pub open spec fn output_required_error() -> Seq<char> {
    coded_text(E_OUTPUT_REQUIRED@, "outputPath is required"@)
}

pub open spec fn output_is_dir_error() -> Seq<char> {
    coded_text(E_OUTPUT_IS_DIR@, "outputPath must be a file path, not a directory"@)
}

pub open spec fn output_exists_error() -> Seq<char> {
    coded_text(E_OUTPUT_EXISTS@, "outputPath already exists; overwrite is disabled by default"@)
}

/// The output path, trimmed: blank is refused, and so is one without a
/// final file-name component.
pub fn prepare_output_path(output_path: &str) -> (r: Result<String, String>)
    ensures
        trim(output_path@).len() == 0 ==> r is Err && r->Err_0@ == output_required_error(),
        trim(output_path@).len() > 0 && path_file_name(trim(output_path@)) is None ==> r is Err
            && r->Err_0@ == output_is_dir_error(),
        trim(output_path@).len() > 0 && path_file_name(trim(output_path@)) is Some ==> r is Ok
            && r->Ok_0@ == trim(output_path@),
{
    let t = string_of(&trim_chars(output_path));
    if t.as_str().is_empty() {
        return Err(coded(E_OUTPUT_REQUIRED, "outputPath is required"));
    }
    if !crate::pathing::has_file_name(t.as_str()) {
        return Err(coded(E_OUTPUT_IS_DIR, "outputPath must be a file path, not a directory"));
    }
    Ok(t)
}

/// Refuses an output path that already exists: a directory, or a file that
/// would be overwritten.
pub fn refuse_existing_output(exists: bool, is_dir: bool) -> (r: Result<(), String>)
    ensures
        !exists ==> r is Ok,
        exists && is_dir ==> r is Err && r->Err_0@ == output_is_dir_error(),
        exists && !is_dir ==> r is Err && r->Err_0@ == output_exists_error(),
{
    if exists {
        if is_dir {
            return Err(coded(E_OUTPUT_IS_DIR, "outputPath must be a file path, not a directory"));
        }
        return Err(coded(E_OUTPUT_EXISTS, "outputPath already exists; overwrite is disabled by default"));
    }
    Ok(())
}

/// The counts and warnings of a selection.
pub fn evaluate_selection(selection: SelectionRun) -> (r: SelectionSummary)
    ensures
        r.included_files == selection.included_files,
        r.excluded_files == selection.excluded_files,
        r.warnings@ == selection.warnings@,
{
    SelectionSummary {
        included_files: selection.included_files,
        excluded_files: selection.excluded_files,
        warnings: selection.warnings,
    }
}

/// The bytes a file is estimated to add: its size, capped at the ceiling
/// under `Truncate`, or nothing when `Skip` leaves it out.
pub open spec fn estimate_of(strategy: LargeFileStrategy, max: u64, size: u64) -> nat {
    match strategy {
        LargeFileStrategy::Truncate => if size < max {
            size as nat
        } else {
            max as nat
        },
        LargeFileStrategy::Skip => if size <= max {
            size as nat
        } else {
            0
        },
    }
}

/// The estimates of the files, summed.
pub open spec fn estimate_sum(files: Seq<SelectedFile>, strategy: LargeFileStrategy, max: u64) -> nat
    decreases files.len(),
{
    if files.len() == 0 {
        0
    } else {
        estimate_sum(files.drop_last(), strategy, max) + estimate_of(strategy, max, files.last().size)
    }
}

/// The preview of an export: files counted, bytes estimated from raw sizes
/// (saturating), no token estimate, the selection's warnings.
pub fn preview_export(config: &ExportConfig, selection: SelectionRun) -> (r: PreviewMeta)
    ensures
        r.included_files == selection.included_files,
        r.estimated_bytes as nat == if estimate_sum(
            selection.files@,
            config.large_file_strategy,
            max_bytes_of(config.max_file_size_kb),
        ) > u64::MAX {
            u64::MAX as nat
        } else {
            estimate_sum(selection.files@, config.large_file_strategy, max_bytes_of(config.max_file_size_kb))
        },
        r.estimated_tokens is None,
        r.warnings@ == selection.warnings@,
{
    let max = max_bytes(config.max_file_size_kb);
    let ghost strategy = config.large_file_strategy;
    let mut total: u64 = 0;
    let mut i: usize = 0;
    while i < selection.files.len()
        invariant
            i <= selection.files.len(),
            max == max_bytes_of(config.max_file_size_kb),
            strategy == config.large_file_strategy,
            total as nat == if estimate_sum(selection.files@.subrange(0, i as int), strategy, max) > u64::MAX {
                u64::MAX as nat
            } else {
                estimate_sum(selection.files@.subrange(0, i as int), strategy, max)
            },
        decreases selection.files.len() - i,
    {
        let size = selection.files[i].size;
        let add: u64 = match config.large_file_strategy {
            LargeFileStrategy::Truncate => if size < max {
                size
            } else {
                max
            },
            LargeFileStrategy::Skip => if size <= max {
                size
            } else {
                0
            },
        };
        proof {
            let pre = selection.files@.subrange(0, i as int);
            let next = selection.files@.subrange(0, i + 1);
            assert(next.drop_last() =~= pre);
            assert(next.last() == selection.files@[i as int]);
            assert(add == estimate_of(strategy, max, size));
        }
        total = total.saturating_add(add);
        i = i + 1;
    }
    assert(selection.files@.subrange(0, selection.files.len() as int) =~= selection.files@);
    PreviewMeta {
        included_files: selection.included_files,
        estimated_bytes: total,
        estimated_tokens: None,
        warnings: selection.warnings,
    }
}

} // verus!
