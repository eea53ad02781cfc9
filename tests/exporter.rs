use workspace_export::exporter::{
    evaluate_selection, file_header, max_bytes, prepare_output_path, preview_export,
    refuse_existing_output, ExportTally, FilePlan,
};
use workspace_export::structure::{build_structure_lines, structure_block};
use workspace_export::models::{ExportConfig, LargeFileStrategy, OutputFormat};
use workspace_export::selection::{SelectedFile, SelectionRun};
use workspace_export::stream::{utf8_split_point, ContentStream, normalize_newline_bytes};

fn selected(rel: &str, size: u64) -> SelectedFile {
    SelectedFile { abs_path: format!("/root/{}", rel), rel_path: rel.to_string(), size }
}

fn config(strategy: LargeFileStrategy, kb: u64) -> ExportConfig {
    ExportConfig {
        root_path: "/root".to_string(),
        use_gitignore: false,
        include_globs: vec![],
        exclude_globs: vec![],
        include_extensions: vec![],
        exclude_extensions: vec![],
        max_file_size_kb: kb,
        large_file_strategy: strategy,
        manual_selections: vec![],
        output_format: OutputFormat::Txt,
    }
}

/// Streams `content` in chunks of at most `chunk` bytes (and at most what
/// the stream asks for), returning the text written.
fn stream(content: &[u8], cap: Option<u64>, chunk: usize) -> String {
    let mut s = ContentStream::new(cap);
    let mut out = String::new();
    let mut pos = 0;
    loop {
        let want = s.read_len().min(chunk);
        if want == 0 || pos >= content.len() {
            break;
        }
        let end = (pos + want).min(content.len());
        out.push_str(&s.feed(&content[pos..end]));
        pos = end;
    }
    out.push_str(&s.finish());
    out
}

/// The whole export of in-memory files, as the application writes it.
fn export(files: &[(&str, &[u8])], strategy: LargeFileStrategy, kb: u64) -> (String, workspace_export::models::ExportResult) {
    let sel: Vec<SelectedFile> = files.iter().map(|(r, c)| selected(r, c.len() as u64)).collect();
    let mut tally = ExportTally::new(vec![]);
    let mut out = String::new();
    let block = structure_block(&sel);
    tally.count_written(&block);
    out.push_str(&block);
    let max = max_bytes(kb);
    for (rel, content) in files {
        let probe = &content[..content.len().min(1024)];
        match tally.plan_file(rel, content.len() as u64, probe, strategy, max) {
            FilePlan::Skip => {}
            FilePlan::Write { cap } => {
                let mut text = file_header(rel);
                text.push_str(&stream(content, cap, 16384));
                text.push_str(&tally.file_footer(rel, cap));
                tally.count_written(&text);
                out.push_str(&text);
            }
        }
    }
    (out, tally.finish("C:\\out\\export.txt"))
}

#[test]
fn structure_lists_directories_first_in_canonical_order() {
    let files = vec![selected("a.txt", 1), selected("Beta.txt", 1), selected("ADir/a.txt", 1), selected("bDir/z.txt", 1)];
    let lines = build_structure_lines(&files);
    assert_eq!(lines, vec![".", "ADir", "bDir", "a.txt", "ADir/a.txt", "bDir/z.txt", "Beta.txt"]);
}

#[test]
fn structure_lists_each_ancestor_once() {
    let files = vec![selected("a/b/c.txt", 1), selected("a/b/d.txt", 1), selected("a/e.txt", 1)];
    let lines = build_structure_lines(&files);
    assert_eq!(lines, vec![".", "a", "a/b", "a/b/c.txt", "a/b/d.txt", "a/e.txt"]);
    assert_eq!(build_structure_lines(&vec![]), vec!["."]);
}

#[test]
fn exported_content_uses_lf_newlines_only() {
    let (out, result) = export(&[("mixed.txt", b"a\r\nb\rc\n")], LargeFileStrategy::Truncate, 256);
    assert!(!out.as_bytes().iter().any(|byte| *byte == b'\r'));
    assert!(out.contains("=== FILE: mixed.txt ===\na\nb\nc\n\n=== END FILE: mixed.txt ===\n\n"));
    assert_eq!(result.exported_files, 1);
    assert_eq!(result.total_bytes_written, out.len() as u64);
    assert_eq!(result.output_path, "C:/out/export.txt");
}

#[test]
fn repeated_exports_have_stable_ordering() {
    let files: Vec<(&str, &[u8])> = vec![
        ("ADir/a.txt", b"a"),
        ("Beta.txt", b"beta"),
        ("a.txt", b"a\r\nb\rc\n"),
        ("alpha.txt", b"alpha"),
        ("bDir/z.txt", b"z"),
    ];
    let (first, _) = export(&files, LargeFileStrategy::Truncate, 256);
    let (second, _) = export(&files, LargeFileStrategy::Truncate, 256);
    assert_eq!(first, second);
    assert!(first.starts_with("=== STRUCTURE ===\n.\nADir\nbDir\na.txt\nADir/a.txt\nalpha.txt\nbDir/z.txt\nBeta.txt\n\n"));
}

#[test]
fn truncate_strategy_writes_marker_and_note_for_large_file() {
    let large = "x".repeat(2048);
    let (output, result) = export(&[("large.txt", large.as_bytes())], LargeFileStrategy::Truncate, 1);
    assert_eq!(result.exported_files, 1);
    assert!(output.contains("[TRUNCATED at 1024 bytes]"));
    assert!(result.notes.iter().any(|note| note.contains("Truncated 'large.txt'")));
    assert!(result.notes.iter().any(|note| note == "Truncated 'large.txt': wrote first 1024 bytes"));
    let body = format!("=== FILE: large.txt ===\n{}\n[TRUNCATED at 1024 bytes]\n", "x".repeat(1024));
    assert!(output.contains(&body));
}

#[test]
fn skip_strategy_skips_large_file_and_records_note() {
    let large = "x".repeat(2048);
    let (output, result) = export(&[("large.txt", large.as_bytes())], LargeFileStrategy::Skip, 1);
    assert_eq!(result.exported_files, 0);
    assert_eq!(result.skipped_files, 1);
    assert!(result.notes.iter().any(|note| note.contains("exceeds maxFileSizeKB")));
    assert!(!output.contains("=== FILE:"));
}

#[test]
fn file_at_ceiling_is_neither_truncated_nor_skipped() {
    let exact = "y".repeat(1024);
    for strategy in [LargeFileStrategy::Truncate, LargeFileStrategy::Skip] {
        let (output, result) = export(&[("exact.txt", exact.as_bytes())], strategy, 1);
        assert_eq!(result.exported_files, 1);
        assert_eq!(result.skipped_files, 0);
        assert!(result.notes.is_empty());
        assert!(!output.contains("TRUNCATED"));
    }
}

#[test]
fn binary_files_are_skipped() {
    let mut t = ExportTally::new(vec!["w".to_string()]);
    assert_eq!(t.plan_file("img.bin", 4, b"ab\0c", LargeFileStrategy::Truncate, 10), FilePlan::Skip);
    assert_eq!(t.plan_file("doc.pdf", 4, b"%PDF", LargeFileStrategy::Truncate, 10), FilePlan::Skip);
    assert_eq!(t.plan_file("bom.txt", 5, b"\xEF\xBB\xBF\0a", LargeFileStrategy::Truncate, 10), FilePlan::Write { cap: None });
    assert_eq!(t.plan_file("empty.txt", 0, b"", LargeFileStrategy::Truncate, 10), FilePlan::Write { cap: None });
    assert_eq!(t.skipped_files, 2);
    assert_eq!(t.notes, vec!["w".to_string(), "Skipped 'img.bin': binary file".to_string(), "Skipped 'doc.pdf': binary file".to_string()]);
    t.open_failed("gone.txt", "No such file");
    assert_eq!(t.notes[3], "Skipped 'gone.txt': failed to open (No such file)");
    assert_eq!(t.skipped_files, 3);
}

#[test]
fn output_path_checks() {
    let r = refuse_existing_output(true, false);
    assert!(r.err().unwrap().contains("overwrite is disabled by default"));
    let r = refuse_existing_output(true, true);
    assert!(r.err().unwrap().contains("outputPath must be a file path, not a directory"));
    assert!(refuse_existing_output(false, false).is_ok());
    assert!(prepare_output_path("   ").err().unwrap().contains("outputPath is required"));
    assert!(prepare_output_path("/tmp/..").err().unwrap().contains("must be a file path, not a directory"));
    assert_eq!(prepare_output_path("  /tmp/out.txt ").unwrap(), "/tmp/out.txt");
}

#[test]
fn newline_normalisation_spans_chunks() {
    assert_eq!(stream(b"a\r\nb\rc\n", None, 1), "a\nb\nc\n");
    assert_eq!(stream(b"a\r\nb\rc\n", None, 2), "a\nb\nc\n");
    assert_eq!(stream(b"a\r", None, 1), "a\n");
    assert_eq!(stream(b"\r\r\n\r", None, 3), "\n\n\n");
    let mut pending = false;
    let mut out = Vec::new();
    normalize_newline_bytes(b"x\r", &mut pending, &mut out);
    assert!(pending);
    assert_eq!(out, b"x".to_vec());
    normalize_newline_bytes(b"\ny", &mut pending, &mut out);
    assert!(!pending);
    assert_eq!(out, b"x\ny".to_vec());
}

#[test]
fn utf8_sequences_survive_chunk_boundaries() {
    let text = "é€😀 done".as_bytes();
    for chunk in 1..6 {
        assert_eq!(stream(text, None, chunk), "é€😀 done");
    }
    assert_eq!(utf8_split_point(&vec![b'a', 0xE2, 0x82]), 1);
    assert_eq!(utf8_split_point(&vec![b'a', 0xC3]), 1);
    assert_eq!(utf8_split_point(&vec![b'a', 0xE0, 0x80]), 3);
    assert_eq!(utf8_split_point(&vec![0xF0, 0x9F, 0x98]), 0);
    assert_eq!(utf8_split_point(&vec![b'a', b'b']), 2);
}

#[test]
fn invalid_bytes_become_replacement_characters() {
    assert_eq!(stream(&[b'a', 0xFF, b'b'], None, 16384), "a\u{FFFD}b");
    assert_eq!(stream(&[b'a', 0xE2, 0x82], None, 16384), "a\u{FFFD}");
}

#[test]
fn cap_limits_raw_bytes_read() {
    let mut s = ContentStream::new(Some(5));
    assert_eq!(s.read_len(), 5);
    let t = s.feed(b"ab\r");
    assert_eq!(t, "ab");
    assert_eq!(s.read_len(), 2);
    let t = s.feed(b"\nc");
    assert_eq!(t, "\nc");
    assert_eq!(s.read_len(), 0);
    assert_eq!(s.finish(), "");
    assert_eq!(ContentStream::new(None).read_len(), 16384);
    assert_eq!(ContentStream::new(Some(1 << 40)).read_len(), 16384);
}

#[test]
fn preview_estimates_from_raw_sizes() {
    let run = || SelectionRun {
        files: vec![selected("a", 100), selected("b", 5000), selected("c", 1024)],
        included_files: 3,
        excluded_files: 2,
        warnings: vec!["w".to_string()],
    };
    let p = preview_export(&config(LargeFileStrategy::Truncate, 1), run());
    assert_eq!(p.estimated_bytes, 100 + 1024 + 1024);
    assert_eq!(p.included_files, 3);
    assert_eq!(p.estimated_tokens, None);
    let p = preview_export(&config(LargeFileStrategy::Skip, 1), run());
    assert_eq!(p.estimated_bytes, 100 + 1024);
    assert_eq!(p.warnings, vec!["w".to_string()]);
    let huge = SelectionRun { files: vec![selected("a", u64::MAX), selected("b", 7)], included_files: 2, excluded_files: 0, warnings: vec![] };
    assert_eq!(preview_export(&config(LargeFileStrategy::Skip, u64::MAX), huge).estimated_bytes, u64::MAX);
    let s = evaluate_selection(run());
    assert_eq!((s.included_files, s.excluded_files), (3, 2));
    assert_eq!(max_bytes(u64::MAX), u64::MAX);
    assert_eq!(max_bytes(256), 262144);
}

#[test]
fn byte_count_saturates() {
    let mut t = ExportTally::new(vec![]);
    t.total_bytes_written = u64::MAX - 1;
    t.count_written("abc");
    assert_eq!(t.total_bytes_written, u64::MAX);
    let mut t = ExportTally::new(vec![]);
    t.count_written("é");
    assert_eq!(t.total_bytes_written, 2);
}

#[test]
fn rejects_existing_output_file_by_default() {
    let result = prepare_output_path("/tmp/out/existing.txt").and_then(|_| refuse_existing_output(true, false));
    assert!(result.is_err());
    assert!(result.err().unwrap().contains("overwrite is disabled by default"));
}

#[test]
fn rejects_directory_output_path() {
    let result = prepare_output_path("/tmp/out").and_then(|_| refuse_existing_output(true, true));
    assert!(result.is_err());
    assert!(result.err().unwrap().contains("outputPath must be a file path, not a directory"));
}

#[test]
fn empty_chunk_ends_a_held_carriage_return() {
    let mut pending = true;
    let mut out = b"x".to_vec();
    normalize_newline_bytes(b"", &mut pending, &mut out);
    assert!(!pending);
    assert_eq!(out, b"x\n".to_vec());
    let mut pending = false;
    normalize_newline_bytes(b"", &mut pending, &mut out);
    assert!(!pending);
    assert_eq!(out, b"x\n".to_vec());
}

#[test]
fn stream_holds_back_exactly_the_unfinished_sequence() {
    let mut s = ContentStream::new(None);
    assert_eq!(s.feed(b""), "");
    assert_eq!(s.feed(&[b'a', 0xFF, 0xE2, 0x82]), "a\u{FFFD}");
    assert_eq!(s.feed(&[0xAC, b'\r']), "\u{20AC}");
    assert_eq!(s.feed(b"\n"), "\n");
    assert_eq!(s.finish(), "");
}
