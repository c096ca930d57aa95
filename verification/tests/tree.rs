//! Walking a tree, rewriting ZIPs, manifests, and what is remembered.

use archive_assistant::assistant::{
    answer_check, plan_archive, plan_file, plan_path, removes_original, settle_archive, settle_file,
    worker_count, ArchiveAction, ArchiveEnd, ArchiveError, FileAction, PathAction, PdfCheck, Remember,
    RepackRun,
};
use archive_assistant::command::{build_repack_cmd, build_self_cmd, CommandArg};
use archive_assistant::config::{Config, IoMode, ProcessorRule};
use archive_assistant::dispatch::ProcessResult;
use archive_assistant::manifest::{
    build_manifest, build_rewrite_manifest, manifest_from_bytes, manifest_text,
    rewrite_manifest_text,
};
use archive_assistant::member::NestedMode;
use archive_assistant::mtime::bump_mtime;
use archive_assistant::pdf::{
    is_pdf_name, pdf_has_ocrmypdf_stamp, pdf_has_text, pdf_is_encrypted, ENCRYPT_TAIL,
};
use archive_assistant::rewrite::{needs_rewrite, RewriteAction, RewriteEnd, Rewriter, ZipEntry};
use archive_assistant::state::{is_current, record};

fn pdf_config() -> Config {
    Config {
        exclude: vec![],
        processor: vec![ProcessorRule {
            pattern: "*.pdf".to_owned(),
            chain: vec![],
            shell: Some("cat".to_owned()),
            io: IoMode::StdinStdout,
        }],
    }
}

fn shown(args: &[CommandArg]) -> String {
    let words: Vec<&str> = args
        .iter()
        .map(|a| match a {
            CommandArg::Input => "IN",
            CommandArg::Output => "OUT",
            CommandArg::Config => "CONFIG",
            CommandArg::Text(s) => s.as_str(),
        })
        .collect();
    words.join(" ")
}

/// `2026-01-02T03:04:05Z` and the like.
fn looks_like_a_time(s: &str) -> bool {
    s.len() == 20
        && s.char_indices().all(|(i, c)| match i {
            4 | 7 => c == '-',
            10 => c == 'T',
            13 | 16 => c == ':',
            19 => c == 'Z',
            _ => c.is_ascii_digit(),
        })
}

#[test]
fn nested_commands() {
    assert_eq!(shown(&build_self_cmd(false, false, true, NestedMode::Repack)), "IN --output OUT --nested repack");
    assert_eq!(
        shown(&build_self_cmd(true, true, false, NestedMode::Flatten)),
        "IN --output OUT --config CONFIG --write-manifest --no-process-members --nested flatten"
    );
    assert_eq!(
        shown(&build_self_cmd(false, true, true, NestedMode::Passthrough)),
        "IN --output OUT --write-manifest --nested passthrough"
    );
}

#[test]
fn tree_commands() {
    assert_eq!(
        shown(&build_repack_cmd(false, true, false)),
        "IN --output OUT --write-manifest --no-progress"
    );
    assert_eq!(
        shown(&build_repack_cmd(true, false, true)),
        "IN --output OUT --write-manifest --config CONFIG --no-process-members --no-progress --verbose"
    );
}

#[test]
fn workers() {
    assert_eq!(worker_count(Some(7), 2), 7);
    assert_eq!(worker_count(Some(0), 2), 0);
    assert_eq!(worker_count(None, 9), 4);
    assert_eq!(worker_count(None, 1), 1);
    assert_eq!(worker_count(None, 0), 1);
}

#[test]
fn files_of_the_tree() {
    assert_eq!(plan_path("d/a.7z", false, false, false), PathAction::Archive);
    assert_eq!(plan_path("d/a.7z", true, false, false), PathAction::Skip);
    assert_eq!(plan_path("d/a.7z", false, true, false), PathAction::Skip);
    assert_eq!(plan_path("d/a.7z", false, false, true), PathAction::Archive);
    assert_eq!(plan_path("d/a.pdf", false, false, false), PathAction::File);
    assert_eq!(plan_path("d/a.pdf", false, true, false), PathAction::File);
    assert_eq!(plan_path("d/a.pdf", false, false, true), PathAction::Skip);
    assert_eq!(plan_path("d/a.pdf", true, false, false), PathAction::Skip);
}

#[test]
fn archives_of_the_tree() {
    assert_eq!(plan_archive("a.zip", true, false), ArchiveAction::AlreadyProcessed);
    assert_eq!(plan_archive("a.zip", true, true), ArchiveAction::AlreadyProcessed);
    assert_eq!(plan_archive("a.zip", false, false), ArchiveAction::Repack);
    assert_eq!(plan_archive("a.7z", true, false), ArchiveAction::Repack);
    assert_eq!(plan_archive("a.7z", false, true), ArchiveAction::DryRun);
    assert!(removes_original("a.7z") && removes_original("a.tar.gz") && removes_original("a.ZIP"));
    assert!(!removes_original("a.zip"));
}

#[test]
fn after_repacking() {
    let end = |remove_original| ArchiveEnd {
        remove_original,
        move_mtime: true,
        remember: Remember::AsLeft,
    };
    assert_eq!(settle_archive(RepackRun::Succeeded, "a.7z"), Ok(end(true)));
    assert_eq!(settle_archive(RepackRun::Succeeded, "a.zip"), Ok(end(false)));
    assert_eq!(settle_archive(RepackRun::Failed, "a.7z"), Err(ArchiveError::RepackFailed));
    assert_eq!(settle_archive(RepackRun::NotStarted, "a.7z"), Err(ArchiveError::NotStarted));
}

/// What becomes of a file, given which of the checks hit.
fn settled(filename: &str, hits: &[PdfCheck], dry_run: bool) -> FileAction {
    let mut action = plan_file(&pdf_config(), filename, dry_run);
    while let FileAction::Check { rule, check } = action {
        action = answer_check(rule, check, hits.contains(&check), dry_run);
    }
    action
}

#[test]
fn checks_of_a_pdf() {
    let (enc, text, stamp) = (PdfCheck::Encrypted, PdfCheck::HasText, PdfCheck::Stamped);
    assert_eq!(settled("a.txt", &[enc, text, stamp], false), FileAction::Ignore);
    assert_eq!(settled("a.pdf", &[], false), FileAction::Apply { rule: 0 });
    assert_eq!(settled("a.pdf", &[], true), FileAction::DryRun { rule: 0 });
    assert_eq!(settled("a.pdf", &[stamp], true), FileAction::Skip { check: stamp });
    assert_eq!(settled("a.pdf", &[stamp, text], false), FileAction::Skip { check: text });
    assert_eq!(settled("a.pdf", &[stamp, text, enc], false), FileAction::Skip { check: enc });
    assert_eq!(
        plan_file(&pdf_config(), "a.pdf", false),
        FileAction::Check { rule: 0, check: enc }
    );
    assert_eq!(answer_check(3, enc, false, false), FileAction::Check { rule: 3, check: text });
    assert_eq!(answer_check(3, text, false, false), FileAction::Check { rule: 3, check: stamp });
    let mut any = pdf_config();
    any.processor[0].pattern = "*".to_owned();
    assert_eq!(plan_file(&any, "a.txt", false), FileAction::Apply { rule: 0 });
    assert_eq!(plan_file(&any, "a.txt", true), FileAction::DryRun { rule: 0 });
    assert!(matches!(plan_file(&any, "a.PDF", true), FileAction::Check { .. }));
}

#[test]
fn what_is_recorded() {
    assert_eq!(FileAction::Ignore.remember(), Remember::Nothing);
    assert_eq!(FileAction::DryRun { rule: 0 }.remember(), Remember::Nothing);
    assert_eq!(FileAction::Skip { check: PdfCheck::HasText }.remember(), Remember::AsFound);
    assert_eq!(ArchiveAction::AlreadyProcessed.remember(), Remember::AsFound);
    assert_eq!(ArchiveAction::DryRun.remember(), Remember::Nothing);
    assert_eq!(ArchiveAction::Repack.remember(), Remember::Nothing);
    let end = settle_file(ProcessResult::Modified(b"x".to_vec()));
    assert_eq!((end.data, end.remember), (Some(b"x".to_vec()), Remember::AsLeft));
    let end = settle_file(ProcessResult::Unchanged);
    assert_eq!((end.data, end.remember), (None, Remember::AsFound));
}

#[test]
fn stamps_and_encryption() {
    assert!(is_pdf_name("a.pdf") && is_pdf_name("x.PdF") && is_pdf_name(".pdf"));
    assert!(!is_pdf_name("pdf") && !is_pdf_name("a.pdfx"));
    assert!(pdf_has_ocrmypdf_stamp(b"xx OCRmyPDF 16"));
    assert!(pdf_has_ocrmypdf_stamp(b"ocrmypdf"));
    assert!(!pdf_has_ocrmypdf_stamp(b"ocrmypd"));
    assert!(!pdf_has_ocrmypdf_stamp(b""));
    assert!(pdf_is_encrypted(b"/Encrypt"));
    assert!(!pdf_is_encrypted(b"/Encryp"));

    let mut data = b"/Encrypt".to_vec();
    data.resize(ENCRYPT_TAIL, b' ');
    assert!(pdf_is_encrypted(&data));
    data.push(b' ');
    assert!(!pdf_is_encrypted(&data));
    data.extend_from_slice(b"trailer /Encrypt 5 0 R");
    assert!(pdf_is_encrypted(&data));
    assert_eq!(pdf_is_encrypted(&data[data.len() - ENCRYPT_TAIL..]), pdf_is_encrypted(&data));
}

#[test]
fn extracted_text() {
    assert!(!pdf_has_text(b"") && !pdf_has_text(b" \t\r\n\x0c"));
    assert!(pdf_has_text(b"\x0cx\n") && pdf_has_text(b"\x0b") && pdf_has_text(b"\xc2\xa0"));
    for b in 0u8..=255 {
        assert_eq!(pdf_has_text(&[b]), !b.is_ascii_whitespace());
    }
}

#[test]
fn manifest_wording() {
    let names = vec!["a.pdf".to_owned(), "d/ü.pdf".to_owned()];
    let entry = "archive-assistant v0.1.0\nprocessed: T\nmodified: a.pdf\nmodified: d/ü.pdf\n";
    assert_eq!(manifest_text(None, &names, "T"), entry);
    assert_eq!(manifest_text(Some("old \n\n"), &names, "T"), format!("old\n---\n{}", entry));
    assert_eq!(manifest_text(Some(""), &[], "T"), "\n---\narchive-assistant v0.1.0\nprocessed: T\n");
    assert_eq!(rewrite_manifest_text(&names, None, "T"), entry);
    assert_eq!(
        rewrite_manifest_text(&names, Some("7z"), "T"),
        format!("{}converted-from: 7z\n", entry)
    );
}

#[test]
fn manifest_of_the_moment() {
    for text in [build_manifest(None, &[]), build_rewrite_manifest(&[], None)] {
        let time = text.strip_prefix("archive-assistant v0.1.0\nprocessed: ").unwrap();
        assert!(looks_like_a_time(time.strip_suffix('\n').unwrap()), "{}", text);
    }
    assert!(build_manifest(Some("p"), &["m".to_owned()]).starts_with("p\n---\narchive-assistant v"));
}

#[test]
fn manifest_bytes() {
    assert_eq!(manifest_from_bytes("grün\n".as_bytes()), "grün\n");
    assert_eq!(manifest_from_bytes(b"a\xffb"), "a\u{fffd}b");
}

#[test]
fn modification_times() {
    assert_eq!(bump_mtime(0), 60);
    assert_eq!(bump_mtime(1_700_000_000), 1_700_000_060);
}

#[test]
fn remembered_files() {
    assert!(!is_current(None, 5));
    let row = record(5, 9);
    assert_eq!((row.mtime, row.processed_at), (5, 9));
    assert!(is_current(Some(row.mtime), 5));
    assert!(!is_current(Some(row.mtime), 6));
    let far = record(u64::MAX, 0);
    assert_eq!(far.mtime, -1);
    assert!(is_current(Some(far.mtime), u64::MAX));
    assert!(!is_current(Some(far.mtime), 0));
    assert_eq!(record(1 << 63, 0).mtime, i64::MIN);
}

#[test]
fn rewriting_keeps_what_it_must() {
    assert!(needs_rewrite(false, false) && needs_rewrite(true, true) && needs_rewrite(false, true));
    assert!(!needs_rewrite(true, false));

    let config = pdf_config();
    assert!(matches!(
        Rewriter::plan(&config, false, "archive-assistant.txt", false),
        RewriteAction::DropManifest
    ));
    assert!(matches!(Rewriter::plan(&config, false, "d.pdf/", true), RewriteAction::KeepDirectory));
    assert!(matches!(Rewriter::plan(&config, false, "d/a.txt", false), RewriteAction::Keep));
    assert!(matches!(
        Rewriter::plan(&config, true, "d/a.pdf", false),
        RewriteAction::WouldProcess { rule: 0 }
    ));
    match Rewriter::plan(&config, false, "d/a.pdf", false) {
        RewriteAction::Process { rule, filename } => assert_eq!((rule, filename.as_str()), (0, "a.pdf")),
        other => panic!("{:?}", other),
    }

    let mut zip = Rewriter::new();
    assert_eq!(zip.finish(false), RewriteEnd::Unchanged);
    assert_eq!(zip.finish(true), RewriteEnd::Unchanged);
    zip.keep("d/", vec![]);
    zip.keep("d/a.txt", b"t".to_vec());
    zip.settle("d/b.pdf", b"b".to_vec(), ProcessResult::Unchanged);
    assert_eq!(zip.finish(false), RewriteEnd::Unchanged);
    zip.settle("d/a.pdf", b"a".to_vec(), ProcessResult::Modified(b"A".to_vec()));
    assert_eq!(zip.finish(false), RewriteEnd::Write);
    assert_eq!(zip.finish(true), RewriteEnd::DryRun);
    let out = zip.output();
    let names: Vec<&str> = out.iter().map(|e| e.name.as_str()).collect();
    assert_eq!(names, vec!["d/", "d/a.txt", "d/b.pdf", "d/a.pdf", "archive-assistant.txt"]);
    assert_eq!(out[1].data, b"t");
    assert_eq!(out[2].data, b"b");
    assert_eq!(out[3].data, b"A");
    let text = String::from_utf8(out[4].data.clone()).unwrap();
    assert!(text.starts_with("archive-assistant v0.1.0\nprocessed: "));
    assert!(text.ends_with("Z\nmodified: d/a.pdf\n"));
}

#[test]
fn directories_of_a_rewritten_zip() {
    let entry = |name: &str, data: &[u8]| ZipEntry { name: name.to_owned(), data: data.to_vec() };
    assert!(entry("d/", b"").is_directory());
    assert!(!entry("d/", b"x").is_directory());
    assert!(!entry("d", b"").is_directory());
}
