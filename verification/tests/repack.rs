//! Whole repacking runs, on ZIPs in memory. Commands are stood in for by functions.

use archive_assistant::archive::archive_format;
use archive_assistant::args::{Args, ArgsError};
use archive_assistant::config::{Config, IoMode, ProcessorRule};
use archive_assistant::dispatch::{apply_rule, Invocation, ProcessResult, StepOutcome};
use archive_assistant::manifest::MANIFEST_NAME;
use archive_assistant::member::{
    counts_as_progress, dry_run_note, skips_rule, DryRunNote, MemberAction, NestedMode, Repacker,
    RuleOutcome,
};
use archive_assistant::output::{output_name, output_path};
use std::io::{Cursor, Read, Write};
use zip::write::SimpleFileOptions;
use zip::{ZipArchive, ZipWriter};

// Helpers.

fn stored() -> SimpleFileOptions {
    SimpleFileOptions::default().compression_method(zip::CompressionMethod::Stored)
}

fn build_zip(members: &[(&str, &[u8])]) -> Vec<u8> {
    let mut w = ZipWriter::new(Cursor::new(Vec::new()));
    for &(name, data) in members {
        if name.ends_with('/') {
            w.add_directory(name, stored()).unwrap();
        } else {
            w.start_file(name, stored()).unwrap();
            w.write_all(data).unwrap();
        }
    }
    w.finish().unwrap().into_inner()
}

fn read_members(zip: &[u8]) -> Vec<(String, bool, Vec<u8>)> {
    let mut a = ZipArchive::new(Cursor::new(zip.to_vec())).unwrap();
    let mut out = Vec::new();
    for i in 0..a.len() {
        let mut e = a.by_index(i).unwrap();
        let mut data = Vec::new();
        e.read_to_end(&mut data).unwrap();
        out.push((e.name().to_owned(), e.is_dir(), data));
    }
    out
}

fn zip_names(zip: &[u8]) -> Vec<String> {
    read_members(zip).into_iter().filter(|m| !m.1).map(|m| m.0).collect()
}

fn zip_read(zip: &[u8], member: &str) -> Vec<u8> {
    read_members(zip).into_iter().find(|m| m.0 == member).unwrap().2
}

/// Stands in for running a command: two shell expressions, and a command that fails.
fn run_command(inv: &Invocation, data: &[u8]) -> StepOutcome {
    let expr = if inv.program == "sh" { inv.args[1].as_str() } else { "" };
    let stdout = match expr {
        "printf 'MODIFIED'" => Some(b"MODIFIED".to_vec()),
        "cat /tmp/in | tr '[:lower:]' '[:upper:]'" => Some(data.to_ascii_uppercase()),
        _ => None,
    };
    StepOutcome {
        success: stdout.is_some(),
        stdout: stdout.unwrap_or_default(),
        file: Vec::new(),
    }
}

fn process(rule: &ProcessorRule, data: &[u8]) -> Result<ProcessResult, String> {
    let mut run = apply_rule(rule, data).map_err(|e| format!("{:?}", e))?;
    while run.next_step(rule).is_some() {
        let inv = run.invocation(rule, "/tmp/in", "/tmp/out");
        let outcome = run_command(&inv, &run.data);
        run.complete(rule, outcome).map_err(|e| format!("{:?}", e))?;
    }
    Ok(run.finish(data))
}

struct Options {
    config: Config,
    write_manifest: bool,
    nested: NestedMode,
}

struct Driver<'a> {
    options: &'a Options,
    state: Repacker,
    writer: ZipWriter<Cursor<Vec<u8>>>,
    counted: usize,
}

impl<'a> Driver<'a> {
    fn put(&mut self, name: &str, data: &[u8]) {
        self.writer.start_file(name, stored()).unwrap();
        self.writer.write_all(data).unwrap();
    }

    fn perform(&mut self, action: MemberAction, name: &str, data: Vec<u8>) {
        if counts_as_progress(&action) {
            self.counted += 1;
        }
        match action {
            MemberAction::AddDirectory { name } => {
                self.writer.add_directory(name.as_str(), stored()).unwrap();
            }
            MemberAction::TakeManifest => self.state.take_manifest(&data),
            MemberAction::Exclude => {}
            MemberAction::CopyThrough { name } => self.put(&name, &data),
            MemberAction::Flatten { temp_input, prefix } => {
                assert!(!temp_input.contains('/'));
                for (inner, is_dir, inner_data) in read_members(&data) {
                    let config = &self.options.config;
                    let action = self.state.plan_flattened(config, &prefix, &inner, is_dir);
                    self.perform(action, &inner, inner_data);
                }
            }
            MemberAction::Repack { temp_input, temp_output, zip_name } => {
                assert!(!temp_input.contains('/') && !temp_output.contains('/'));
                let readable = ZipArchive::new(Cursor::new(data.clone())).is_ok();
                let entry = self.state.settle_nested(name, zip_name, readable);
                let content = if entry.repacked { repack(&data, self.options) } else { data };
                self.put(&entry.name, &content);
            }
            MemberAction::Process { rule, filename, name } => {
                let outcome = if skips_rule(&filename, &data) {
                    RuleOutcome::Skipped
                } else {
                    match process(&self.options.config.processor[rule], &data) {
                        Ok(result) => RuleOutcome::Finished(result),
                        Err(_) => RuleOutcome::Failed,
                    }
                };
                let content = self.state.settle_rule(&name, data, outcome);
                self.put(&name, &content);
            }
        }
    }
}

fn run<'a>(input: &[u8], options: &'a Options) -> (Vec<u8>, Repacker, usize) {
    let mut driver = Driver {
        options,
        state: Repacker::new(),
        writer: ZipWriter::new(Cursor::new(Vec::new())),
        counted: 0,
    };
    for (name, is_dir, data) in read_members(input) {
        let action = driver.state.plan_member(&options.config, options.nested, &name, is_dir);
        driver.perform(action, &name, data);
    }
    if let Some(text) = driver.state.finish(options.write_manifest) {
        driver.put(MANIFEST_NAME, text.as_bytes());
    }
    (driver.writer.finish().unwrap().into_inner(), driver.state, driver.counted)
}

fn repack(input: &[u8], options: &Options) -> Vec<u8> {
    run(input, options).0
}

fn no_flags() -> Args {
    Args {
        pattern: None,
        command: None,
        args: Vec::new(),
        io: None,
        shell: None,
        excludes: Vec::new(),
    }
}

fn options(config: Config) -> Options {
    Options { config, write_manifest: false, nested: NestedMode::default() }
}

/// The `exclude` key of a configuration text.
fn config_from(text: &str) -> Config {
    let table: toml::Table = text.parse().unwrap();
    let exclude = table["exclude"].as_array().unwrap();
    Config {
        exclude: exclude.iter().map(|v| v.as_str().unwrap().to_owned()).collect(),
        processor: Vec::new(),
    }
}

/// `--match '*.pdf' --shell "printf 'MODIFIED'" --io stdin-stdout`
fn pdf_rule() -> Config {
    let args = Args {
        pattern: Some("*.pdf".to_owned()),
        shell: Some("printf 'MODIFIED'".to_owned()),
        io: Some(IoMode::StdinStdout),
        ..no_flags()
    };
    args.effective_config(Config::default()).unwrap()
}

fn plain_pdf() -> Vec<u8> {
    b"%PDF-1.4\n%%EOF\n".to_vec()
}

fn encrypted_pdf() -> Vec<u8> {
    let mut v = plain_pdf();
    v.extend_from_slice(b"\n/Encrypt 99 0 R\n");
    v
}

fn ocrd_pdf() -> Vec<u8> {
    let mut v = plain_pdf();
    v.extend_from_slice(b"\n<CreatorTool>OCRmyPDF 16.0</CreatorTool>\n");
    v
}

// Exclusion.

#[test]
fn test_exclude_cli_flags() {
    let input = build_zip(&[
        ("docs/readme.txt", b"hello"),
        (".nuget/packages/foo.dll", b"binary"),
        ("src/main.rs", b"fn main() {}"),
        ("node_modules/index.js", b"module.exports = {}"),
    ]);
    let args = Args {
        excludes: vec!["**/.nuget/**".to_owned(), "**/node_modules/**".to_owned()],
        ..no_flags()
    };
    let config = args.effective_config(Config::default()).unwrap();
    let output = repack(&input, &options(config));

    let names = zip_names(&output);
    assert!(names.contains(&"docs/readme.txt".to_owned()));
    assert!(names.contains(&"src/main.rs".to_owned()));
    assert!(!names.iter().any(|n| n.contains(".nuget")), ".nuget should be excluded");
    assert!(!names.iter().any(|n| n.contains("node_modules")), "node_modules should be excluded");
}

#[test]
fn test_exclude_config_file() {
    let input = build_zip(&[
        ("keep.txt", b"keep me"),
        (".git/config", b"[core]"),
        (".vs/settings.json", b"{}"),
    ]);
    let base = config_from(r#"exclude = ["**/.git/**", "**/.vs/**"]"#);
    let config = no_flags().effective_config(base).unwrap();
    let output = repack(&input, &options(config));

    let names = zip_names(&output);
    assert!(names.contains(&"keep.txt".to_owned()));
    assert!(!names.iter().any(|n| n.contains(".git")), ".git should be excluded");
    assert!(!names.iter().any(|n| n.contains(".vs")), ".vs should be excluded");
}

#[test]
fn test_exclude_config_and_cli_combined() {
    let input = build_zip(&[
        ("keep.txt", b"keep"),
        (".git/HEAD", b"ref: refs/heads/main"),
        ("dist/bundle.js", b"(function(){})()"),
        ("Thumbs.db", b"binary"),
    ]);
    let base = config_from(r#"exclude = ["**/.git/**"]"#);
    let args = Args {
        excludes: vec!["**/dist/**".to_owned(), "Thumbs.db".to_owned()],
        ..no_flags()
    };
    let config = args.effective_config(base).unwrap();
    let output = repack(&input, &options(config));

    let names = zip_names(&output);
    assert!(names.contains(&"keep.txt".to_owned()));
    assert!(!names.iter().any(|n| n.contains(".git")));
    assert!(!names.iter().any(|n| n.contains("dist")));
    assert!(!names.contains(&"Thumbs.db".to_owned()));
}

// PDFs that are left alone.

#[test]
fn test_encrypted_pdf_not_processed() {
    let enc = encrypted_pdf();
    let input = build_zip(&[("doc.pdf", &enc)]);
    let output = repack(&input, &options(pdf_rule()));
    assert_eq!(
        zip_read(&output, "doc.pdf"),
        enc,
        "encrypted PDF should be passed through unchanged"
    );
}

#[test]
fn test_ocrd_pdf_not_processed() {
    let ocrd = ocrd_pdf();
    let input = build_zip(&[("doc.pdf", &ocrd)]);
    let output = repack(&input, &options(pdf_rule()));
    assert_eq!(
        zip_read(&output, "doc.pdf"),
        ocrd,
        "already-OCR'd PDF should be passed through unchanged"
    );
}

#[test]
fn test_plain_pdf_is_processed() {
    let input = build_zip(&[("doc.pdf", &plain_pdf())]);
    let output = repack(&input, &options(pdf_rule()));
    assert_eq!(
        zip_read(&output, "doc.pdf"),
        b"MODIFIED",
        "plain PDF should be processed by the rule"
    );
}

// Nested archives.

#[test]
fn test_nested_passthrough() {
    let inner = build_zip(&[("inner.txt", b"inner content")]);
    let input = build_zip(&[("outer.txt", b"outer content"), ("sub/inner.zip", &inner)]);
    let opts = Options { nested: NestedMode::Passthrough, ..options(Config::default()) };
    let output = repack(&input, &opts);

    let names = zip_names(&output);
    assert!(names.contains(&"outer.txt".to_owned()));
    assert!(names.contains(&"sub/inner.zip".to_owned()), "inner ZIP should be present as-is");

    let inner_bytes = zip_read(&output, "sub/inner.zip");
    assert_eq!(inner_bytes, inner);
    let inner_archive = ZipArchive::new(Cursor::new(inner_bytes)).unwrap();
    assert_eq!(inner_archive.len(), 1, "inner ZIP should have 1 member");
}

#[test]
fn test_nested_flatten() {
    let inner = build_zip(&[("file.txt", b"from inner")]);
    let input = build_zip(&[("sub/inner.zip", &inner)]);
    let opts = Options { nested: NestedMode::Flatten, ..options(Config::default()) };
    let output = repack(&input, &opts);

    let names = zip_names(&output);
    assert!(
        !names.contains(&"sub/inner.zip".to_owned()),
        "inner ZIP should be gone after flatten"
    );
    assert!(
        names.contains(&"sub/inner/file.txt".to_owned()),
        "flattened content should appear"
    );
}

#[test]
fn test_nested_repack() {
    let inner = build_zip(&[("data.txt", b"payload")]);
    let input = build_zip(&[("archive/inner.zip", &inner)]);
    let opts = Options { nested: NestedMode::Repack, ..options(Config::default()) };
    let output = repack(&input, &opts);

    let names = zip_names(&output);
    assert!(
        names.contains(&"archive/inner.zip".to_owned()),
        "repacked inner ZIP should be present"
    );

    let inner_bytes = zip_read(&output, "archive/inner.zip");
    let inner_archive = ZipArchive::new(Cursor::new(inner_bytes)).unwrap();
    assert_eq!(inner_archive.len(), 1);
}

// Manifest.

#[test]
fn test_manifest_written() {
    let input = build_zip(&[("a.txt", b"hello")]);
    let opts = Options { write_manifest: true, ..options(Config::default()) };
    let output = repack(&input, &opts);

    let names = zip_names(&output);
    assert!(names.contains(&"archive-assistant.txt".to_owned()));

    let text = String::from_utf8(zip_read(&output, "archive-assistant.txt")).unwrap();
    assert!(text.contains("archive-assistant v"), "manifest should contain version");
    assert!(text.contains("processed:"), "manifest should contain timestamp");
}

#[test]
fn test_manifest_appended() {
    let prior = "archive-assistant v0.0.1\nprocessed: 2026-01-01T00:00:00Z\n";
    let input = build_zip(&[("a.txt", b"hello"), ("archive-assistant.txt", prior.as_bytes())]);
    let opts = Options { write_manifest: true, ..options(Config::default()) };
    let output = repack(&input, &opts);

    let text = String::from_utf8(zip_read(&output, "archive-assistant.txt")).unwrap();
    assert!(text.contains("2026-01-01T00:00:00Z"), "prior manifest content should be preserved");
    assert!(text.contains("---"), "runs should be separated by ---");
    assert_eq!(text.matches("processed:").count(), 2, "should have two processed: entries");
}

#[test]
fn test_manifest_preserved_without_flag() {
    let prior = "archive-assistant v0.0.1\nprocessed: 2026-01-01T00:00:00Z\n";
    let input = build_zip(&[("a.txt", b"hello"), ("archive-assistant.txt", prior.as_bytes())]);
    let output = repack(&input, &options(Config::default()));
    assert!(
        zip_names(&output).contains(&"archive-assistant.txt".to_owned()),
        "manifest should be preserved even without --write-manifest"
    );
}

// Versioned output names.

/// The default output for an input in a directory that holds the given files.
fn default_output(input: &str, present: &[&str]) -> String {
    output_path(input, None, |p| present.contains(&p)).unwrap()
}

#[test]
fn test_versioned_output_initial() {
    let made = default_output("/tmp/x/foo.zip", &["/tmp/x/foo.zip"]);
    assert_eq!(made, "/tmp/x/foo.2.zip", "foo.2.zip should be created");
    assert!(made != "/tmp/x/foo.zip.zip");
}

#[test]
fn test_versioned_output_increments() {
    let made = default_output("/tmp/x/foo.2.zip", &["/tmp/x/foo.2.zip"]);
    assert_eq!(made, "/tmp/x/foo.3.zip", "foo.3.zip should be created");
    assert!(made != "/tmp/x/foo.2.2.zip", "foo.2.2.zip must not be created");
}

#[test]
fn test_versioned_output_skips_existing() {
    let made = default_output("/tmp/x/foo.zip", &["/tmp/x/foo.zip", "/tmp/x/foo.2.zip"]);
    assert_eq!(
        made, "/tmp/x/foo.3.zip",
        "foo.3.zip should be created when foo.2.zip exists"
    );
}

// More on whole runs.

#[test]
fn unconfigured_run_copies_everything() {
    let inner = build_zip(&[("i.txt", b"i")]);
    let members: Vec<(&str, &[u8])> =
        vec![("d/", b""), ("d/a.txt", b"a"), ("d/n.zip", &inner), ("b.pdf", b"%PDF"), ("e", b"")];
    let input = build_zip(&members);
    let (output, state, counted) = run(&input, &options(Config::default()));
    assert_eq!(read_members(&output), read_members(&input));
    assert!(state.modified.is_empty());
    assert_eq!(counted, 4);
}

#[test]
fn excluded_members_count_but_leave_nothing() {
    let input = build_zip(&[("a.txt", b"a"), ("b.tmp", b"b"), ("c.txt", b"c")]);
    let config = Config { exclude: vec!["*.tmp".to_owned()], processor: Vec::new() };
    let (output, _, counted) = run(&input, &options(config));
    assert_eq!(zip_names(&output), vec!["a.txt", "c.txt"]);
    assert_eq!(counted, 3);
}

#[test]
fn manifest_is_not_counted_and_comes_last() {
    let input = build_zip(&[("archive-assistant.txt", b"old\n"), ("a.txt", b"a")]);
    let (output, _, counted) = run(&input, &options(Config::default()));
    assert_eq!(zip_names(&output), vec!["a.txt", "archive-assistant.txt"]);
    assert_eq!(counted, 1);
}

#[test]
fn manifest_cannot_be_excluded_or_processed() {
    let input = build_zip(&[("archive-assistant.txt", b"old\n"), ("a.txt", b"a")]);
    let mut config = pdf_rule();
    config.processor[0].pattern = "*".to_owned();
    config.exclude.push("archive-assistant.txt".to_owned());
    let (output, state, _) = run(&input, &options(config));
    let text = String::from_utf8(zip_read(&output, MANIFEST_NAME)).unwrap();
    assert!(text.starts_with("old\n---\narchive-assistant v0.1.0\nprocessed: "));
    assert!(text.ends_with("Z\nmodified: a.txt\n"));
    assert_eq!(state.modified, vec!["a.txt"]);
}

#[test]
fn manifest_of_a_nested_archive_is_a_plain_file() {
    let inner = build_zip(&[("archive-assistant.txt", b"inner")]);
    let input = build_zip(&[("n.zip", &inner)]);
    let opts = Options { nested: NestedMode::Flatten, ..options(Config::default()) };
    let output = repack(&input, &opts);
    assert_eq!(zip_names(&output), vec!["n/archive-assistant.txt"]);
    assert_eq!(zip_read(&output, "n/archive-assistant.txt"), b"inner");
}

#[test]
fn several_runs_keep_their_history() {
    let opts = Options { write_manifest: true, ..options(Config::default()) };
    let mut zip = build_zip(&[("a.txt", b"a")]);
    let mut earlier = String::new();
    for n in 1..4 {
        zip = repack(&zip, &opts);
        let text = String::from_utf8(zip_read(&zip, MANIFEST_NAME)).unwrap();
        assert_eq!(text.matches("processed:").count(), n);
        assert!(text.starts_with(earlier.trim_end()));
        assert_eq!(zip_names(&zip), vec!["a.txt", MANIFEST_NAME]);
        earlier = text;
    }
}

#[test]
fn failed_rule_keeps_the_original() {
    let input = build_zip(&[("a.txt", b"a")]);
    let args = Args { command: Some("false".to_owned()), ..no_flags() };
    let config = args.effective_config(Config::default()).unwrap();
    let (output, state, _) = run(&input, &options(config));
    assert_eq!(zip_read(&output, "a.txt"), b"a");
    assert!(state.modified.is_empty());
}

#[test]
fn unchanged_member_is_not_listed() {
    let input = build_zip(&[("a.pdf", b"MODIFIED"), ("b.pdf", b"x"), ("c.txt", b"y")]);
    let (output, state, _) = run(&input, &options(pdf_rule()));
    assert_eq!(zip_read(&output, "a.pdf"), b"MODIFIED");
    assert_eq!(zip_read(&output, "b.pdf"), b"MODIFIED");
    assert_eq!(zip_read(&output, "c.txt"), b"y");
    assert_eq!(state.modified, vec!["b.pdf"]);
}

#[test]
fn only_pdfs_are_looked_into() {
    assert!(skips_rule("a.PDF", b"x /Encrypt y"));
    assert!(skips_rule("a.pdf", b"x oCrMyPdF y"));
    assert!(!skips_rule("a.txt", b"x /Encrypt y"));
    assert!(!skips_rule("a.txt", b"x oCrMyPdF y"));
    assert!(!skips_rule("a.pdf", b"x /encrypt y"));

    let config = Config {
        exclude: Vec::new(),
        processor: vec![ProcessorRule {
            pattern: "*.txt".to_owned(),
            chain: Vec::new(),
            shell: Some("cat {input} | tr '[:lower:]' '[:upper:]'".to_owned()),
            io: IoMode::StdinStdout,
        }],
    };
    let input = build_zip(&[("notes.txt", b"see ocrmypdf")]);
    let (output, state, _) = run(&input, &options(config));
    assert_eq!(zip_read(&output, "notes.txt"), b"SEE OCRMYPDF");
    assert_eq!(state.modified, vec!["notes.txt"]);
}

#[test]
fn flattening_goes_all_the_way_down() {
    let deepest = build_zip(&[("x.pdf", b"x")]);
    let deep = build_zip(&[("e/", b""), ("e/deepest.tar.zip", &deepest), ("skip.me", b"s")]);
    let input = build_zip(&[("s/deep.zip", &deep), ("top.txt", b"t")]);
    let mut config = pdf_rule();
    config.exclude.push("s/deep/skip.me".to_owned());
    let opts = Options { nested: NestedMode::Flatten, ..options(config) };
    let (output, state, counted) = run(&input, &opts);
    let names: Vec<String> = read_members(&output).into_iter().map(|m| m.0).collect();
    assert_eq!(names, vec!["s/deep/e/", "s/deep/e/deepest.tar/x.pdf", "top.txt"]);
    assert_eq!(zip_read(&output, "s/deep/e/deepest.tar/x.pdf"), b"MODIFIED");
    assert_eq!(state.modified, vec!["s/deep/e/deepest.tar/x.pdf"]);
    assert_eq!(state.tmp_counter, 2);
    assert_eq!(counted, 5);
}

#[test]
fn repacking_a_nested_archive() {
    let mut state = Repacker::new();
    let config = Config::default();
    let action = state.plan_member(&config, NestedMode::Repack, "a/b.tar.gz", false);
    match action {
        MemberAction::Repack { temp_input, temp_output, zip_name } => {
            assert_eq!(temp_input, "1-b.tar.gz");
            assert_eq!(temp_output, "1-b.zip");
            assert_eq!(zip_name, "a/b.zip");
            let done = state.settle_nested("a/b.tar.gz", zip_name.clone(), true);
            assert_eq!((done.name.as_str(), done.repacked), ("a/b.zip", true));
            assert_eq!(state.modified, vec!["a/b.tar.gz"]);
            let failed = state.settle_nested("a/b.tar.gz", zip_name, false);
            assert_eq!((failed.name.as_str(), failed.repacked), ("a/b.tar.gz", false));
            assert_eq!(state.modified.len(), 1);
        }
        other => panic!("{:?}", other),
    }
    let second = state.plan_member(&config, NestedMode::Flatten, "c.7z", false);
    match second {
        MemberAction::Flatten { temp_input, prefix } => {
            assert_eq!(temp_input, "2-c.7z");
            assert_eq!(prefix, "c/");
        }
        other => panic!("{:?}", other),
    }
}

#[test]
fn broken_nested_archive_stays_as_it_is() {
    let input = build_zip(&[("n.7z", b"not an archive")]);
    let opts = Options { nested: NestedMode::Repack, ..options(Config::default()) };
    let (output, state, _) = run(&input, &opts);
    assert_eq!(zip_names(&output), vec!["n.7z"]);
    assert_eq!(zip_read(&output, "n.7z"), b"not an archive");
    assert!(state.modified.is_empty());
}

#[test]
fn dry_run_says_what_would_happen() {
    let mut config = pdf_rule();
    config.exclude.push("x/*".to_owned());
    let note = |name: &str, nested, is_dir| dry_run_note(&config, nested, name, is_dir);
    assert!(matches!(note("d/", NestedMode::Repack, true), DryRunNote::Nothing));
    assert!(matches!(note("x/a.pdf", NestedMode::Repack, false), DryRunNote::WouldExclude));
    assert!(matches!(note("a.zip", NestedMode::Repack, false), DryRunNote::WouldRepack));
    assert!(matches!(note("a.zip", NestedMode::Flatten, false), DryRunNote::WouldFlatten));
    assert!(matches!(note("a.zip", NestedMode::Passthrough, false), DryRunNote::WouldPassThrough));
    assert!(matches!(note("d/a.pdf", NestedMode::Repack, false), DryRunNote::WouldApply { rule: 0 }));
    assert!(matches!(note("a.txt", NestedMode::Repack, false), DryRunNote::Nothing));
}

#[test]
fn versions_of_odd_names() {
    let free = |_: &str| false;
    assert_eq!(output_name("a.tar.gz", free).unwrap(), "a.zip");
    assert_eq!(output_name("a.zip", free).unwrap(), "a.2.zip");
    assert_eq!(output_name("a.b.zip", free).unwrap(), "a.b.2.zip");
    assert_eq!(output_name("a.+7.zip", free).unwrap(), "a.8.zip");
    assert_eq!(output_name("a.007.zip", free).unwrap(), "a.8.zip");
    assert_eq!(output_name("7.zip", free).unwrap(), "7.2.zip");
    assert_eq!(output_name("a.ZIP", free).unwrap(), "a.zip");
    assert_eq!(output_name("a.4294967294.zip", free).unwrap(), "a.4294967295.zip");
    assert_eq!(output_name("a.4294967296.zip", free).unwrap(), "a.4294967296.2.zip");
    assert!(output_name("a.4294967295.zip", free).is_none());
    assert_eq!(output_path("d/a.zip", Some("/o.zip"), free).unwrap(), "/o.zip");
    assert_eq!(output_path("a.zip", None, free).unwrap(), "a.2.zip");
}

#[test]
fn flags_without_a_command_are_refused() {
    let refused = |a: Args| matches!(a.effective_config(Config::default()), Err(ArgsError::NoInlineAction));
    assert!(refused(Args { pattern: Some("*".to_owned()), ..no_flags() }));
    assert!(refused(Args { io: Some(IoMode::InPlace), ..no_flags() }));
    assert!(refused(Args { args: vec!["x".to_owned()], ..no_flags() }));
    assert!(!refused(no_flags()));
    assert_eq!(
        ArgsError::NoInlineAction.message(),
        "--match, --arg, and --io require either --command or --shell"
    );
}

#[test]
fn members_do_not_influence_each_other() {
    let first: Vec<(&str, &[u8])> = vec![("a.pdf", b"a"), ("b.txt", b"b")];
    let second: Vec<(&str, &[u8])> = vec![("c.pdf", b"c"), ("d/", b""), ("x.tmp", b"x")];
    let mut config = pdf_rule();
    config.exclude.push("*.tmp".to_owned());
    let opts = options(config);
    let all: Vec<(&str, &[u8])> = first.iter().chain(second.iter()).cloned().collect();
    let (one, one_state, _) = run(&build_zip(&first), &opts);
    let (two, two_state, _) = run(&build_zip(&second), &opts);
    let (both, both_state, _) = run(&build_zip(&all), &opts);
    let mut members = read_members(&one);
    members.extend(read_members(&two));
    assert_eq!(read_members(&both), members);
    let mut modified = one_state.modified;
    modified.extend(two_state.modified);
    assert_eq!(both_state.modified, modified);
    assert_eq!(modified, vec!["a.pdf", "c.pdf"]);
}

#[test]
fn nested_archive_without_a_stem() {
    let mut state = Repacker::new();
    let config = Config::default();
    match state.plan_member(&config, NestedMode::Repack, "d/.tar.gz", false) {
        MemberAction::Repack { temp_input, temp_output, zip_name } => {
            assert_eq!((temp_input.as_str(), temp_output.as_str()), ("1-.tar.gz", "1-.zip"));
            assert_eq!(zip_name, "d/.zip");
        }
        other => panic!("{:?}", other),
    }
    match state.plan_member(&config, NestedMode::Flatten, ".zip", false) {
        MemberAction::Flatten { temp_input, prefix } => {
            assert_eq!((temp_input.as_str(), prefix.as_str()), ("2-.zip", ".zip/"));
            assert!(archive_format(&temp_input).is_some());
        }
        other => panic!("{:?}", other),
    }
}

#[test]
fn processed_member_is_left_alone_next_time() {
    let ocr = Config {
        exclude: Vec::new(),
        processor: vec![ProcessorRule {
            pattern: "*.pdf".to_owned(),
            chain: Vec::new(),
            shell: Some("printf 'MODIFIED'".to_owned()),
            io: IoMode::StdinStdout,
        }],
    };
    let mut stamped = b"xx".to_vec();
    stamped.extend_from_slice(&ocrd_pdf());
    stamped.extend_from_slice(b"yy");
    let (output, state, _) = run(&build_zip(&[("a.pdf", &stamped)]), &options(ocr));
    assert_eq!(zip_read(&output, "a.pdf"), stamped);
    assert!(state.modified.is_empty());
}

#[test]
fn flattened_members_keep_their_order_and_content() {
    let inner = build_zip(&[
        ("z.txt", b"z"),
        ("d/", b""),
        ("d/a.pdf", b"a"),
        ("gone.tmp", b"t"),
        ("d/b.pdf", &ocrd_pdf()),
    ]);
    let input = build_zip(&[("first.txt", b"1"), ("s/n.zip", &inner), ("last.txt", b"2")]);
    let mut config = pdf_rule();
    config.exclude.push("s/n/*.tmp".to_owned());
    let opts = Options { nested: NestedMode::Flatten, ..options(config) };
    let (output, state, _) = run(&input, &opts);
    let file = |name: &str, data: &[u8]| (name.to_owned(), false, data.to_vec());
    assert_eq!(
        read_members(&output),
        vec![
            file("first.txt", b"1"),
            file("s/n/z.txt", b"z"),
            ("s/n/d/".to_owned(), true, Vec::new()),
            file("s/n/d/a.pdf", b"MODIFIED"),
            file("s/n/d/b.pdf", &ocrd_pdf()),
            file("last.txt", b"2"),
        ]
    );
    assert_eq!(state.modified, vec!["s/n/d/a.pdf"]);
}
