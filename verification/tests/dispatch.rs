//! Rules, patterns and the commands that rules run.

use archive_assistant::args::Args;
use archive_assistant::config::{ChainStep, Config, IoMode, ProcessorRule};
use archive_assistant::dispatch::{
    apply_rule, apply_shell, chain_context, check_status, expand_args, extension_from,
    failure_message, file_to_read, no_action_message, run_step, DispatchError, ProcessResult,
    ResultSource, StepOutcome, TempFile,
};
use archive_assistant::pattern::glob_match;

fn step(command: &str, args: &[&str], io: IoMode) -> ChainStep {
    ChainStep {
        command: command.to_owned(),
        args: args.iter().map(|a| a.to_string()).collect(),
        io,
    }
}

fn chain(pattern: &str, steps: Vec<ChainStep>) -> ProcessorRule {
    ProcessorRule { pattern: pattern.to_owned(), chain: steps, shell: None, io: IoMode::InPlace }
}

fn shell(expr: &str, io: IoMode) -> ProcessorRule {
    ProcessorRule {
        pattern: "*".to_owned(),
        chain: vec![step("unused", &[], IoMode::InPlace)],
        shell: Some(expr.to_owned()),
        io,
    }
}

fn done(stdout: &[u8], file: &[u8]) -> StepOutcome {
    StepOutcome { success: true, stdout: stdout.to_vec(), file: file.to_vec() }
}

#[test]
fn patterns() {
    assert!(glob_match("*.pdf", "a.pdf") && glob_match("*", "") && glob_match("a?c", "abc"));
    assert!(glob_match("**/.git/**", ".git/config") && glob_match("x/*", "x/y/z"));
    assert!(glob_match("[a-c].txt", "b.txt") && glob_match("Thumbs.db", "Thumbs.db"));
    assert!(!glob_match("*.pdf", "a.PDF"));
    assert!(!glob_match("[", "[") && !glob_match("***", "a") && !glob_match("a**", "ab"));
}

#[test]
fn first_matching_rule_wins() {
    let config = Config {
        exclude: Vec::new(),
        processor: vec![chain("*.txt", vec![]), chain("[", vec![]), chain("a*", vec![]), chain("*", vec![])],
    };
    assert_eq!(config.find_rule_index("b.txt"), Some(0));
    assert_eq!(config.find_rule_index("a.txt"), Some(0));
    assert_eq!(config.find_rule_index("a.pdf"), Some(2));
    assert_eq!(config.find_rule_index("["), Some(3));
    assert_eq!(config.find_rule("b.pdf").unwrap().pattern, "*");
    assert!(Config::default().find_rule("x").is_none());
}

#[test]
fn exclusion_by_whole_path() {
    let config = Config { exclude: vec!["b/*".to_owned(), "c".to_owned()], processor: vec![] };
    assert!(config.is_excluded("b/x") && config.is_excluded("b/x/y") && config.is_excluded("c"));
    assert!(!config.is_excluded("a/b/x") && !config.is_excluded("a/c"));
    assert!(!Config::default().is_excluded("a"));
    let bare = Config { exclude: vec!["c".to_owned()], processor: vec![chain("*", vec![])] }.without_rules();
    assert!(bare.is_excluded("c") && bare.find_rule("x").is_none());
}

#[test]
fn inline_rule_goes_first() {
    let base = Config { exclude: vec!["e".to_owned()], processor: vec![chain("*.png", vec![])] };
    let args = Args {
        pattern: None,
        command: Some("convert".to_owned()),
        args: vec!["{input}".to_owned(), "{output}".to_owned()],
        io: Some(IoMode::FileToFile),
        shell: None,
        excludes: vec!["f".to_owned()],
    };
    let config = args.effective_config(base).unwrap();
    assert_eq!(config.exclude, vec!["e", "f"]);
    assert_eq!(config.processor.len(), 2);
    assert_eq!(config.find_rule_index("a.png"), Some(0));
    let rule = &config.processor[0];
    assert_eq!((rule.pattern.as_str(), rule.io), ("*", IoMode::InPlace));
    assert_eq!(rule.chain[0].command, "convert");
    assert_eq!(rule.chain[0].args, vec!["{input}", "{output}"]);
    assert_eq!(rule.chain[0].io, IoMode::FileToFile);
    assert!(rule.shell.is_none());
}

#[test]
fn inline_shell_rule() {
    let args = Args {
        pattern: Some("*.txt".to_owned()),
        command: None,
        args: vec!["ignored".to_owned()],
        io: None,
        shell: Some("cat".to_owned()),
        excludes: vec![],
    };
    let config = args.effective_config(Config::default()).unwrap();
    let rule = &config.processor[0];
    assert_eq!(rule.shell.as_deref(), Some("cat"));
    assert!(rule.chain.is_empty());
    assert_eq!((rule.pattern.as_str(), rule.io), ("*.txt", IoMode::InPlace));
}

#[test]
fn extensions_of_file_names() {
    assert_eq!(extension_from("a/b.c.pdf"), "pdf");
    assert_eq!(extension_from(".bashrc"), "");
    assert_eq!(extension_from("a."), "");
}

#[test]
fn placeholders() {
    let args = vec!["-i={input}".to_owned(), "{output}{output}".to_owned(), "{inp".to_owned()];
    assert_eq!(expand_args(&args, "/I", "/O"), vec!["-i=/I", "/O/O", "{inp"]);
    // The path of the input is itself searched for `{output}`.
    assert_eq!(expand_args(&["{input}".to_owned()], "/{output}", "/O"), vec!["//O"]);
}

#[test]
fn commands_of_the_four_modes() {
    let args = ["{input}", "{output}"];
    let inv = run_step(&step("c", &args, IoMode::InPlace), "/i", "/o");
    assert_eq!((inv.program.as_str(), inv.args), ("c", vec!["/i".to_owned(), "/i".to_owned()]));
    assert_eq!((inv.feed_stdin, inv.keep_stdout, inv.result), (false, false, ResultSource::InputFile));
    let inv = run_step(&step("c", &args, IoMode::FileToFile), "/i", "/o");
    assert_eq!(inv.args, vec!["/i", "/o"]);
    assert_eq!((inv.feed_stdin, inv.keep_stdout, inv.result), (false, false, ResultSource::OutputFile));
    let inv = run_step(&step("c", &args, IoMode::FileToStdout), "/i", "/o");
    assert_eq!(inv.args, vec!["/i", "/i"]);
    assert_eq!((inv.feed_stdin, inv.keep_stdout, inv.result), (false, true, ResultSource::Stdout));
    let inv = run_step(&step("c", &args, IoMode::StdinStdout), "/i", "/o");
    assert_eq!(inv.args, vec!["{input}", "{output}"]);
    assert_eq!((inv.feed_stdin, inv.keep_stdout, inv.result), (true, true, ResultSource::Stdout));
}

#[test]
fn shell_expressions() {
    let inv = apply_shell("cat {input} {output}", IoMode::StdinStdout, "/i");
    assert_eq!((inv.program.as_str(), inv.args), ("sh", vec!["-c".to_owned(), "cat /i {output}".to_owned()]));
    assert_eq!((inv.feed_stdin, inv.keep_stdout, inv.result), (true, true, ResultSource::Stdout));
    let inv = apply_shell("x", IoMode::FileToStdout, "/i");
    assert_eq!((inv.feed_stdin, inv.keep_stdout, inv.result), (false, true, ResultSource::Stdout));
    for io in [IoMode::InPlace, IoMode::FileToFile] {
        let inv = apply_shell("x", io, "/i");
        assert_eq!((inv.feed_stdin, inv.keep_stdout), (false, true));
        assert_eq!(inv.result, ResultSource::StdoutOrInputFile);
    }
}

#[test]
fn where_results_are_read() {
    assert_eq!(file_to_read(ResultSource::InputFile, b"x"), Some(TempFile::Input));
    assert_eq!(file_to_read(ResultSource::OutputFile, b""), Some(TempFile::Output));
    assert_eq!(file_to_read(ResultSource::Stdout, b""), None);
    assert_eq!(file_to_read(ResultSource::StdoutOrInputFile, b""), Some(TempFile::Input));
    assert_eq!(file_to_read(ResultSource::StdoutOrInputFile, b"x"), None);
}

#[test]
fn chain_feeds_each_step_with_the_last_result() {
    let rule = chain(
        "*",
        vec![
            step("one", &["{input}"], IoMode::FileToStdout),
            step("two", &["{output}"], IoMode::FileToFile),
            step("three", &[], IoMode::StdinStdout),
        ],
    );
    let mut run = apply_rule(&rule, b"start").unwrap();
    let files = run.next_step(&rule).unwrap();
    assert_eq!((files.input, files.output), (true, false));
    assert_eq!(run.data, b"start");
    assert_eq!(run.invocation(&rule, "/i", "/o").args, vec!["/i"]);
    run.complete(&rule, done(b"first", b"ignored")).unwrap();
    assert_eq!(run.data, b"first");
    let files = run.next_step(&rule).unwrap();
    assert_eq!((files.input, files.output), (true, true));
    assert_eq!(run.invocation(&rule, "/i", "/o").args, vec!["/o"]);
    run.complete(&rule, done(b"ignored", b"second")).unwrap();
    assert_eq!(run.data, b"second");
    let files = run.next_step(&rule).unwrap();
    assert_eq!((files.input, files.output), (false, false));
    run.complete(&rule, done(b"third", b"")).unwrap();
    assert!(run.next_step(&rule).is_none());
    match run.finish(b"start") {
        ProcessResult::Modified(data) => assert_eq!(data, b"third"),
        ProcessResult::Unchanged => panic!(),
    }
}

#[test]
fn same_result_is_no_change() {
    let rule = chain("*", vec![step("touch", &["{input}"], IoMode::InPlace)]);
    let mut run = apply_rule(&rule, b"same").unwrap();
    run.complete(&rule, done(b"", b"same")).unwrap();
    assert!(matches!(run.finish(b"same"), ProcessResult::Unchanged));
}

#[test]
fn shell_takes_the_place_of_the_chain() {
    let rule = shell("sed -i s/a/b/ {input}", IoMode::InPlace);
    let mut run = apply_rule(&rule, b"a").unwrap();
    let files = run.next_step(&rule).unwrap();
    assert_eq!((files.input, files.output), (true, false));
    assert_eq!(run.invocation(&rule, "/i", "/o").program, "sh");
    run.complete(&rule, done(b"", b"b")).unwrap();
    assert_eq!(run.data, b"b");
    assert!(run.next_step(&rule).is_none());

    let mut run = apply_rule(&rule, b"a").unwrap();
    run.complete(&rule, done(b"out", b"b")).unwrap();
    assert_eq!(run.data, b"out");

    let piped = shell("cat", IoMode::StdinStdout);
    let mut run = apply_rule(&piped, b"a").unwrap();
    run.complete(&piped, done(b"", b"b")).unwrap();
    assert_eq!(run.data, b"");
}

#[test]
fn failure_ends_the_rule() {
    let rule = chain("*", vec![step("a", &[], IoMode::InPlace), step("b", &[], IoMode::InPlace)]);
    let mut run = apply_rule(&rule, b"x").unwrap();
    run.complete(&rule, done(b"", b"y")).unwrap();
    let failed = StepOutcome { success: false, stdout: b"z".to_vec(), file: b"z".to_vec() };
    assert_eq!(run.complete(&rule, failed), Err(DispatchError::CommandFailed { step: 1 }));
    assert_eq!((run.data.as_slice(), run.done), (b"y".as_slice(), 1));
    assert_eq!(check_status(true, 4), Ok(()));
    assert_eq!(check_status(false, 4), Err(DispatchError::CommandFailed { step: 4 }));
    assert_eq!(chain_context(1, "b", "f.pdf"), "chain step 1 (b) failed on 'f.pdf'");
}

#[test]
fn rule_without_an_action() {
    let rule = chain("*.x", vec![]);
    assert!(matches!(apply_rule(&rule, b"x"), Err(DispatchError::NoAction)));
    assert_eq!(
        no_action_message(&rule),
        "processor rule for '*.x' has neither 'chain' nor 'shell'"
    );
}

#[test]
fn alternatives_in_braces() {
    assert!(glob_match("*.{jpg,png}", "a.jpg") && glob_match("*.{jpg,png}", "a.png"));
    assert!(!glob_match("*.{jpg,png}", "a.gif") && !glob_match("*.{jpg,png}", "a.jpg,png"));
    assert!(glob_match("{a,b}{c,d,}", "bd") && glob_match("{a,b}{c,d,}", "a"));
    assert!(!glob_match("{a,b}{c,d,}", "ab"));
    assert!(glob_match("x{1,2{3,4}}", "x1") && glob_match("x{1,2{3,4}}", "x24"));
    assert!(!glob_match("x{1,2{3,4}}", "x2") && !glob_match("x{1,2{3,4}}", "x14"));
    assert!(glob_match("{a}", "{a}") && !glob_match("{a}", "a"));
    assert!(glob_match("a}b{c", "a}b{c") && glob_match("a,b", "a,b"));
    assert!(glob_match("[{,}]", "{") && glob_match("[{,}]", ",") && !glob_match("[{,}]", "x"));
    assert!(glob_match("**/{.git,.vs}/**", "x/.vs/y") && !glob_match("**/{.git,.vs}/**", "x/.gi/y"));
    assert!(glob_match("{[,b}", "b") && !glob_match("{[,b}", "["));

    let config = Config { exclude: vec!["{x,y}/*".to_owned()], processor: vec![chain("*.{jpg,png}", vec![])] };
    assert_eq!(config.find_rule("a.jpg").unwrap().pattern, "*.{jpg,png}");
    assert_eq!(config.find_rule("a.png").unwrap().pattern, "*.{jpg,png}");
    assert!(config.find_rule("a.gif").is_none());
    assert!(config.is_excluded("y/a") && !config.is_excluded("z/a"));
}

#[test]
fn captured_output_counts_even_if_it_is_empty() {
    let rule = shell("true", IoMode::FileToStdout);
    let mut run = apply_rule(&rule, b"abc").unwrap();
    run.complete(&rule, done(b"", b"abc")).unwrap();
    match run.finish(b"abc") {
        ProcessResult::Modified(data) => assert_eq!(data, b""),
        ProcessResult::Unchanged => panic!(),
    }
}

#[test]
fn step_may_signal_no_change() {
    let rule = chain("*", vec![step("a", &[], IoMode::InPlace), step("b", &[], IoMode::InPlace)]);
    let mut run = apply_rule(&rule, b"x").unwrap();
    run.complete(&rule, done(b"", b"y")).unwrap();
    run.signal_no_change(&rule);
    assert!(run.next_step(&rule).is_none());
    assert!(matches!(run.finish(b"x"), ProcessResult::Unchanged));
}

#[test]
fn failures_show_what_the_command_said() {
    assert_eq!(
        failure_message("sh", "exit status: 1", "[\"-c\"]", "42\n"),
        "'sh' exited with exit status: 1: [\"-c\"]\n42"
    );
    assert_eq!(failure_message("x", "signal: 9", "[]", " \n"), "'x' exited with signal: 9: []");
}
