//! Applying a processor rule: which commands run, with what, and where the result comes from.
//!
//! The commands themselves are run by the caller. [`apply_rule`] begins a [`RuleRun`]; as long as
//! [`RuleRun::next_step`] asks for temporary files, the caller makes them, runs what
//! [`RuleRun::invocation`] says and hands the outcome to [`RuleRun::complete`];
//! [`RuleRun::finish`] then tells whether the data changed. The name of the file plays no part in
//! this: it appears in messages only.

use crate::config::{ChainStep, IoMode, ProcessorRule, RuleView, StepView};
use crate::number::{decimal, format_number};
use crate::path::{extension, extension_of, file_name, is_file_name,
    law_file_name_is_the_last_component, lemma_name_of_name, name_of};
use crate::text::{begins_with, clone_texts, ends_with, is_white, law_first_occurrence_is_replaced,
    law_nothing_to_replace, law_trimming_takes_the_end, lemma_last_position,
    lemma_last_position_unique, lemma_replaced_after, lemma_trimmed_end, occurs_at, replace,
    replaced, texts, trim_end, trimmed_end};
use vstd::prelude::*;
use vstd::string::*;

verus! {

/// What became of a file that a rule was applied to.
#[derive(Debug)]
pub enum ProcessResult {
    /// The new content.
    Modified(Vec<u8>),
    /// The rule ran and gave back the same content.
    Unchanged,
}

/// Why a rule could not be applied.
#[derive(Debug, Clone, Copy, PartialEq, Eq, Structural)]
pub enum DispatchError {
    /// The rule has neither a chain nor a shell expression.
    NoAction,
    /// The command of that step did not exit successfully.
    CommandFailed { step: usize },
}

/// Where the result of a command is found.
#[derive(Debug, Clone, Copy, PartialEq, Eq, Structural)]
pub enum ResultSource {
    /// In the input file, which the command modifies.
    InputFile,
    /// In the output file.
    OutputFile,
    /// On standard output.
    Stdout,
    /// On standard output, or, if nothing came there, in the input file.
    StdoutOrInputFile,
}

/// One of the temporary files of a step.
#[derive(Debug, Clone, Copy, PartialEq, Eq, Structural)]
pub enum TempFile {
    Input,
    Output,
}

/// The temporary files that a step needs.
#[derive(Debug)]
pub struct StepFiles {
    /// A file that holds the current data.
    pub input: bool,
    /// An empty file for the output.
    pub output: bool,
}

/// A command to run.
#[derive(Debug)]
pub struct Invocation {
    pub program: String,
    pub args: Vec<String>,
    /// The current data goes to standard input; otherwise nothing does.
    pub feed_stdin: bool,
    /// Standard output is kept; otherwise it is discarded.
    pub keep_stdout: bool,
    /// Where the result is found once the command has exited successfully.
    pub result: ResultSource,
}

/// [`Invocation`] as mathematics.
#[verifier::ext_equal]
pub struct InvocationView {
    pub program: Seq<char>,
    pub args: Seq<Seq<char>>,
    pub feed_stdin: bool,
    pub keep_stdout: bool,
    pub result: ResultSource,
}

impl View for Invocation {
    type V = InvocationView;

    open spec fn view(&self) -> InvocationView {
        InvocationView {
            program: self.program@,
            args: texts(self.args@),
            feed_stdin: self.feed_stdin,
            keep_stdout: self.keep_stdout,
            result: self.result,
        }
    }
}

/// How a command ended.
#[derive(Debug)]
pub struct StepOutcome {
    /// It exited successfully.
    pub success: bool,
    /// What it wrote to standard output, where that is kept.
    pub stdout: Vec<u8>,
    /// What the file that [`file_to_read`] names holds afterwards, where it names one.
    pub file: Vec<u8>,
}

/// [`StepOutcome`] as mathematics.
#[verifier::ext_equal]
pub struct OutcomeView {
    pub success: bool,
    pub stdout: Seq<u8>,
    pub file: Seq<u8>,
}

impl View for StepOutcome {
    type V = OutcomeView;

    open spec fn view(&self) -> OutcomeView {
        OutcomeView { success: self.success, stdout: self.stdout@, file: self.file@ }
    }
}

/// The extension of a file's name, empty where there is none.
pub open spec fn extension_text(filename: Seq<char>) -> Seq<char> {
    match name_of(filename) {
        Some(name) => match extension_of(name) {
            Some(e) => e,
            None => Seq::empty(),
        },
        None => Seq::empty(),
    }
}

/// An argument with the two paths in place of `{input}` and `{output}`.
pub open spec fn expanded(arg: Seq<char>, input: Seq<char>, output: Seq<char>) -> Seq<char> {
    replaced(replaced(arg, "{input}"@, input), "{output}"@, output)
}

/// Arguments with the two paths in place of `{input}` and `{output}`.
pub open spec fn all_expanded(
    args: Seq<Seq<char>>,
    input: Seq<char>,
    output: Seq<char>,
) -> Seq<Seq<char>> {
    Seq::new(args.len(), |i: int| expanded(args[i], input, output))
}

/// What one step of a chain runs.
pub open spec fn step_invocation(step: StepView, input: Seq<char>, output: Seq<char>) -> InvocationView {
    match step.io {
        IoMode::InPlace => InvocationView {
            program: step.command,
            args: all_expanded(step.args, input, input),
            feed_stdin: false,
            keep_stdout: false,
            result: ResultSource::InputFile,
        },
        IoMode::FileToFile => InvocationView {
            program: step.command,
            args: all_expanded(step.args, input, output),
            feed_stdin: false,
            keep_stdout: false,
            result: ResultSource::OutputFile,
        },
        IoMode::FileToStdout => InvocationView {
            program: step.command,
            args: all_expanded(step.args, input, input),
            feed_stdin: false,
            keep_stdout: true,
            result: ResultSource::Stdout,
        },
        IoMode::StdinStdout => InvocationView {
            program: step.command,
            args: step.args,
            feed_stdin: true,
            keep_stdout: true,
            result: ResultSource::Stdout,
        },
    }
}

/// Where a shell expression leaves its result: on standard output. An expression that is to work
/// on files may modify its input file instead, and then writes nothing there.
pub open spec fn shell_source(io: IoMode) -> ResultSource {
    match io {
        IoMode::FileToStdout | IoMode::StdinStdout => ResultSource::Stdout,
        IoMode::InPlace | IoMode::FileToFile => ResultSource::StdoutOrInputFile,
    }
}

/// What a shell expression runs.
pub open spec fn shell_invocation(expr: Seq<char>, io: IoMode, input: Seq<char>) -> InvocationView {
    InvocationView {
        program: "sh"@,
        args: seq!["-c"@, replaced(expr, "{input}"@, input)],
        feed_stdin: io == IoMode::StdinStdout,
        keep_stdout: true,
        result: shell_source(io),
    }
}

/// How many commands a rule runs: one for a shell expression, else one for each step of the chain.
pub open spec fn step_count(rule: RuleView) -> nat {
    if rule.shell is Some {
        1
    } else {
        rule.chain.len()
    }
}

/// What step `i` of a rule runs.
pub open spec fn rule_invocation(rule: RuleView, i: int, input: Seq<char>, output: Seq<char>) -> InvocationView {
    match rule.shell {
        Some(expr) => shell_invocation(expr, rule.io, input),
        None => step_invocation(rule.chain[i], input, output),
    }
}

/// Where step `i` of a rule leaves its result.
pub open spec fn rule_source(rule: RuleView, i: int) -> ResultSource {
    rule_invocation(rule, i, Seq::empty(), Seq::empty()).result
}

/// The file that holds the result, if it is in a file.
pub open spec fn file_read(source: ResultSource, stdout: Seq<u8>) -> Option<TempFile> {
    match source {
        ResultSource::InputFile => Some(TempFile::Input),
        ResultSource::OutputFile => Some(TempFile::Output),
        ResultSource::Stdout => None,
        ResultSource::StdoutOrInputFile => if stdout.len() == 0 {
            Some(TempFile::Input)
        } else {
            None
        },
    }
}

/// The result of a command.
pub open spec fn result_data(source: ResultSource, outcome: OutcomeView) -> Seq<u8> {
    if file_read(source, outcome.stdout) is Some {
        outcome.file
    } else {
        outcome.stdout
    }
}

/// A rule being applied: the data as the steps done so far have left it.
#[derive(Debug)]
pub struct RuleRun {
    pub data: Vec<u8>,
    /// How many steps are done.
    pub done: usize,
    /// A step has signalled that there is nothing to change.
    pub no_change: bool,
}

/// [`RuleRun`] as mathematics.
#[verifier::ext_equal]
pub struct RunView {
    pub data: Seq<u8>,
    pub done: nat,
    pub no_change: bool,
}

impl View for RuleRun {
    type V = RunView;

    open spec fn view(&self) -> RunView {
        RunView { data: self.data@, done: self.done as nat, no_change: self.no_change }
    }
}

impl RunView {
    /// Another step is due.
    pub open spec fn is_due(self, rule: RuleView) -> bool {
        !self.no_change && self.done < step_count(rule)
    }

    /// The run after a step has signalled that there is nothing to change.
    pub open spec fn unchanged(self) -> RunView {
        RunView { no_change: true, ..self }
    }

    /// The new content that the run has given a file with that content, if it changed it.
    pub open spec fn result(self, input_data: Seq<u8>) -> Option<Seq<u8>> {
        if self.no_change || self.data == input_data {
            None
        } else {
            Some(self.data)
        }
    }

    /// The run after one more step: the result of the step is the data of the next one.
    pub open spec fn after(self, rule: RuleView, outcome: OutcomeView) -> Result<RunView, DispatchError> {
        if outcome.success {
            Ok(
                RunView {
                    data: result_data(rule_source(rule, self.done as int), outcome),
                    done: self.done + 1,
                    ..self
                },
            )
        } else {
            Err(DispatchError::CommandFailed { step: self.done as usize })
        }
    }

    /// The run after several more steps; it stops at the first that fails.
    pub open spec fn after_all(self, rule: RuleView, outcomes: Seq<OutcomeView>) -> Result<
        RunView,
        DispatchError,
    >
        decreases outcomes.len(),
    {
        if outcomes.len() == 0 {
            Ok(self)
        } else {
            match self.after(rule, outcomes[0]) {
                Ok(next) => next.after_all(rule, outcomes.skip(1)),
                Err(e) => Err(e),
            }
        }
    }
}

/// The extension of a file's name, empty where there is none.
pub fn extension_from(filename: &str) -> (res: String)
    ensures
        res@ == extension_text(filename@),
{
    match file_name(filename) {
        Some(name) => match extension(name.as_str()) {
            Some(e) => e,
            None => String::new(),
        },
        None => String::new(),
    }
}

/// Puts the two paths in place of `{input}` and `{output}`.
pub fn expand_args(args: &[String], input: &str, output: &str) -> (res: Vec<String>)
    ensures
        texts(res@) == all_expanded(texts(args@), input@, output@),
{
    proof {
        reveal_strlit("{input}");
        reveal_strlit("{output}");
    }
    let mut out: Vec<String> = Vec::new();
    let ghost goal = all_expanded(texts(args@), input@, output@);
    for i in 0..args.len()
        invariant
            "{input}"@.len() > 0,
            "{output}"@.len() > 0,
            goal == all_expanded(texts(args@), input@, output@),
            texts(out@) == goal.take(i as int),
    {
        let ghost prev = out@;
        let once = replace(args[i].as_str(), "{input}", input);
        out.push(replace(once.as_str(), "{output}", output));
        assert(texts(out@) =~= texts(prev).push(goal[i as int]));
        assert(goal.take(i + 1) =~= goal.take(i as int).push(goal[i as int]));
    }
    assert(goal.take(args@.len() as int) =~= goal);
    out
}

/// What one step of a chain runs, given the paths of its temporary files.
pub fn run_step(step: &ChainStep, input: &str, output: &str) -> (res: Invocation)
    ensures
        res@ == step_invocation(step@, input@, output@),
{
    let program = step.command.clone();
    let args = step.args.as_slice();
    match step.io {
        IoMode::InPlace => Invocation {
            program,
            args: expand_args(args, input, input),
            feed_stdin: false,
            keep_stdout: false,
            result: ResultSource::InputFile,
        },
        IoMode::FileToFile => Invocation {
            program,
            args: expand_args(args, input, output),
            feed_stdin: false,
            keep_stdout: false,
            result: ResultSource::OutputFile,
        },
        IoMode::FileToStdout => Invocation {
            program,
            args: expand_args(args, input, input),
            feed_stdin: false,
            keep_stdout: true,
            result: ResultSource::Stdout,
        },
        IoMode::StdinStdout => Invocation {
            program,
            args: clone_texts(args),
            feed_stdin: true,
            keep_stdout: true,
            result: ResultSource::Stdout,
        },
    }
}

fn source_of_shell(io: IoMode) -> (res: ResultSource)
    ensures
        res == shell_source(io),
{
    match io {
        IoMode::FileToStdout | IoMode::StdinStdout => ResultSource::Stdout,
        IoMode::InPlace | IoMode::FileToFile => ResultSource::StdoutOrInputFile,
    }
}

/// What a shell expression runs, given the path of its input file.
pub fn apply_shell(expr: &str, io: IoMode, input: &str) -> (res: Invocation)
    ensures
        res@ == shell_invocation(expr@, io, input@),
{
    proof {
        reveal_strlit("{input}");
    }
    let mut args: Vec<String> = Vec::new();
    args.push("-c".to_owned());
    args.push(replace(expr, "{input}", input));
    assert(texts(args@) =~= seq!["-c"@, replaced(expr@, "{input}"@, input@)]);
    Invocation {
        program: "sh".to_owned(),
        args,
        feed_stdin: io == IoMode::StdinStdout,
        keep_stdout: true,
        result: source_of_shell(io),
    }
}

/// The file to read after a command has exited successfully, if its result is in a file.
pub fn file_to_read(source: ResultSource, stdout: &[u8]) -> (res: Option<TempFile>)
    ensures
        res == file_read(source, stdout@),
{
    match source {
        ResultSource::InputFile => Some(TempFile::Input),
        ResultSource::OutputFile => Some(TempFile::Output),
        ResultSource::Stdout => None,
        ResultSource::StdoutOrInputFile => if stdout.len() == 0 {
            Some(TempFile::Input)
        } else {
            None
        },
    }
}

/// Whether a command succeeded, as a result.
pub fn check_status(success: bool, step: usize) -> (res: Result<(), DispatchError>)
    ensures
        res == if success {
            Ok::<(), DispatchError>(())
        } else {
            Err(DispatchError::CommandFailed { step })
        },
{
    if success {
        Ok(())
    } else {
        Err(DispatchError::CommandFailed { step })
    }
}

/// Begins applying a rule to the data of a file.
pub fn apply_rule(rule: &ProcessorRule, input_data: &[u8]) -> (res: Result<RuleRun, DispatchError>)
    ensures
        step_count(rule@) == 0 ==> res == Err::<RuleRun, DispatchError>(DispatchError::NoAction),
        step_count(rule@) > 0 ==> res is Ok && res->Ok_0@ == (RunView {
            data: input_data@,
            done: 0,
            no_change: false,
        }),
{
    if rule.shell.is_none() && rule.chain.len() == 0 {
        return Err(DispatchError::NoAction);
    }
    Ok(RuleRun { data: vstd::slice::slice_to_vec(input_data), done: 0, no_change: false })
}

impl RuleRun {
    /// The temporary files for the next step; `None` once all steps are done or one has signalled
    /// that there is nothing to change. A shell expression always gets an input file, since it may
    /// name it.
    pub fn next_step(&self, rule: &ProcessorRule) -> (res: Option<StepFiles>)
        ensures
            res is Some <==> self@.is_due(rule@),
            res matches Some(files) ==> {
                let io = rule@.chain[self@.done as int].io;
                &&& files.input == (rule@.shell is Some || io != IoMode::StdinStdout)
                &&& files.output == (rule@.shell is None && io == IoMode::FileToFile)
            },
    {
        if self.no_change {
            return None;
        }
        if rule.shell.is_some() {
            if self.done == 0 {
                return Some(StepFiles { input: true, output: false });
            }
            return None;
        }
        if self.done < rule.chain.len() {
            let io = rule.chain[self.done].io;
            assert(io == rule@.chain[self.done as int].io);
            Some(
                StepFiles {
                    input: io != IoMode::StdinStdout,
                    output: io == IoMode::FileToFile,
                },
            )
        } else {
            None
        }
    }

    /// The command of the next step, given the paths of its temporary files.
    pub fn invocation(&self, rule: &ProcessorRule, input: &str, output: &str) -> (res: Invocation)
        requires
            self@.is_due(rule@),
        ensures
            res@ == rule_invocation(rule@, self@.done as int, input@, output@),
    {
        match &rule.shell {
            Some(expr) => apply_shell(expr.as_str(), rule.io, input),
            None => {
                assert(rule@.chain[self.done as int] == rule.chain@[self.done as int]@);
                run_step(&rule.chain[self.done], input, output)
            },
        }
    }

    /// Takes the outcome of the next step: its result becomes the data of the step after it. If
    /// the command failed, the rule has failed and the run is left as it was.
    pub fn complete(&mut self, rule: &ProcessorRule, outcome: StepOutcome) -> (res: Result<
        (),
        DispatchError,
    >)
        requires
            old(self)@.is_due(rule@),
        ensures
            match old(self)@.after(rule@, outcome@) {
                Ok(next) => res is Ok && final(self)@ == next,
                Err(e) => res == Err::<(), DispatchError>(e) && *final(self) == *old(self),
            },
    {
        if let Err(e) = check_status(outcome.success, self.done) {
            return Err(e);
        }
        let steps = rule.chain.len();
        assert(self.done < usize::MAX) by {
            assert(rule.shell is None ==> self.done < steps);
        }
        let source = match &rule.shell {
            Some(_) => source_of_shell(rule.io),
            None => {
                assert(rule@.chain[self.done as int] == rule.chain@[self.done as int]@);
                match rule.chain[self.done].io {
                    IoMode::InPlace => ResultSource::InputFile,
                    IoMode::FileToFile => ResultSource::OutputFile,
                    IoMode::FileToStdout => ResultSource::Stdout,
                    IoMode::StdinStdout => ResultSource::Stdout,
                }
            },
        };
        assert(source == rule_source(rule@, self@.done as int));
        if file_to_read(source, outcome.stdout.as_slice()).is_some() {
            self.data = outcome.file;
        } else {
            self.data = outcome.stdout;
        }
        self.done = self.done + 1;
        Ok(())
    }

    /// Takes the signal of the next step that there is nothing to change, which its exit code may
    /// give: no further step is due, and the rule leaves the file as it is, whatever earlier steps
    /// have made of it.
    pub fn signal_no_change(&mut self, rule: &ProcessorRule)
        requires
            old(self)@.is_due(rule@),
        ensures
            final(self)@ == old(self)@.unchanged(),
    {
        self.no_change = true;
    }

    /// The result of the rule: unchanged exactly if a step has signalled so or the data is what
    /// the run began with.
    pub fn finish(self, input_data: &[u8]) -> (res: ProcessResult)
        ensures
            match self@.result(input_data@) {
                Some(data) => res is Modified && res->Modified_0@ == data,
                None => res is Unchanged,
            },
    {
        if self.no_change || same_bytes(self.data.as_slice(), input_data) {
            ProcessResult::Unchanged
        } else {
            ProcessResult::Modified(self.data)
        }
    }
}

fn same_bytes(a: &[u8], b: &[u8]) -> (res: bool)
    ensures
        res == (a@ == b@),
{
    if a.len() != b.len() {
        return false;
    }
    for i in 0..a.len()
        invariant
            a@.len() == b@.len(),
            forall|j: int| 0 <= j < i ==> a@[j] == b@[j],
    {
        if a[i] != b[i] {
            return false;
        }
    }
    assert(a@ =~= b@);
    true
}

/// The message for a rule that says nothing to do.
pub fn no_action_message(rule: &ProcessorRule) -> (res: String)
    ensures
        res@ == "processor rule for '"@ + rule@.pattern + "' has neither 'chain' nor 'shell'"@,
{
    let mut out = "processor rule for '".to_owned();
    out.append(rule.pattern.as_str());
    out.append("' has neither 'chain' nor 'shell'");
    out
}

/// What is said of a command that did not exit successfully, with what it wrote to standard error.
pub open spec fn failure_text(
    program: Seq<char>,
    status: Seq<char>,
    args: Seq<char>,
    stderr: Seq<char>,
) -> Seq<char> {
    let what = "'"@ + program + "' exited with "@ + status + ": "@ + args;
    if trimmed_end(stderr).len() == 0 {
        what
    } else {
        what + "\n"@ + trimmed_end(stderr)
    }
}

/// The message for a command that did not exit successfully: how it was called, how it exited, and
/// what it wrote to standard error, but for white space at the end.
pub fn failure_message(program: &str, status: &str, args: &str, stderr: &str) -> (res: String)
    ensures
        res@ == failure_text(program@, status@, args@, stderr@),
{
    let mut out = "'".to_owned();
    out.append(program);
    out.append("' exited with ");
    out.append(status);
    out.append(": ");
    out.append(args);
    let errors = trim_end(stderr);
    if !errors.as_str().is_empty() {
        out.append("\n");
        out.append(errors.as_str());
    }
    out
}

/// What is said, on top of the cause, of a chain step that failed.
pub fn chain_context(step: usize, command: &str, filename: &str) -> (res: String)
    ensures
        res@ == "chain step "@ + decimal(step as nat) + " ("@ + command@ + ") failed on '"@
            + filename@ + "'"@,
{
    let mut out = "chain step ".to_owned();
    out.append(format_number(step as u64).as_str());
    out.append(" (");
    out.append(command);
    out.append(") failed on '");
    out.append(filename);
    out.append("'");
    out
}

/// A shell expression takes the place of the chain: with one, the chain has no influence on what
/// runs or on how the result is found.
pub proof fn law_shell_overrides_chain(rule: RuleView, other: RuleView, i: int, input: Seq<char>, output: Seq<char>)
    requires
        rule.shell is Some,
        other.shell == rule.shell,
        other.io == rule.io,
    ensures
        step_count(rule) == 1,
        step_count(other) == step_count(rule),
        rule_invocation(other, i, input, output) == rule_invocation(rule, i, input, output),
{
}

proof fn lemma_after_all_push(run: RunView, rule: RuleView, outcomes: Seq<OutcomeView>, last: OutcomeView)
    ensures
        run.after_all(rule, outcomes.push(last)) == match run.after_all(rule, outcomes) {
            Ok(mid) => mid.after(rule, last),
            Err(e) => Err(e),
        },
    decreases outcomes.len(),
{
    let all = outcomes.push(last);
    if outcomes.len() == 0 {
        assert(all.skip(1) =~= Seq::empty());
        assert(run.after_all(rule, all) == match run.after(rule, last) {
            Ok(next) => next.after_all(rule, Seq::empty()),
            Err(e) => Err(e),
        });
    } else {
        assert(all[0] == outcomes[0]);
        assert(all.skip(1) =~= outcomes.skip(1).push(last));
        match run.after(rule, outcomes[0]) {
            Ok(next) => lemma_after_all_push(next, rule, outcomes.skip(1), last),
            Err(_) => {},
        }
    }
}

/// Steps that all succeed lead through to the end: as many are done as have run, and the data is
/// the result of the last one, whatever the earlier ones gave.
pub proof fn law_chain_result(run: RunView, rule: RuleView, outcomes: Seq<OutcomeView>)
    requires
        forall|i: int| 0 <= i < outcomes.len() ==> (#[trigger] outcomes[i]).success,
    ensures
        run.after_all(rule, outcomes) is Ok,
        run.after_all(rule, outcomes)->Ok_0.done == run.done + outcomes.len(),
        outcomes.len() == 0 ==> run.after_all(rule, outcomes)->Ok_0.data == run.data,
        outcomes.len() > 0 ==> run.after_all(rule, outcomes)->Ok_0.data == result_data(
            rule_source(rule, run.done + outcomes.len() - 1),
            outcomes.last(),
        ),
    decreases outcomes.len(),
{
    if outcomes.len() > 0 {
        let before = outcomes.drop_last();
        assert forall|i: int| 0 <= i < before.len() implies (#[trigger] before[i]).success by {
            assert(before[i] == outcomes[i]);
        }
        law_chain_result(run, rule, before);
        lemma_after_all_push(run, rule, before, outcomes.last());
        assert(before.push(outcomes.last()) =~= outcomes);
    }
}

/// The first step that fails ends the rule: whatever outcomes are supposed for later steps, the
/// rule fails at that step.
pub proof fn law_failure_stops(run: RunView, rule: RuleView, outcomes: Seq<OutcomeView>, at: int)
    requires
        0 <= at < outcomes.len(),
        !outcomes[at].success,
        forall|i: int| 0 <= i < at ==> (#[trigger] outcomes[i]).success,
    ensures
        run.after_all(rule, outcomes) == Err::<RunView, DispatchError>(
            DispatchError::CommandFailed { step: (run.done + at) as usize },
        ),
    decreases outcomes.len(),
{
    if at > 0 {
        let rest = outcomes.skip(1);
        assert(outcomes[0].success);
        assert forall|i: int| 0 <= i < at - 1 implies (#[trigger] rest[i]).success by {
            assert(rest[i] == outcomes[i + 1]);
        }
        assert(rest[at - 1] == outcomes[at]);
        law_failure_stops(run.after(rule, outcomes[0])->Ok_0, rule, rest, at - 1);
    }
}

/// A step that signals that there is nothing to change ends the rule: no step is due any more, and
/// the file is left as it is, whatever the steps before have given.
pub proof fn law_no_change_ends_the_rule(run: RunView, rule: RuleView, input_data: Seq<u8>)
    ensures
        !run.unchanged().is_due(rule),
        run.unchanged().result(input_data) is None,
{
}

/// A rule counts as changing a file only if its content differs.
pub proof fn law_modified_differs(run: RunView, input_data: Seq<u8>)
    ensures
        run.result(input_data) != Some(input_data),
{
}

/// What a command wrote to standard error is part of the message on its failure.
pub proof fn law_failure_shows_stderr(
    program: Seq<char>,
    status: Seq<char>,
    args: Seq<char>,
    stderr: Seq<char>,
)
    ensures
        ends_with(failure_text(program, status, args, stderr), trimmed_end(stderr)),
{
    let text = failure_text(program, status, args, stderr);
    let errors = trimmed_end(stderr);
    assert(text.skip(text.len() - errors.len()) =~= errors);
}

/// In place, both placeholders stand for the one file that the command modifies.
pub proof fn law_in_place_is_one_file(step: StepView, input: Seq<char>, output: Seq<char>)
    requires
        step.io == IoMode::InPlace,
    ensures
        step_invocation(step, input, output) == step_invocation(step, input, input),
        step_invocation(step, input, output).args == all_expanded(step.args, input, input),
        step_invocation(step, input, output).result == ResultSource::InputFile,
{
}

proof fn lemma_placeholders()
    ensures
        "{input}"@ == seq!['{'] + "input}"@,
        "{output}"@ == seq!['{'] + "output}"@,
        "{input}"@.len() == 7,
        "{output}"@.len() == 8,
        "{input}"@[0] == '{',
        "{output}"@[0] == '{',
        "{input}"@[1] == 'i',
        "{output}"@[1] == 'o',
        !"output}"@.contains('{'),
        "{input}"@ != "{output}"@,
{
    reveal_strlit("{input}");
    reveal_strlit("{output}");
    reveal_strlit("input}");
    reveal_strlit("output}");
    assert("{input}"@ =~= seq!['{'] + "input}"@);
    assert("{output}"@ =~= seq!['{'] + "output}"@);
}

proof fn lemma_input_expanded(a: Seq<char>, b: Seq<char>, input: Seq<char>, output: Seq<char>)
    requires
        !a.contains('{'),
        !input.contains('{'),
    ensures
        expanded(a + "{input}"@ + b, input, output) == a + input + expanded(b, input, output),
{
    lemma_placeholders();
    let from = "{input}"@;
    let rest = replaced(b, from, input);
    let none = Seq::<char>::empty();
    assert(a + from + b =~= a + (none + from + b));
    lemma_replaced_after(a, none + from + b, from, input);
    law_first_occurrence_is_replaced(none, from, b, input);
    assert(none + input + rest =~= input + rest);
    assert(a + (input + rest) =~= (a + input) + rest);
    let kept = a + input;
    assert forall|i: int| 0 <= i < kept.len() implies kept[i] != '{' by {
        if i < a.len() {
            assert(kept[i] == a[i]);
        } else {
            assert(kept[i] == input[i - a.len()]);
        }
    }
    lemma_replaced_after(kept, rest, "{output}"@, output);
}

proof fn lemma_output_expanded(a: Seq<char>, b: Seq<char>, input: Seq<char>, output: Seq<char>)
    requires
        !a.contains('{'),
    ensures
        expanded(a + "{output}"@ + b, input, output) == a + output + expanded(b, input, output),
{
    lemma_placeholders();
    let from = "{input}"@;
    let to = "{output}"@;
    let rest = replaced(b, from, input);
    let none = Seq::<char>::empty();
    let tail = to + b;
    assert(a + to + b =~= a + tail);
    lemma_replaced_after(a, tail, from, input);
    assert(tail.take(7)[1] == 'o');
    assert(tail.skip(1) =~= "output}"@ + b);
    lemma_replaced_after("output}"@, b, from, input);
    assert(seq![tail[0]] + ("output}"@ + rest) =~= to + rest);
    assert(a + (to + rest) =~= a + (none + to + rest));
    lemma_replaced_after(a, none + to + rest, to, output);
    law_first_occurrence_is_replaced(none, to, rest, output);
    assert(a + (none + output + replaced(rest, to, output)) =~= a + output + replaced(rest, to, output));
}

/// A step with one argument replaced.
pub open spec fn with_argument(step: StepView, i: int, arg: Seq<char>) -> StepView {
    StepView { args: step.args.update(i, arg), ..step }
}

/// Placeholders are filled in wherever they stand: in every argument, and as often as they occur.
/// In every mode that names files, `{input}` after a text without braces becomes the path of the
/// input, `{output}` becomes that of the output (the input itself unless the mode has an output
/// file), and what follows is treated as an argument of its own at that place would be.
pub proof fn law_placeholders_are_filled_in(
    step: StepView,
    i: int,
    a: Seq<char>,
    b: Seq<char>,
    input: Seq<char>,
    output: Seq<char>,
)
    requires
        step.io != IoMode::StdinStdout,
        0 <= i < step.args.len(),
        !a.contains('{'),
        !input.contains('{'),
    ensures
        ({
            let target = if step.io == IoMode::FileToFile {
                output
            } else {
                input
            };
            let rest = step_invocation(with_argument(step, i, b), input, output).args[i];
            let with_input = with_argument(step, i, a + "{input}"@ + b);
            let with_output = with_argument(step, i, a + "{output}"@ + b);
            &&& step_invocation(with_input, input, output).args[i] == a + input + rest
            &&& step_invocation(with_output, input, output).args[i] == a + target + rest
        }),
{
    let target = if step.io == IoMode::FileToFile {
        output
    } else {
        input
    };
    lemma_input_expanded(a, b, input, target);
    lemma_output_expanded(a, b, input, target);
}

/// An argument that is a placeholder becomes the path, at whatever position it stands, and an
/// argument without a placeholder stays as it is. There are as many arguments as the step has.
pub proof fn law_arguments_are_filled_in(step: StepView, i: int, input: Seq<char>, output: Seq<char>)
    requires
        step.io != IoMode::StdinStdout,
        0 <= i < step.args.len(),
    ensures
        ({
            let args = step_invocation(step, input, output).args;
            let target = if step.io == IoMode::FileToFile {
                output
            } else {
                input
            };
            let arg = step.args[i];
            &&& args.len() == step.args.len()
            &&& arg == "{input}"@ && (forall|k: int| !occurs_at(input, "{output}"@, k)) ==> args[i]
                == input
            &&& arg == "{output}"@ ==> args[i] == target
            &&& (forall|k: int| !occurs_at(arg, "{input}"@, k)) && (forall|k: int|
                !occurs_at(arg, "{output}"@, k)) ==> args[i] == arg
        }),
{
    lemma_placeholders();
    let target = if step.io == IoMode::FileToFile {
        output
    } else {
        input
    };
    let arg = step.args[i];
    let none = Seq::<char>::empty();
    if arg == "{input}"@ {
        assert(none + arg + none =~= arg);
        law_first_occurrence_is_replaced(none, arg, none, input);
        assert(none + input + replaced(none, arg, input) =~= input);
        if forall|k: int| !occurs_at(input, "{output}"@, k) {
            law_nothing_to_replace(input, "{output}"@, target);
        }
    }
    if arg == "{output}"@ {
        lemma_output_expanded(none, none, input, target);
        assert(none + "{output}"@ + none =~= arg);
        assert(none + target + expanded(none, input, target) =~= target);
    }
    if (forall|k: int| !occurs_at(arg, "{input}"@, k)) && (forall|k: int|
        !occurs_at(arg, "{output}"@, k)) {
        law_nothing_to_replace(arg, "{input}"@, input);
        law_nothing_to_replace(arg, "{output}"@, target);
    }
}

/// The mode of a step decides how its command is connected: only `stdin-stdout` feeds it the data,
/// and takes its arguments as they are; its standard output is kept, and is the result, in the two
/// modes named after it; otherwise the result is in the file that the mode says. Only
/// `file-to-file` has a use for an output file.
pub proof fn law_mode_connects_the_command(
    step: StepView,
    input: Seq<char>,
    output: Seq<char>,
    other: Seq<char>,
)
    ensures
        ({
            let inv = step_invocation(step, input, output);
            &&& inv.program == step.command
            &&& inv.args.len() == step.args.len()
            &&& inv.feed_stdin <==> step.io == IoMode::StdinStdout
            &&& step.io == IoMode::StdinStdout ==> inv.args == step.args
            &&& inv.keep_stdout <==> step.io == IoMode::StdinStdout || step.io == IoMode::FileToStdout
            &&& inv.result == ResultSource::Stdout <==> inv.keep_stdout
            &&& inv.result == ResultSource::InputFile <==> step.io == IoMode::InPlace
            &&& inv.result == ResultSource::OutputFile <==> step.io == IoMode::FileToFile
            &&& step.io != IoMode::FileToFile ==> step_invocation(step, input, other) == inv
        }),
{
}

/// A shell expression goes to `sh -c`, with the path of the input file for every `{input}`. It is
/// fed the data in `stdin-stdout` mode only. Its result is its standard output, which is kept in
/// every mode; only in the two modes that work on files may it be the input file instead.
pub proof fn law_shell_gets_the_expression(
    io: IoMode,
    input: Seq<char>,
    expr: Seq<char>,
    a: Seq<char>,
    b: Seq<char>,
)
    ensures
        ({
            let inv = shell_invocation(expr, io, input);
            &&& inv.program == "sh"@
            &&& inv.args.len() == 2
            &&& inv.args[0] == "-c"@
            &&& (forall|k: int| !occurs_at(expr, "{input}"@, k)) ==> inv.args[1] == expr
            &&& inv.feed_stdin <==> io == IoMode::StdinStdout
            &&& inv.keep_stdout
            &&& io == IoMode::StdinStdout || io == IoMode::FileToStdout ==> inv.result
                == ResultSource::Stdout
            &&& io == IoMode::InPlace || io == IoMode::FileToFile ==> inv.result
                == ResultSource::StdoutOrInputFile
        }),
        (forall|k: int| k < a.len() ==> !occurs_at(a + "{input}"@ + b, "{input}"@, k))
            ==> shell_invocation(a + "{input}"@ + b, io, input).args[1] == a + input
            + shell_invocation(b, io, input).args[1],
{
    lemma_placeholders();
    if forall|k: int| !occurs_at(expr, "{input}"@, k) {
        law_nothing_to_replace(expr, "{input}"@, input);
    }
    if forall|k: int| k < a.len() ==> !occurs_at(a + "{input}"@ + b, "{input}"@, k) {
        law_first_occurrence_is_replaced(a, "{input}"@, b, input);
    }
}

/// A rule runs its shell expression, if it has one, and nothing else; otherwise it runs the steps
/// of its chain, all of them, each in its turn.
pub proof fn law_rule_runs_all_its_steps(rule: RuleView, i: int, input: Seq<char>, output: Seq<char>)
    ensures
        rule.shell is Some ==> step_count(rule) == 1 && rule_invocation(rule, i, input, output)
            == shell_invocation(rule.shell->0, rule.io, input),
        rule.shell is None ==> step_count(rule) == rule.chain.len() && rule_invocation(
            rule,
            i,
            input,
            output,
        ) == step_invocation(rule.chain[i], input, output),
{
}

/// What a step leaves is found where its mode says: for a chain, in the file that was modified or
/// written, or on standard output; for a shell expression, on standard output, unless it works on
/// files and wrote nothing there.
pub proof fn law_result_is_where_the_mode_says(run: RunView, rule: RuleView, outcome: OutcomeView)
    requires
        outcome.success,
    ensures
        ({
            let next = run.after(rule, outcome)->Ok_0;
            let io = match rule.shell {
                Some(_) => rule.io,
                None => rule.chain[run.done as int].io,
            };
            let captured = io == IoMode::StdinStdout || io == IoMode::FileToStdout;
            &&& run.after(rule, outcome) is Ok
            &&& next.done == run.done + 1
            &&& next.no_change == run.no_change
            &&& captured ==> next.data == outcome.stdout
            &&& !captured && rule.shell is None ==> next.data == outcome.file
            &&& !captured && rule.shell is Some && outcome.stdout.len() > 0 ==> next.data
                == outcome.stdout
            &&& !captured && rule.shell is Some && outcome.stdout.len() == 0 ==> next.data
                == outcome.file
        }),
{
}

/// A rule is through exactly when as many steps have succeeded as it has.
pub proof fn law_rule_is_through_after_its_last_step(
    data: Seq<u8>,
    rule: RuleView,
    outcomes: Seq<OutcomeView>,
)
    requires
        forall|i: int| 0 <= i < outcomes.len() ==> (#[trigger] outcomes[i]).success,
    ensures
        ({
            let begun = RunView { data, done: 0, no_change: false };
            let steps = if rule.shell is Some {
                1
            } else {
                rule.chain.len()
            };
            begun.after_all(rule, outcomes) is Ok && (begun.after_all(rule, outcomes)->Ok_0.is_due(rule)
                <==> outcomes.len() < steps)
        }),
{
    let begun = RunView { data, done: 0, no_change: false };
    law_chain_result(begun, rule, outcomes);
    lemma_signal_is_kept(begun, rule, outcomes);
}

proof fn lemma_signal_is_kept(run: RunView, rule: RuleView, outcomes: Seq<OutcomeView>)
    ensures
        run.after_all(rule, outcomes) matches Ok(r) ==> r.no_change == run.no_change,
    decreases outcomes.len(),
{
    if outcomes.len() > 0 {
        if let Ok(next) = run.after(rule, outcomes[0]) {
            lemma_signal_is_kept(next, rule, outcomes.skip(1));
        }
    }
}

/// Without the signal of a step, a file counts as modified exactly if its content differs, and then
/// it gets the content that the steps have left.
pub proof fn law_modified_if_different(run: RunView, input_data: Seq<u8>)
    requires
        !run.no_change,
    ensures
        run.result(input_data) is Some <==> run.data != input_data,
        run.result(input_data) is Some ==> run.result(input_data)->0 == run.data,
{
}

/// The extension of a file's name is what follows its last dot.
pub proof fn law_extension_of_a_file(stem: Seq<char>, extension: Seq<char>)
    requires
        stem.len() > 0,
        !stem.contains('/'),
        extension.len() > 0,
        !extension.contains('/'),
        !extension.contains('.'),
    ensures
        extension_text(stem + seq!['.'] + extension) == extension,
{
    let name = stem + seq!['.'] + extension;
    let at = stem.len() as int;
    assert forall|i: int| 0 <= i < name.len() implies name[i] != '/' by {
        if i < at {
            assert(name[i] == stem[i]);
        } else if i > at {
            assert(name[i] == extension[i - at - 1]);
        }
    }
    assert forall|i: int| at < i < name.len() implies name[i] != '.' by {
        assert(name[i] == extension[i - at - 1]);
    }
    lemma_last_position_unique(name, '.', at);
    lemma_name_of_name(name);
    assert(name.skip(at + 1) =~= extension);
}

/// The message on a failure begins with what failed, how, and with which arguments.
pub proof fn law_failure_names_the_command(
    program: Seq<char>,
    status: Seq<char>,
    args: Seq<char>,
    stderr: Seq<char>,
)
    ensures
        begins_with(
            failure_text(program, status, args, stderr),
            "'"@ + program + "' exited with "@ + status + ": "@ + args,
        ),
        forall|i: int| 0 <= i < stderr.len() && !is_white(#[trigger] stderr[i]) ==> failure_text(
            program,
            status,
            args,
            stderr,
        ).contains(stderr[i]),
{
    let what = "'"@ + program + "' exited with "@ + status + ": "@ + args;
    let text = failure_text(program, status, args, stderr);
    assert(text.take(what.len() as int) =~= what);
    let errors = trimmed_end(stderr);
    lemma_trimmed_end(stderr);
    assert forall|i: int| 0 <= i < stderr.len() && !is_white(#[trigger] stderr[i]) implies text.contains(
        stderr[i],
    ) by {
        assert(errors[i] == stderr[i]);
        assert(text[text.len() - errors.len() + i] == stderr[i]);
    }
}

/// The file that is read after a command is the one that holds its result: for a step of a chain
/// the input file in place, the output file from file to file, and none in the other modes; for a
/// shell expression the input file, where it works on files and wrote nothing to standard output.
pub proof fn law_file_with_the_result_is_read(
    step: StepView,
    expr: Seq<char>,
    io: IoMode,
    input: Seq<char>,
    output: Seq<char>,
    stdout: Seq<u8>,
)
    ensures
        ({
            let file = file_read(step_invocation(step, input, output).result, stdout);
            &&& file == Some(TempFile::Input) <==> step.io == IoMode::InPlace
            &&& file == Some(TempFile::Output) <==> step.io == IoMode::FileToFile
        }),
        ({
            let file = file_read(shell_invocation(expr, io, input).result, stdout);
            let on_files = io == IoMode::InPlace || io == IoMode::FileToFile;
            &&& file == Some(TempFile::Input) <==> on_files && stdout.len() == 0
            &&& file != Some(TempFile::Output)
        }),
{
}

/// The message on a failure ends with what was written to standard error, on a line of its own and
/// without the white space at its end; where only white space was written, nothing is added.
pub proof fn law_failure_text_is_complete(
    program: Seq<char>,
    status: Seq<char>,
    args: Seq<char>,
    errors: Seq<char>,
    white: Seq<char>,
)
    requires
        errors.len() == 0 || !is_white(errors.last()),
        forall|i: int| 0 <= i < white.len() ==> is_white(#[trigger] white[i]),
    ensures
        ({
            let text = failure_text(program, status, args, errors + white);
            let what = "'"@ + program + "' exited with "@ + status + ": "@ + args;
            &&& errors.len() == 0 ==> text == what
            &&& errors.len() > 0 ==> text == what + "\n"@ + errors
        }),
{
    law_trimming_takes_the_end(errors, white);
}

/// A file whose name has no dot, or none but as its first character, has no extension, in whatever
/// directory it stands; nor has a path without a file name.
pub proof fn law_file_without_an_extension(dir: Seq<char>, name: Seq<char>)
    requires
        is_file_name(name),
        !name.contains('/'),
        forall|i: int| 0 < i < name.len() ==> name[i] != '.',
    ensures
        extension_text(name) == Seq::<char>::empty(),
        extension_text(dir + seq!['/'] + name) == Seq::<char>::empty(),
        extension_text(dir + seq!['/', '.', '.']) == Seq::<char>::empty(),
{
    lemma_last_position(name, '.');
    lemma_name_of_name(name);
    law_file_name_is_the_last_component(dir, name);
}

} // verus!
