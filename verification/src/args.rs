//! The configuration that a command line asks for.

use crate::config::{first_rule_from, law_first_match_wins, rule_views, ChainStep, Config,
    ConfigView, IoMode, ProcessorRule, RuleView, StepView};
use crate::pattern::glob_matches;
use crate::text::{append_texts, clone_texts, text_option, texts};
use vstd::prelude::*;
use vstd::string::*;

verus! {

/// The command-line options that make up rules: one inline rule, and patterns to exclude.
#[derive(Debug, Clone)]
pub struct Args {
    /// File name pattern of the inline rule.
    pub pattern: Option<String>,
    /// Command of the inline rule.
    pub command: Option<String>,
    /// Arguments of the command.
    pub args: Vec<String>,
    /// I/O mode of the inline rule.
    pub io: Option<IoMode>,
    /// Shell expression of the inline rule, in place of a command.
    pub shell: Option<String>,
    /// Patterns to exclude, in addition to those of the configuration.
    pub excludes: Vec<String>,
}

/// Why a command line gives no configuration.
#[derive(Debug, Clone, Copy, PartialEq, Eq, Structural)]
pub enum ArgsError {
    /// A pattern, an argument or an I/O mode without a command or a shell expression.
    NoInlineAction,
}

impl ArgsError {
    /// The message shown to the user.
    pub fn message(&self) -> (res: String)
        ensures
            res@ == "--match, --arg, and --io require either --command or --shell"@,
    {
        "--match, --arg, and --io require either --command or --shell".to_owned()
    }
}

/// [`Args`] as mathematics.
pub struct ArgsView {
    pub pattern: Option<Seq<char>>,
    pub command: Option<Seq<char>>,
    pub args: Seq<Seq<char>>,
    pub io: Option<IoMode>,
    pub shell: Option<Seq<char>>,
    pub excludes: Seq<Seq<char>>,
}

impl View for Args {
    type V = ArgsView;

    open spec fn view(&self) -> ArgsView {
        ArgsView {
            pattern: text_option(self.pattern),
            command: text_option(self.command),
            args: texts(self.args@),
            io: self.io,
            shell: text_option(self.shell),
            excludes: texts(self.excludes@),
        }
    }
}

impl ArgsView {
    /// The options ask for an inline rule.
    pub open spec fn has_inline(self) -> bool {
        self.command is Some || self.shell is Some
    }

    /// Options that only an inline rule has a use for are present.
    pub open spec fn has_rule_details(self) -> bool {
        self.pattern is Some || self.io is Some || self.args.len() > 0
    }

    /// The inline rule: for every file unless a pattern is given; a shell expression comes before
    /// a command.
    pub open spec fn inline_rule(self) -> RuleView {
        let pattern = match self.pattern {
            Some(p) => p,
            None => "*"@,
        };
        let io = match self.io {
            Some(m) => m,
            None => IoMode::InPlace,
        };
        match self.shell {
            Some(expr) => RuleView { pattern, chain: Seq::empty(), shell: Some(expr), io },
            None => RuleView {
                pattern,
                chain: seq![
                    StepView {
                        command: match self.command {
                            Some(c) => c,
                            None => Seq::empty(),
                        },
                        args: self.args,
                        io,
                    },
                ],
                shell: None,
                io: IoMode::InPlace,
            },
        }
    }

    /// The configuration that results: the inline rule before those of `base`, the excludes after
    /// those of `base`; or an error, where details are given for a rule that is not.
    pub open spec fn effective(self, base: ConfigView) -> Result<ConfigView, ArgsError> {
        if !self.has_inline() && self.has_rule_details() {
            Err(ArgsError::NoInlineAction)
        } else {
            Ok(
                ConfigView {
                    exclude: base.exclude + self.excludes,
                    processor: if self.has_inline() {
                        seq![self.inline_rule()] + base.processor
                    } else {
                        base.processor
                    },
                },
            )
        }
    }
}

impl Args {
    fn inline_rule(&self) -> (res: ProcessorRule)
        requires
            self@.has_inline(),
        ensures
            res@ == self@.inline_rule(),
    {
        let pattern = match &self.pattern {
            Some(p) => p.clone(),
            None => "*".to_owned(),
        };
        let io = match self.io {
            Some(m) => m,
            None => IoMode::InPlace,
        };
        match &self.shell {
            Some(expr) => {
                let rule = ProcessorRule {
                    pattern,
                    chain: Vec::new(),
                    shell: Some(expr.clone()),
                    io,
                };
                assert(rule@.chain =~= Seq::empty());
                rule
            },
            None => {
                let command = match &self.command {
                    Some(c) => c.clone(),
                    None => String::new(),
                };
                let mut chain: Vec<ChainStep> = Vec::new();
                chain.push(ChainStep { command, args: clone_texts(self.args.as_slice()), io });
                let rule = ProcessorRule { pattern, chain, shell: None, io: IoMode::InPlace };
                assert(rule@.chain =~= self@.inline_rule().chain);
                rule
            },
        }
    }

    /// The configuration of a run: that of the configuration file, with the inline rule put first
    /// and the exclude patterns of the command line added.
    pub fn effective_config(&self, base: Config) -> (res: Result<Config, ArgsError>)
        ensures
            match self@.effective(base@) {
                Ok(c) => res is Ok && res->Ok_0@ == c,
                Err(e) => res == Err::<Config, ArgsError>(e),
            },
    {
        let mut config = base;
        let ghost old_rules = rule_views(config.processor@);
        if self.command.is_some() || self.shell.is_some() {
            let rule = self.inline_rule();
            config.processor.insert(0, rule);
            assert(rule_views(config.processor@) =~= seq![self@.inline_rule()] + old_rules);
        } else if self.pattern.is_some() || self.io.is_some() || self.args.len() > 0 {
            return Err(ArgsError::NoInlineAction);
        }
        append_texts(&mut config.exclude, self.excludes.as_slice());
        Ok(config)
    }
}

proof fn lemma_rule_after_inline(first: RuleView, rules: Seq<RuleView>, filename: Seq<char>, from: int)
    requires
        0 <= from <= rules.len(),
    ensures
        first_rule_from(seq![first] + rules, filename, from + 1) == match first_rule_from(
            rules,
            filename,
            from,
        ) {
            Some(i) => Some(i + 1),
            None => None,
        },
    decreases rules.len() - from,
{
    let all = seq![first] + rules;
    if from < rules.len() {
        assert(all[from + 1] == rules[from]);
        lemma_rule_after_inline(first, rules, filename, from + 1);
    }
}

/// The inline rule comes first: a file that matches it gets it, and any other file gets the rule
/// that the configuration file alone would give it.
pub proof fn law_inline_rule_first(args: ArgsView, base: ConfigView, filename: Seq<char>)
    requires
        args.has_inline(),
    ensures
        ({
            let config = args.effective(base)->Ok_0;
            &&& args.effective(base) is Ok
            &&& config.processor[0] == args.inline_rule()
            &&& glob_matches(args.inline_rule().pattern, filename) ==> config.rule_for(filename)
                == Some(0int)
            &&& !glob_matches(args.inline_rule().pattern, filename) ==> config.rule_for(filename)
                == match base.rule_for(filename) {
                Some(i) => Some(i + 1),
                None => None,
            }
            &&& forall|i: int|
                0 <= i < base.processor.len() ==> config.processor[i + 1] == #[trigger] base.processor[i]
        }),
{
    lemma_rule_after_inline(args.inline_rule(), base.processor, filename, 0);
}

/// A member is left out exactly if a pattern of the configuration file or one of the command line
/// matches it.
pub proof fn law_excludes_combine(args: ArgsView, base: ConfigView, path: Seq<char>)
    requires
        args.effective(base) is Ok,
    ensures
        args.effective(base)->Ok_0.excludes(path) <==> base.excludes(path) || exists|i: int|
            0 <= i < args.excludes.len() && glob_matches(#[trigger] args.excludes[i], path),
{
    let config = args.effective(base)->Ok_0;
    if config.excludes(path) {
        let i = choose|i: int|
            0 <= i < config.exclude.len() && glob_matches(#[trigger] config.exclude[i], path);
        if i < base.exclude.len() {
            assert(glob_matches(base.exclude[i], path));
        } else {
            assert(glob_matches(args.excludes[i - base.exclude.len()], path));
        }
    }
    if base.excludes(path) {
        let i = choose|i: int|
            0 <= i < base.exclude.len() && glob_matches(#[trigger] base.exclude[i], path);
        assert(config.exclude[i] == base.exclude[i]);
    }
    if exists|i: int|
        0 <= i < args.excludes.len() && glob_matches(#[trigger] args.excludes[i], path) {
        let i = choose|i: int|
            0 <= i < args.excludes.len() && glob_matches(#[trigger] args.excludes[i], path);
        assert(config.exclude[i + base.exclude.len()] == args.excludes[i]);
    }
}

/// A command line is refused exactly if it gives a pattern, an I/O mode or an argument but neither
/// a command nor a shell expression.
pub proof fn law_details_need_an_action(args: ArgsView, base: ConfigView)
    ensures
        args.effective(base) is Err <==> {
            &&& args.command is None
            &&& args.shell is None
            &&& args.pattern is Some || args.io is Some || args.args.len() > 0
        },
{
}

/// The inline rule says what was asked for: it has the pattern that was given, or `*` without one;
/// it runs the shell expression, if there is one, and otherwise the command with all its
/// arguments; and it does so in the I/O mode that was given, or in place without one.
pub proof fn law_inline_rule_is_what_was_asked(args: ArgsView, base: ConfigView)
    requires
        args.command is Some || args.shell is Some,
    ensures
        ({
            let rules = args.effective(base)->Ok_0.processor;
            let rule = rules[0];
            let io = if args.io is Some {
                args.io->0
            } else {
                IoMode::InPlace
            };
            &&& args.effective(base) is Ok
            &&& rules.len() == base.processor.len() + 1
            &&& args.pattern is Some ==> rule.pattern == args.pattern->0
            &&& args.pattern is None ==> rule.pattern == "*"@
            &&& args.shell is Some ==> rule.shell == args.shell && rule.io == io
            &&& args.shell is None ==> {
                &&& rule.shell is None
                &&& rule.chain.len() == 1
                &&& rule.chain[0].command == args.command->0
                &&& rule.chain[0].args == args.args
                &&& rule.chain[0].io == io
            }
        }),
{
}

/// The pattern that was given limits the inline rule: a file that does not match it gets the rule
/// that the configuration file alone gives it, and a file that matches it gets the inline rule.
pub proof fn law_pattern_limits_the_inline_rule(args: ArgsView, base: ConfigView, filename: Seq<char>)
    requires
        args.command is Some || args.shell is Some,
        args.pattern is Some,
    ensures
        ({
            let config = args.effective(base)->Ok_0;
            let rule = config.rule_for(filename);
            &&& glob_matches(args.pattern->0, filename) ==> rule == Some(0int)
            &&& !glob_matches(args.pattern->0, filename) ==> (rule is Some <==> base.rule_for(
                filename,
            ) is Some)
            &&& !glob_matches(args.pattern->0, filename) && rule is Some
                ==> config.processor[rule->0] == base.processor[base.rule_for(filename)->0]
        }),
{
    law_inline_rule_first(args, base, filename);
    law_first_match_wins(base, filename);
    if base.rule_for(filename) is Some {
        let i = base.rule_for(filename)->0;
        assert(args.effective(base)->Ok_0.processor[i + 1] == base.processor[i]);
    }
}

/// Without an inline rule the rules are those of the configuration file, and in any case all
/// exclude patterns of both are there.
pub proof fn law_nothing_of_the_file_is_lost(args: ArgsView, base: ConfigView)
    requires
        args.effective(base) is Ok,
    ensures
        ({
            let config = args.effective(base)->Ok_0;
            &&& args.command is None && args.shell is None ==> config.processor == base.processor
            &&& forall|i: int|
                0 <= i < base.processor.len() ==> config.processor.contains(
                    #[trigger] base.processor[i],
                )
            &&& config.exclude.len() == base.exclude.len() + args.excludes.len()
            &&& forall|i: int|
                0 <= i < base.exclude.len() ==> config.exclude[i] == #[trigger] base.exclude[i]
            &&& forall|i: int|
                0 <= i < args.excludes.len() ==> config.exclude[base.exclude.len() + i]
                    == #[trigger] args.excludes[i]
        }),
{
    let config = args.effective(base)->Ok_0;
    assert forall|i: int| 0 <= i < base.processor.len() implies config.processor.contains(
        #[trigger] base.processor[i],
    ) by {
        if args.has_inline() {
            assert(config.processor[i + 1] == base.processor[i]);
        } else {
            assert(config.processor[i] == base.processor[i]);
        }
    }
}

} // verus!
