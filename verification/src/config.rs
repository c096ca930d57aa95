//! Processor rules: which files are processed, by what, and which members are left out.

use crate::pattern::{alternatives, glob_match, glob_matches, simple_verdict};
use crate::text::{text_option, texts};
use vstd::prelude::*;
use vstd::string::*;

verus! {

/// How a processor step receives its input and delivers its output.
#[derive(Debug, Clone, Copy, PartialEq, Eq, Structural)]
pub enum IoMode {
    /// The tool modifies the file at `{input}`; `{output}` is the same path.
    InPlace,
    /// The tool reads `{input}` and writes a separate `{output}`.
    FileToFile,
    /// The tool reads `{input}`; the result is its standard output.
    FileToStdout,
    /// The tool reads its standard input; the result is its standard output.
    StdinStdout,
}

impl Default for IoMode {
    fn default() -> (res: Self)
        ensures
            res == IoMode::InPlace,
    {
        IoMode::InPlace
    }
}

/// One step of a chain: a command and its arguments, in which `{input}` and `{output}` stand for
/// paths.
#[derive(Debug, Clone)]
pub struct ChainStep {
    pub command: String,
    pub args: Vec<String>,
    pub io: IoMode,
}

/// A file name pattern and what to do with the files that match it.
#[derive(Debug, Clone)]
pub struct ProcessorRule {
    /// Glob matched against the file name, not the whole path, such as `*.pdf` or `*.{jpg,png}`.
    pub pattern: String,
    /// Steps, each fed with the output of the one before.
    pub chain: Vec<ChainStep>,
    /// Expression for `sh -c`; where it is given, the chain is not used.
    pub shell: Option<String>,
    /// I/O mode of the shell expression.
    pub io: IoMode,
}

/// What a run is configured with.
#[derive(Debug, Clone)]
pub struct Config {
    /// Globs matched against the whole path of a member; a member that matches is left out.
    pub exclude: Vec<String>,
    /// The rules, in order of precedence.
    pub processor: Vec<ProcessorRule>,
}

/// A [`ChainStep`] as mathematics.
#[verifier::ext_equal]
pub struct StepView {
    pub command: Seq<char>,
    pub args: Seq<Seq<char>>,
    pub io: IoMode,
}

/// A [`ProcessorRule`] as mathematics.
#[verifier::ext_equal]
pub struct RuleView {
    pub pattern: Seq<char>,
    pub chain: Seq<StepView>,
    pub shell: Option<Seq<char>>,
    pub io: IoMode,
}

/// A [`Config`] as mathematics.
#[verifier::ext_equal]
pub struct ConfigView {
    pub exclude: Seq<Seq<char>>,
    pub processor: Seq<RuleView>,
}

impl View for ChainStep {
    type V = StepView;

    open spec fn view(&self) -> StepView {
        StepView { command: self.command@, args: texts(self.args@), io: self.io }
    }
}

/// The views of a sequence of steps.
pub open spec fn step_views(v: Seq<ChainStep>) -> Seq<StepView> {
    Seq::new(v.len(), |i: int| v[i]@)
}

impl View for ProcessorRule {
    type V = RuleView;

    open spec fn view(&self) -> RuleView {
        RuleView {
            pattern: self.pattern@,
            chain: step_views(self.chain@),
            shell: text_option(self.shell),
            io: self.io,
        }
    }
}

/// The views of a sequence of rules.
pub open spec fn rule_views(v: Seq<ProcessorRule>) -> Seq<RuleView> {
    Seq::new(v.len(), |i: int| v[i]@)
}

impl View for Config {
    type V = ConfigView;

    open spec fn view(&self) -> ConfigView {
        ConfigView { exclude: texts(self.exclude@), processor: rule_views(self.processor@) }
    }
}

/// The position of the first rule from `from` on whose pattern the file name matches.
pub open spec fn first_rule_from(rules: Seq<RuleView>, filename: Seq<char>, from: int) -> Option<
    int,
>
    decreases rules.len() - from,
{
    if from < 0 || from >= rules.len() {
        None
    } else if glob_matches(rules[from].pattern, filename) {
        Some(from)
    } else {
        first_rule_from(rules, filename, from + 1)
    }
}

impl ConfigView {
    /// The position of the rule for a file name: the first whose pattern it matches.
    pub open spec fn rule_for(self, filename: Seq<char>) -> Option<int> {
        first_rule_from(self.processor, filename, 0)
    }

    /// Some exclude pattern matches the path.
    pub open spec fn excludes(self, path: Seq<char>) -> bool {
        exists|i: int| 0 <= i < self.exclude.len() && glob_matches(#[trigger] self.exclude[i], path)
    }
}

impl Default for Config {
    fn default() -> (res: Self)
        ensures
            res@ == (ConfigView { exclude: Seq::empty(), processor: Seq::empty() }),
    {
        let res = Config { exclude: Vec::new(), processor: Vec::new() };
        assert(res@ =~= ConfigView { exclude: Seq::empty(), processor: Seq::empty() });
        res
    }
}

impl Config {
    /// The configuration with its exclude patterns but without its rules.
    pub fn without_rules(self) -> (res: Config)
        ensures
            res@ == (ConfigView { exclude: self@.exclude, processor: Seq::empty() }),
    {
        let res = Config { exclude: self.exclude, processor: Vec::new() };
        assert(res@.processor =~= Seq::empty());
        res
    }

    /// The position of the first rule whose pattern matches `filename`. The pattern `*` matches
    /// every name.
    pub fn find_rule_index(&self, filename: &str) -> (res: Option<usize>)
        ensures
            match res {
                Some(i) => i < self.processor@.len() && self@.rule_for(filename@) == Some(i as int),
                None => self@.rule_for(filename@) is None,
            },
            self.processor@.len() > 0 && self.processor@[0].pattern@ == "*"@ ==> res == Some(
                0usize,
            ),
    {
        let mut i: usize = 0;
        while i < self.processor.len()
            invariant
                i <= self.processor@.len(),
                self@.rule_for(filename@) == first_rule_from(
                    self@.processor,
                    filename@,
                    i as int,
                ),
                i > 0 ==> self.processor@[0].pattern@ != "*"@,
            decreases self.processor.len() - i,
        {
            proof {
                reveal_strlit("*");
                let p = self.processor@[i as int].pattern@;
                assert("*"@.skip(1) =~= Seq::<char>::empty());
                assert(filename@.skip(filename@.len() as int) =~= Seq::<char>::empty());
                assert("*"@.contains('*')) by {
                    assert("*"@[0] == '*');
                }
                assert(simple_verdict("*"@, filename@) == Some(true));
                assert((seq![p] + alternatives(p))[0] == p);
            }
            if glob_match(self.processor[i].pattern.as_str(), filename) {
                return Some(i);
            }
            i = i + 1;
        }
        None
    }

    /// The first rule whose pattern matches `filename`.
    pub fn find_rule(&self, filename: &str) -> (res: Option<&ProcessorRule>)
        ensures
            match res {
                Some(rule) => self@.rule_for(filename@) is Some && *rule == self.processor@[
                    self@.rule_for(filename@)->0
                ],
                None => self@.rule_for(filename@) is None,
            },
    {
        match self.find_rule_index(filename) {
            Some(i) => Some(&self.processor[i]),
            None => None,
        }
    }

    /// Whether a member of that path is left out.
    pub fn is_excluded(&self, path: &str) -> (res: bool)
        ensures
            res == self@.excludes(path@),
    {
        for i in 0..self.exclude.len()
            invariant
                forall|j: int| 0 <= j < i ==> !glob_matches(#[trigger] self@.exclude[j], path@),
        {
            if glob_match(self.exclude[i].as_str(), path) {
                assert(glob_matches(self@.exclude[i as int], path@));
                return true;
            }
        }
        false
    }
}

/// The rule chosen is the first that matches: it matches, and none before it does; and a rule is
/// chosen whenever one matches.
pub proof fn law_first_match_wins(config: ConfigView, filename: Seq<char>)
    ensures
        match config.rule_for(filename) {
            Some(i) => {
                &&& 0 <= i < config.processor.len()
                &&& glob_matches(config.processor[i].pattern, filename)
                &&& forall|j: int|
                    0 <= j < i ==> !glob_matches(#[trigger] config.processor[j].pattern, filename)
            },
            None => forall|j: int|
                0 <= j < config.processor.len() ==> !glob_matches(
                    #[trigger] config.processor[j].pattern,
                    filename,
                ),
        },
{
    lemma_first_rule_from(config.processor, filename, 0);
}

proof fn lemma_first_rule_from(rules: Seq<RuleView>, filename: Seq<char>, from: int)
    requires
        0 <= from <= rules.len(),
    ensures
        match first_rule_from(rules, filename, from) {
            Some(i) => {
                &&& from <= i < rules.len()
                &&& glob_matches(rules[i].pattern, filename)
                &&& forall|j: int|
                    from <= j < i ==> !glob_matches(#[trigger] rules[j].pattern, filename)
            },
            None => forall|j: int|
                from <= j < rules.len() ==> !glob_matches(#[trigger] rules[j].pattern, filename),
        },
    decreases rules.len() - from,
{
    if from < rules.len() && !glob_matches(rules[from].pattern, filename) {
        lemma_first_rule_from(rules, filename, from + 1);
    }
}

/// A path is excluded if and only if some pattern of the list matches it, wherever in the list it
/// stands.
pub proof fn law_any_pattern_excludes(config: ConfigView, path: Seq<char>)
    ensures
        config.excludes(path) <==> exists|pattern: Seq<char>|
            config.exclude.contains(pattern) && #[trigger] glob_matches(pattern, path),
{
    if config.excludes(path) {
        let i = choose|i: int|
            0 <= i < config.exclude.len() && glob_matches(#[trigger] config.exclude[i], path);
        assert(config.exclude.contains(config.exclude[i]));
    }
    if exists|pattern: Seq<char>|
        config.exclude.contains(pattern) && #[trigger] glob_matches(pattern, path) {
        let pattern = choose|pattern: Seq<char>|
            config.exclude.contains(pattern) && #[trigger] glob_matches(pattern, path);
        let i = choose|i: int| 0 <= i < config.exclude.len() && config.exclude[i] == pattern;
        assert(glob_matches(config.exclude[i], path));
    }
}

} // verus!
