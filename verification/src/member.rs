//! What happens to each member of an archive that is repacked.
//!
//! The caller reads the members one after the other. For each, [`Repacker::plan_member`] (or, for
//! the members of a nested archive that is flattened, [`Repacker::plan_flattened`]) says what to
//! do; where that needs a command, its outcome goes to [`Repacker::settle_rule`] or
//! [`Repacker::settle_nested`]. [`Repacker::finish`] gives the manifest.

use crate::archive::{archive_stem, is_archive_name, lemma_archive_name_end, names_archive,
    stem_of_archive};
use crate::config::{law_first_match_wins, Config, ConfigView};
use crate::dispatch::ProcessResult;
use crate::manifest::{build_manifest, is_time_text, manifest_from_bytes, manifest_of, manifest_read,
    MANIFEST_NAME};
use crate::number::{decimal, format_number};
use crate::path::{file_name, is_file_name, joined, law_end_of_a_path,
    law_file_name_is_the_last_component, lemma_name_of_joined, name_of};
use crate::pattern::glob_matches;
use crate::pdf::{is_encrypted, is_pdf_name, is_stamped, names_pdf, pdf_has_ocrmypdf_stamp,
    pdf_is_encrypted};
use crate::text::{ends_with, same_text, slice_option, strip_suffix, text_option, texts};
use vstd::prelude::*;
use vstd::string::*;

verus! {

/// What to do with an archive found inside the input.
#[derive(Debug, Clone, Copy, PartialEq, Eq, Structural)]
pub enum NestedMode {
    /// Repack it into a nested ZIP.
    Repack,
    /// Put its contents into a directory named after it.
    Flatten,
    /// Copy it as it is.
    Passthrough,
}

impl Default for NestedMode {
    fn default() -> (res: Self)
        ensures
            res == NestedMode::Passthrough,
    {
        NestedMode::Passthrough
    }
}

/// Where a member is found.
pub enum Scope {
    /// In the input itself; nested archives are treated in that mode.
    Top(NestedMode),
    /// In a nested archive that is flattened into the directory of that name.
    Inside(Seq<char>),
}

/// What to do with a member.
#[derive(Debug)]
pub enum MemberAction {
    /// Add a directory of that name to the output.
    AddDirectory { name: String },
    /// Read the member and hand it to [`Repacker::take_manifest`]; write nothing.
    TakeManifest,
    /// Read the member to its end and write nothing.
    Exclude,
    /// Copy the data to a file of that name.
    CopyThrough { name: String },
    /// Write the data to a temporary file of that name, read it as an archive and plan its
    /// members with that prefix.
    Flatten { temp_input: String, prefix: String },
    /// Write the data to the first temporary file, repack that into the second, and hand the
    /// outcome to [`Repacker::settle_nested`].
    Repack { temp_input: String, temp_output: String, zip_name: String },
    /// Read the member; unless [`skips_rule`], apply the rule at that position to it under that
    /// file name; write what [`Repacker::settle_rule`] gives to a file of that name.
    Process { rule: usize, filename: String, name: String },
}

/// [`MemberAction`] as mathematics.
pub enum ActionView {
    AddDirectory { name: Seq<char> },
    TakeManifest,
    Exclude,
    CopyThrough { name: Seq<char> },
    Flatten { temp_input: Seq<char>, prefix: Seq<char> },
    Repack { temp_input: Seq<char>, temp_output: Seq<char>, zip_name: Seq<char> },
    Process { rule: int, filename: Seq<char>, name: Seq<char> },
}

impl View for MemberAction {
    type V = ActionView;

    open spec fn view(&self) -> ActionView {
        match self {
            MemberAction::AddDirectory { name } => ActionView::AddDirectory { name: name@ },
            MemberAction::TakeManifest => ActionView::TakeManifest,
            MemberAction::Exclude => ActionView::Exclude,
            MemberAction::CopyThrough { name } => ActionView::CopyThrough { name: name@ },
            MemberAction::Flatten { temp_input, prefix } => ActionView::Flatten {
                temp_input: temp_input@,
                prefix: prefix@,
            },
            MemberAction::Repack { temp_input, temp_output, zip_name } => ActionView::Repack {
                temp_input: temp_input@,
                temp_output: temp_output@,
                zip_name: zip_name@,
            },
            MemberAction::Process { rule, filename, name } => ActionView::Process {
                rule: *rule as int,
                filename: filename@,
                name: name@,
            },
        }
    }
}

/// The file name of a member: its last component, or the whole name where that is not one.
pub open spec fn filename_of(name: Seq<char>) -> Seq<char> {
    match name_of(name) {
        Some(f) => f,
        None => name,
    }
}

/// What stands before the file name of a member, if the name ends with it.
pub open spec fn dir_prefix_of(name: Seq<char>) -> Seq<char> {
    if ends_with(name, filename_of(name)) {
        name.take(name.len() - filename_of(name).len())
    } else {
        Seq::empty()
    }
}

/// The directory that a nested archive is flattened into.
pub open spec fn flat_prefix_of(prefix: Seq<char>, name: Seq<char>) -> Seq<char> {
    prefix + dir_prefix_of(name) + stem_of_archive(filename_of(name)) + "/"@
}

/// What a nested archive is called once it is repacked.
pub open spec fn nested_zip_of(name: Seq<char>) -> Seq<char> {
    dir_prefix_of(name) + stem_of_archive(filename_of(name)) + ".zip"@
}

/// The name of the temporary file number `n` for `filename`.
pub open spec fn temp_name(n: nat, filename: Seq<char>) -> Seq<char> {
    decimal(n) + "-"@ + filename
}

/// The name that a member has in the output if it is copied.
pub open spec fn full_name(scope: Scope, name: Seq<char>) -> Seq<char> {
    match scope {
        Scope::Top(_) => name,
        Scope::Inside(prefix) => prefix + name,
    }
}

/// The member is the manifest of an earlier run.
pub open spec fn is_manifest(scope: Scope, name: Seq<char>, is_dir: bool) -> bool {
    scope is Top && !is_dir && name == MANIFEST_NAME@
}

/// What is done with a member; `n` is the number of the temporary file, should it need one.
pub open spec fn plan(scope: Scope, config: ConfigView, n: nat, name: Seq<char>, is_dir: bool) -> ActionView {
    let full = full_name(scope, name);
    let filename = filename_of(name);
    if is_dir {
        ActionView::AddDirectory { name: full }
    } else if is_manifest(scope, name, is_dir) {
        ActionView::TakeManifest
    } else if config.excludes(full) {
        ActionView::Exclude
    } else if names_archive(filename) {
        match scope {
            Scope::Top(NestedMode::Passthrough) => ActionView::CopyThrough { name },
            Scope::Top(NestedMode::Repack) => ActionView::Repack {
                temp_input: temp_name(n, filename),
                temp_output: temp_name(n, stem_of_archive(filename)) + ".zip"@,
                zip_name: nested_zip_of(name),
            },
            Scope::Top(NestedMode::Flatten) => ActionView::Flatten {
                temp_input: temp_name(n, filename),
                prefix: flat_prefix_of(Seq::empty(), name),
            },
            Scope::Inside(prefix) => ActionView::Flatten {
                temp_input: temp_name(n, filename),
                prefix: flat_prefix_of(prefix, name),
            },
        }
    } else {
        match config.rule_for(filename) {
            Some(rule) => ActionView::Process { rule, filename, name: full },
            None => ActionView::CopyThrough { name: full },
        }
    }
}

/// The action takes a temporary file.
pub open spec fn takes_temp(action: ActionView) -> bool {
    action is Flatten || action is Repack
}

/// The rule is not applied to that file: it is a PDF that has been through the OCR tool already, or
/// one that is encrypted, which no tool can process.
pub open spec fn is_skipped(filename: Seq<char>, data: Seq<u8>) -> bool {
    names_pdf(filename) && (is_stamped(data) || is_encrypted(data))
}

/// What became of a member that has a rule.
#[derive(Debug)]
pub enum RuleOutcome {
    /// The rule was not applied.
    Skipped,
    /// The rule failed.
    Failed,
    /// The rule was applied.
    Finished(ProcessResult),
}

/// [`RuleOutcome`] as mathematics: the new content, if there is one.
pub open spec fn new_content(outcome: RuleOutcome) -> Option<Seq<u8>> {
    match outcome {
        RuleOutcome::Finished(ProcessResult::Modified(d)) => Some(d@),
        _ => None,
    }
}

/// The entry that a nested archive leaves after an attempt to repack it.
#[derive(Debug)]
pub struct NestedEntry {
    /// Its name in the output.
    pub name: String,
    /// Its content is the repacked ZIP; otherwise it is the nested archive as it was.
    pub repacked: bool,
}

/// The progress of a repacking run.
#[derive(Debug)]
pub struct Repacker {
    /// The members modified so far.
    pub modified: Vec<String>,
    /// The number of the last temporary file.
    pub tmp_counter: u32,
    /// The manifest of earlier runs, if the input has one.
    pub existing_manifest: Option<String>,
}

/// [`Repacker`] as mathematics.
#[verifier::ext_equal]
pub struct RepackView {
    pub modified: Seq<Seq<char>>,
    pub counter: nat,
    pub manifest: Option<Seq<char>>,
}

impl View for Repacker {
    type V = RepackView;

    open spec fn view(&self) -> RepackView {
        RepackView {
            modified: texts(self.modified@),
            counter: self.tmp_counter as nat,
            manifest: text_option(self.existing_manifest),
        }
    }
}

impl RepackView {
    /// The state after a member has been planned.
    pub open spec fn planned(self, action: ActionView) -> RepackView {
        if takes_temp(action) {
            RepackView { counter: self.counter + 1, ..self }
        } else {
            self
        }
    }

    /// The state after one more member has been modified.
    pub open spec fn with_modified(self, name: Seq<char>) -> RepackView {
        RepackView { modified: self.modified.push(name), ..self }
    }
}

/// The file name of a member.
pub fn member_filename(name: &str) -> (res: String)
    ensures
        res@ == filename_of(name@),
{
    match file_name(name) {
        Some(f) => f,
        None => name.to_owned(),
    }
}

fn dir_prefix(name: &str, filename: &str) -> (res: String)
    requires
        filename@ == filename_of(name@),
    ensures
        res@ == dir_prefix_of(name@),
{
    match strip_suffix(name, filename) {
        Some(p) => p,
        None => String::new(),
    }
}

fn temp_file_name(n: u32, filename: &str) -> (res: String)
    ensures
        res@ == temp_name(n as nat, filename@),
{
    let mut out = format_number(n as u64);
    out.append("-");
    out.append(filename);
    out
}

fn flat_prefix(prefix: &str, name: &str, filename: &str) -> (res: String)
    requires
        filename@ == filename_of(name@),
    ensures
        res@ == flat_prefix_of(prefix@, name@),
{
    let mut out = prefix.to_owned();
    out.append(dir_prefix(name, filename).as_str());
    out.append(archive_stem(filename).as_str());
    out.append("/");
    out
}

/// Whether the rule for a member is left unapplied.
pub fn skips_rule(filename: &str, data: &[u8]) -> (res: bool)
    ensures
        res == is_skipped(filename@, data@),
{
    is_pdf_name(filename) && (pdf_has_ocrmypdf_stamp(data) || pdf_is_encrypted(data))
}

/// Progress counts a member with that action: all but directories and the manifest of an earlier
/// run.
pub open spec fn counts(action: ActionView) -> bool {
    !(action is AddDirectory || action is TakeManifest)
}

/// Whether progress counts the member: directories and the manifest of an earlier run do not
/// count; a member that is left out does.
pub fn counts_as_progress(action: &MemberAction) -> (res: bool)
    ensures
        res == counts(action@),
{
    match action {
        MemberAction::AddDirectory { .. } => false,
        MemberAction::TakeManifest => false,
        _ => true,
    }
}

/// What a dry run says of a member.
#[derive(Debug)]
pub enum DryRunNote {
    Nothing,
    WouldExclude,
    WouldRepack,
    WouldFlatten,
    WouldPassThrough,
    /// The rule at that position would be applied.
    WouldApply { rule: usize },
}

/// [`DryRunNote`] as mathematics.
pub enum NoteView {
    Nothing,
    WouldExclude,
    WouldRepack,
    WouldFlatten,
    WouldPassThrough,
    WouldApply { rule: int },
}

impl View for DryRunNote {
    type V = NoteView;

    open spec fn view(&self) -> NoteView {
        match self {
            DryRunNote::Nothing => NoteView::Nothing,
            DryRunNote::WouldExclude => NoteView::WouldExclude,
            DryRunNote::WouldRepack => NoteView::WouldRepack,
            DryRunNote::WouldFlatten => NoteView::WouldFlatten,
            DryRunNote::WouldPassThrough => NoteView::WouldPassThrough,
            DryRunNote::WouldApply { rule } => NoteView::WouldApply { rule: *rule as int },
        }
    }
}

/// What is said of a member in a dry run.
pub open spec fn dry_run_of(config: ConfigView, nested: NestedMode, name: Seq<char>, is_dir: bool) -> NoteView {
    if is_dir {
        NoteView::Nothing
    } else if config.excludes(name) {
        NoteView::WouldExclude
    } else if names_archive(filename_of(name)) {
        match nested {
            NestedMode::Repack => NoteView::WouldRepack,
            NestedMode::Flatten => NoteView::WouldFlatten,
            NestedMode::Passthrough => NoteView::WouldPassThrough,
        }
    } else {
        match config.rule_for(filename_of(name)) {
            Some(rule) => NoteView::WouldApply { rule },
            None => NoteView::Nothing,
        }
    }
}

/// What to say of a member in a dry run.
pub fn dry_run_note(config: &Config, nested: NestedMode, name: &str, is_dir: bool) -> (res: DryRunNote)
    ensures
        res@ == dry_run_of(config@, nested, name@, is_dir),
{
    if is_dir {
        return DryRunNote::Nothing;
    }
    if config.is_excluded(name) {
        return DryRunNote::WouldExclude;
    }
    let filename = member_filename(name);
    if is_archive_name(filename.as_str()) {
        match nested {
            NestedMode::Repack => DryRunNote::WouldRepack,
            NestedMode::Flatten => DryRunNote::WouldFlatten,
            NestedMode::Passthrough => DryRunNote::WouldPassThrough,
        }
    } else {
        match config.find_rule_index(filename.as_str()) {
            Some(rule) => DryRunNote::WouldApply { rule },
            None => DryRunNote::Nothing,
        }
    }
}

/// A dry run foretells the run: what it says of a member other than the manifest is what the run
/// does with it.
pub proof fn law_dry_run_foretells(config: ConfigView, nested: NestedMode, n: nat, name: Seq<char>, is_dir: bool)
    requires
        !is_manifest(Scope::Top(nested), name, is_dir),
    ensures
        ({
            let action = plan(Scope::Top(nested), config, n, name, is_dir);
            match dry_run_of(config, nested, name, is_dir) {
                NoteView::Nothing => action == if is_dir {
                    ActionView::AddDirectory { name }
                } else {
                    ActionView::CopyThrough { name }
                },
                NoteView::WouldExclude => action is Exclude,
                NoteView::WouldRepack => action is Repack,
                NoteView::WouldFlatten => action is Flatten,
                NoteView::WouldPassThrough => action == ActionView::CopyThrough { name },
                NoteView::WouldApply { rule } => action == ActionView::Process {
                    rule,
                    filename: filename_of(name),
                    name,
                },
            }
        }),
{
}

impl Repacker {
    /// A run that has not seen a member yet.
    pub fn new() -> (res: Self)
        ensures
            res@ == (RepackView { modified: Seq::empty(), counter: 0, manifest: None }),
    {
        let res = Repacker { modified: Vec::new(), tmp_counter: 0, existing_manifest: None };
        assert(texts(res.modified@) =~= Seq::empty());
        res
    }

    /// What to do with a member of the input.
    pub fn plan_member(&mut self, config: &Config, nested: NestedMode, name: &str, is_dir: bool) -> (res:
        MemberAction)
        requires
            takes_temp(plan(Scope::Top(nested), config@, old(self)@.counter + 1, name@, is_dir))
                ==> old(self).tmp_counter < u32::MAX,
        ensures
            res@ == plan(Scope::Top(nested), config@, old(self)@.counter + 1, name@, is_dir),
            final(self)@ == old(self)@.planned(res@),
    {
        if is_dir {
            return MemberAction::AddDirectory { name: name.to_owned() };
        }
        if same_text(name, MANIFEST_NAME) {
            return MemberAction::TakeManifest;
        }
        if config.is_excluded(name) {
            return MemberAction::Exclude;
        }
        let filename = member_filename(name);
        if is_archive_name(filename.as_str()) {
            match nested {
                NestedMode::Passthrough => MemberAction::CopyThrough { name: name.to_owned() },
                NestedMode::Flatten => {
                    self.tmp_counter = self.tmp_counter + 1;
                    proof {
                        reveal_strlit("");
                        assert(""@ =~= Seq::<char>::empty());
                    }
                    MemberAction::Flatten {
                        temp_input: temp_file_name(self.tmp_counter, filename.as_str()),
                        prefix: flat_prefix("", name, filename.as_str()),
                    }
                },
                NestedMode::Repack => {
                    self.tmp_counter = self.tmp_counter + 1;
                    let stem = archive_stem(filename.as_str());
                    let mut zip_name = dir_prefix(name, filename.as_str());
                    zip_name.append(stem.as_str());
                    zip_name.append(".zip");
                    MemberAction::Repack {
                        temp_input: temp_file_name(self.tmp_counter, filename.as_str()),
                        temp_output: temp_file_name(self.tmp_counter, stem.as_str()).concat(".zip"),
                        zip_name,
                    }
                },
            }
        } else {
            match config.find_rule_index(filename.as_str()) {
                Some(rule) => MemberAction::Process { rule, filename, name: name.to_owned() },
                None => MemberAction::CopyThrough { name: name.to_owned() },
            }
        }
    }

    /// What to do with a member of a nested archive that is flattened under `prefix`.
    pub fn plan_flattened(&mut self, config: &Config, prefix: &str, name: &str, is_dir: bool) -> (res:
        MemberAction)
        requires
            takes_temp(plan(Scope::Inside(prefix@), config@, old(self)@.counter + 1, name@, is_dir))
                ==> old(self).tmp_counter < u32::MAX,
        ensures
            res@ == plan(Scope::Inside(prefix@), config@, old(self)@.counter + 1, name@, is_dir),
            final(self)@ == old(self)@.planned(res@),
    {
        let full = prefix.to_owned().concat(name);
        if is_dir {
            return MemberAction::AddDirectory { name: full };
        }
        if config.is_excluded(full.as_str()) {
            return MemberAction::Exclude;
        }
        let filename = member_filename(name);
        if is_archive_name(filename.as_str()) {
            self.tmp_counter = self.tmp_counter + 1;
            return MemberAction::Flatten {
                temp_input: temp_file_name(self.tmp_counter, filename.as_str()),
                prefix: flat_prefix(prefix, name, filename.as_str()),
            };
        }
        match config.find_rule_index(filename.as_str()) {
            Some(rule) => MemberAction::Process { rule, filename, name: full },
            None => MemberAction::CopyThrough { name: full },
        }
    }

    /// Takes the manifest of earlier runs out of the input.
    pub fn take_manifest(&mut self, bytes: &[u8])
        ensures
            final(self)@ == (RepackView { manifest: Some(manifest_read(bytes@)), ..old(self)@ }),
    {
        self.existing_manifest = Some(manifest_from_bytes(bytes));
    }

    /// The content of a member whose rule has been dealt with: what the rule made of it, or the
    /// original, where the rule was not applied, failed or changed nothing. Only in the first
    /// case does the member count as modified.
    pub fn settle_rule(&mut self, name: &str, data: Vec<u8>, outcome: RuleOutcome) -> (res: Vec<u8>)
        ensures
            match new_content(outcome) {
                Some(d) => res@ == d && final(self)@ == old(self)@.with_modified(name@),
                None => res@ == data@ && final(self)@ == old(self)@,
            },
    {
        match outcome {
            RuleOutcome::Finished(ProcessResult::Modified(new_data)) => {
                self.modified.push(name.to_owned());
                assert(texts(self.modified@) =~= texts(old(self).modified@).push(name@));
                new_data
            },
            _ => data,
        }
    }

    /// The entry for a nested archive after an attempt to repack it: the repacked ZIP, or, where
    /// that failed, the nested archive under its own name.
    pub fn settle_nested(&mut self, name: &str, zip_name: String, success: bool) -> (res: NestedEntry)
        ensures
            res.repacked == success,
            res.name@ == if success {
                zip_name@
            } else {
                name@
            },
            final(self)@ == if success {
                old(self)@.with_modified(name@)
            } else {
                old(self)@
            },
    {
        if success {
            self.modified.push(name.to_owned());
            assert(texts(self.modified@) =~= texts(old(self).modified@).push(name@));
            NestedEntry { name: zip_name, repacked: true }
        } else {
            NestedEntry { name: name.to_owned(), repacked: false }
        }
    }

    /// The manifest to write last, if one is asked for or the input had one.
    pub fn finish(&self, write_manifest: bool) -> (res: Option<String>)
        ensures
            res is Some <==> write_manifest || self@.manifest is Some,
            res matches Some(text) ==> exists|time: Seq<char>|
                is_time_text(time) && text@ == #[trigger] manifest_of(
                    self@.manifest,
                    self@.modified,
                    time,
                ),
    {
        if write_manifest || self.existing_manifest.is_some() {
            let prior = match &self.existing_manifest {
                Some(p) => Some(p.as_str()),
                None => None,
            };
            let text = build_manifest(prior, self.modified.as_slice());
            proof {
                let names = texts(self.modified@);
                let time = choose|time: Seq<char>|
                    is_time_text(time) && text@ == #[trigger] manifest_of(
                        slice_option(prior),
                        names,
                        time,
                    );
                assert(self@.modified == names);
                assert(is_time_text(time) && text@ == manifest_of(
                    self@.manifest,
                    self@.modified,
                    time,
                ));
            }
            Some(text)
        } else {
            None
        }
    }
}

/// The rule that a member is processed by is the first whose pattern its file name matches: it is
/// one of the rules, it matches, and none before it does. It is processed under that file name and
/// written under its whole name.
pub proof fn law_first_matching_rule_is_applied(
    scope: Scope,
    config: ConfigView,
    n: nat,
    name: Seq<char>,
    is_dir: bool,
)
    ensures
        plan(scope, config, n, name, is_dir) matches ActionView::Process { rule, filename, name: out }
            ==> {
            &&& 0 <= rule < config.processor.len()
            &&& glob_matches(config.processor[rule].pattern, filename_of(name))
            &&& forall|j: int|
                0 <= j < rule ==> !glob_matches(
                    #[trigger] config.processor[j].pattern,
                    filename_of(name),
                )
            &&& filename == filename_of(name)
            &&& out == match scope {
                Scope::Top(_) => name,
                Scope::Inside(prefix) => prefix + name,
            }
        },
{
    law_first_match_wins(config, filename_of(name));
}

/// What a dry run names as the rule for a member is the first whose pattern its file name matches.
pub proof fn law_dry_run_names_the_first_matching_rule(
    config: ConfigView,
    nested: NestedMode,
    name: Seq<char>,
    is_dir: bool,
)
    ensures
        dry_run_of(config, nested, name, is_dir) matches NoteView::WouldApply { rule } ==> {
            &&& 0 <= rule < config.processor.len()
            &&& glob_matches(config.processor[rule].pattern, filename_of(name))
            &&& forall|j: int|
                0 <= j < rule ==> !glob_matches(
                    #[trigger] config.processor[j].pattern,
                    filename_of(name),
                )
        },
{
    law_first_match_wins(config, filename_of(name));
}

/// What is done with a member, and why. A directory is added. Of the files, the manifest of the
/// input itself is taken out; one whose whole name is excluded is left out; an archive is treated
/// as the mode says, and inside an archive that is flattened it is flattened too; any other is
/// processed if a rule matches its file name, and otherwise copied.
pub proof fn law_each_member_gets_its_action(
    scope: Scope,
    config: ConfigView,
    n: nat,
    name: Seq<char>,
    is_dir: bool,
)
    ensures
        ({
            let action = plan(scope, config, n, name, is_dir);
            let full = match scope {
                Scope::Top(_) => name,
                Scope::Inside(prefix) => prefix + name,
            };
            let filename = filename_of(name);
            let taken = scope is Top && name == "archive-assistant.txt"@;
            let excluded = config.excludes(full);
            let archive = names_archive(filename);
            let has_rule = exists|i: int|
                0 <= i < config.processor.len() && glob_matches(
                    #[trigger] config.processor[i].pattern,
                    filename,
                );
            &&& is_dir ==> action == ActionView::AddDirectory { name: full }
            &&& !is_dir ==> {
                &&& taken ==> action == ActionView::TakeManifest
                &&& !taken && excluded ==> action == ActionView::Exclude
                &&& !taken && !excluded ==> {
                    &&& archive && scope == Scope::Top(NestedMode::Passthrough) ==> action
                        == ActionView::CopyThrough { name }
                    &&& archive && scope == Scope::Top(NestedMode::Repack) ==> action is Repack
                    &&& archive && scope == Scope::Top(NestedMode::Flatten) ==> action is Flatten
                    &&& archive && scope is Inside ==> action is Flatten
                    &&& !archive && has_rule ==> action is Process
                    &&& !archive && !has_rule ==> action == ActionView::CopyThrough { name: full }
                }
            }
        }),
{
    law_first_match_wins(config, filename_of(name));
}

/// What a dry run says of a member, and why: nothing of a directory; of a file, that it would be
/// left out if it is excluded, what the mode would do with it if it is an archive, and that a rule
/// would be applied if one matches.
pub proof fn law_dry_run_looks_at_each_file(
    config: ConfigView,
    nested: NestedMode,
    name: Seq<char>,
    is_dir: bool,
)
    ensures
        ({
            let note = dry_run_of(config, nested, name, is_dir);
            let archive = names_archive(filename_of(name));
            let has_rule = exists|i: int|
                0 <= i < config.processor.len() && glob_matches(
                    #[trigger] config.processor[i].pattern,
                    filename_of(name),
                );
            &&& is_dir ==> note is Nothing
            &&& !is_dir && config.excludes(name) ==> note is WouldExclude
            &&& !is_dir && !config.excludes(name) ==> {
                &&& archive && nested == NestedMode::Repack ==> note is WouldRepack
                &&& archive && nested == NestedMode::Flatten ==> note is WouldFlatten
                &&& archive && nested == NestedMode::Passthrough ==> note is WouldPassThrough
                &&& !archive && has_rule ==> note is WouldApply
                &&& !archive && !has_rule ==> note is Nothing
            }
        }),
{
    law_first_match_wins(config, filename_of(name));
}

/// A member name is its directories, however deep, and its file name.
pub proof fn law_member_name_splits(dir: Seq<char>, f: Seq<char>)
    requires
        dir.len() == 0 || dir.last() == '/',
        is_file_name(f),
        !f.contains('/'),
    ensures
        filename_of(dir + f) == f,
        dir_prefix_of(dir + f) == dir,
{
    if f[0] == '/' {
        assert(f.contains('/'));
    }
    let name = dir + f;
    assert(joined(dir, f) == name);
    lemma_name_of_joined(dir, f);
    assert(name.skip(name.len() - f.len()) =~= f);
    assert(name.take(name.len() - f.len()) =~= dir);
}

/// A nested archive keeps its place: all directories of its name, however many, and whatever it is
/// flattened under, stand before its stem, both in the directory that it is flattened into and in
/// the name of the ZIP that it is repacked as. The temporary files bear the number and its name.
pub proof fn law_nested_archive_keeps_its_place(
    config: ConfigView,
    n: nat,
    outer: Seq<char>,
    dir: Seq<char>,
    f: Seq<char>,
)
    requires
        dir.len() == 0 || dir.last() == '/',
        is_file_name(f),
        !f.contains('/'),
        names_archive(f),
    ensures
        ({
            let name = dir + f;
            let stem = stem_of_archive(f);
            let input = decimal(n) + "-"@ + f;
            &&& !config.excludes(name) ==> {
                &&& plan(Scope::Top(NestedMode::Flatten), config, n, name, false)
                    == ActionView::Flatten { temp_input: input, prefix: dir + stem + "/"@ }
                &&& plan(Scope::Top(NestedMode::Repack), config, n, name, false)
                    == ActionView::Repack {
                    temp_input: input,
                    temp_output: decimal(n) + "-"@ + stem + ".zip"@,
                    zip_name: dir + stem + ".zip"@,
                }
                &&& plan(Scope::Top(NestedMode::Passthrough), config, n, name, false)
                    == ActionView::CopyThrough { name }
            }
            &&& !config.excludes(outer + name) ==> plan(Scope::Inside(outer), config, n, name, false)
                == ActionView::Flatten { temp_input: input, prefix: outer + dir + stem + "/"@ }
        }),
{
    let name = dir + f;
    law_member_name_splits(dir, f);
    lemma_archive_name_end(f);
    reveal_strlit("archive-assistant.txt");
    assert(name.last() == f.last());
    assert(MANIFEST_NAME@.last() == 't');
    assert(Seq::<char>::empty() + dir =~= dir);
}

/// Only PDFs are ever skipped, and of these exactly those that bear the stamp or are encrypted.
pub proof fn law_skipping_is_for_pdfs(filename: Seq<char>, data: Seq<u8>)
    ensures
        !names_pdf(filename) ==> !is_skipped(filename, data),
        names_pdf(filename) && is_stamped(data) ==> is_skipped(filename, data),
        names_pdf(filename) && is_encrypted(data) ==> is_skipped(filename, data),
        is_skipped(filename, data) ==> is_stamped(data) || is_encrypted(data),
{
}

/// A plan takes one number for its temporary files, if it needs any, and changes nothing else; a
/// member that was modified is listed after those before it, and nothing else changes.
pub proof fn law_state_keeps_count(state: RepackView, action: ActionView, name: Seq<char>)
    ensures
        ({
            let after = state.planned(action);
            &&& after.counter == state.counter + if action is Flatten || action is Repack {
                1int
            } else {
                0int
            }
            &&& after.modified == state.modified
            &&& after.manifest == state.manifest
        }),
        ({
            let after = state.with_modified(name);
            &&& after.modified.len() == state.modified.len() + 1
            &&& after.modified.last() == name
            &&& after.modified.drop_last() == state.modified
            &&& after.counter == state.counter
            &&& after.manifest == state.manifest
        }),
{
    assert(state.modified.push(name).drop_last() =~= state.modified);
}

/// A member gets new content only from a rule that was applied and changed it, and it gets all of
/// it.
pub proof fn law_only_a_changed_result_counts(outcome: RuleOutcome, data: Vec<u8>)
    ensures
        new_content(RuleOutcome::Finished(ProcessResult::Modified(data))) == Some(data@),
        new_content(outcome) is Some ==> outcome is Finished && outcome->Finished_0 is Modified,
{
}

/// Progress counts every file, those that are left out too, but for the manifest of the input
/// itself; it does not count directories.
pub proof fn law_progress_counts_every_file(
    scope: Scope,
    config: ConfigView,
    n: nat,
    name: Seq<char>,
    is_dir: bool,
)
    ensures
        counts(plan(scope, config, n, name, is_dir)) <==> !is_dir && !(scope is Top && name
            == "archive-assistant.txt"@),
{
}

/// A member whose name has no last component, such as one that ends with `..`, goes by its whole
/// name, with nothing before it.
pub proof fn law_nameless_member_goes_by_its_whole_name(dir: Seq<char>, name: Seq<char>)
    ensures
        name_of(name) is None ==> filename_of(name) == name && dir_prefix_of(name) == Seq::<
            char,
        >::empty(),
        filename_of(dir + seq!['/', '.', '.']) == dir + seq!['/', '.', '.'],
{
    law_file_name_is_the_last_component(dir, seq!['f']);
    assert(name.take(0) =~= Seq::<char>::empty());
    assert(name.skip(0) =~= name);
}

/// A separator after the file name of a member is no part of it, and where one stands there, what
/// is before the file name is not kept.
pub proof fn law_separator_after_the_file_name(dir: Seq<char>, f: Seq<char>)
    requires
        dir.len() == 0 || dir.last() == '/',
        is_file_name(f),
        !f.contains('/'),
    ensures
        filename_of(dir + f + seq!['/']) == f,
        dir_prefix_of(dir + f + seq!['/']) == Seq::<char>::empty(),
{
    let name = dir + f + seq!['/'];
    law_member_name_splits(dir, f);
    law_end_of_a_path(dir + f, f);
    assert(name_of(dir + f) == Some(f)) by {
        if f[0] == '/' {
            assert(f.contains('/'));
        }
        assert(joined(dir, f) == dir + f);
        lemma_name_of_joined(dir, f);
    }
    if ends_with(name, f) {
        assert(name.skip(name.len() - f.len()).last() == '/');
        assert(f.contains('/'));
    }
}

} // verus!
